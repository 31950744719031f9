use vstd::prelude::*;

use crate::persistence::le_value;

verus! {

/// Magic bytes "glTF" opening a binary glTF container.
pub open spec fn magic_gltf() -> Seq<u8> {
    seq![0x67u8, 0x6cu8, 0x54u8, 0x46u8]
}

/// Chunk type "JSON".
pub open spec fn tag_json() -> Seq<u8> {
    seq![0x4au8, 0x53u8, 0x4fu8, 0x4eu8]
}

/// Chunk type "BIN\0".
pub open spec fn tag_bin() -> Seq<u8> {
    seq![0x42u8, 0x49u8, 0x4eu8, 0x00u8]
}

/// Little-endian bytes of `v`.
pub open spec fn le4(v: u32) -> Seq<u8> {
    seq![
        (v % 256) as u8,
        ((v / 256) % 256) as u8,
        ((v / 65536) % 256) as u8,
        ((v / 16777216) % 256) as u8,
    ]
}

/// Number of bytes that bring length `n` up to a multiple of four.
pub open spec fn pad4(n: int) -> int {
    (4 - n % 4) % 4
}

/// `n` copies of byte `b`.
pub open spec fn fill(n: int, b: u8) -> Seq<u8> {
    Seq::new(n as nat, |i: int| b)
}

/// The JSON text of a container, padded with spaces to a multiple of four.
pub open spec fn padded_json(json: Seq<u8>) -> Seq<u8> {
    json + fill(pad4(json.len() as int), 0x20u8)
}

/// The binary glTF container holding `json` (padded with spaces) and `bin`:
/// a 12-byte header (magic, version 2, total length) followed by a JSON
/// chunk and a BIN chunk, each with its length and type.
pub open spec fn glb_bytes(json: Seq<u8>, bin: Seq<u8>) -> Seq<u8> {
    let jp = padded_json(json);
    let total = 12 + 8 + jp.len() + 8 + bin.len();
    magic_gltf() + le4(2) + le4(total as u32) + le4(jp.len() as u32) + tag_json() + jp + le4(
        bin.len() as u32,
    ) + tag_bin() + bin
}

proof fn lemma_le4_value(v: u32)
    ensures
        le_value(le4(v)) == v,
{
    reveal_with_fuel(le_value, 5);
    let s = le4(v);
    assert(s.drop_first().drop_first().drop_first().drop_first() =~= Seq::<u8>::empty());
    assert(s.drop_first().drop_first().drop_first() =~= seq![((v / 16777216) % 256) as u8]);
    assert(s.drop_first().drop_first() =~= seq![((v / 65536) % 256) as u8, ((v / 16777216) % 256) as u8]);
    assert(s.drop_first() =~= seq![((v / 256) % 256) as u8, ((v / 65536) % 256) as u8, ((v / 16777216) % 256) as u8]);
}

/// Little-endian value of four bytes.
proof fn lemma_le_value4(s: Seq<u8>)
    requires
        s.len() == 4,
    ensures
        le_value(s) == s[0] as int + 256 * s[1] as int + 65536 * s[2] as int + 16777216 * s[3] as int,
{
    reveal_with_fuel(le_value, 5);
    assert(s.drop_first().drop_first().drop_first().drop_first() =~= Seq::<u8>::empty());
    assert(s.drop_first()[0] == s[1]);
    assert(s.drop_first().drop_first()[0] == s[2]);
    assert(s.drop_first().drop_first().drop_first()[0] == s[3]);
}

/// The unsigned little-endian 32-bit value at `bytes[off..off+4]`.
pub fn read_u32_le(bytes: &[u8], off: usize) -> (v: u32)
    requires
        off + 4 <= bytes@.len(),
    ensures
        v as int == le_value(bytes@.subrange(off as int, off + 4)),
{
    proof {
        lemma_le_value4(bytes@.subrange(off as int, off + 4));
    }
    bytes[off] as u32 + (bytes[off + 1] as u32) * 256 + (bytes[off + 2] as u32) * 65536 + (bytes[off
        + 3] as u32) * 16777216
}

/// Appends the little-endian bytes of `v`.
fn push_u32_le(out: &mut Vec<u8>, v: u32)
    ensures
        final(out)@ == old(out)@ + le4(v),
{
    out.push((v % 256) as u8);
    out.push(((v / 256) % 256) as u8);
    out.push(((v / 65536) % 256) as u8);
    out.push(((v / 16777216) % 256) as u8);
    assert(out@ =~= old(out)@ + le4(v));
}

/// Appends four given bytes.
fn push4(out: &mut Vec<u8>, a: u8, b: u8, c: u8, d: u8)
    ensures
        final(out)@ == old(out)@ + seq![a, b, c, d],
{
    out.push(a);
    out.push(b);
    out.push(c);
    out.push(d);
    assert(out@ =~= old(out)@ + seq![a, b, c, d]);
}

/// Appends all of `src`.
fn push_all(out: &mut Vec<u8>, src: &[u8])
    ensures
        final(out)@ == old(out)@ + src@,
{
    let mut i: usize = 0;
    while i < src.len()
        invariant
            i <= src@.len(),
            out@ == old(out)@ + src@.subrange(0, i as int),
        decreases src@.len() - i,
    {
        out.push(src[i]);
        i = i + 1;
        assert(out@ =~= old(out)@ + src@.subrange(0, i as int));
    }
    assert(src@.subrange(0, src@.len() as int) =~= src@);
}

/// Appends byte `b` until the length is a multiple of four.
fn pad_to_four(out: &mut Vec<u8>, b: u8)
    ensures
        final(out)@ == old(out)@ + fill(pad4(old(out)@.len() as int), b),
{
    let ghost n0 = out@.len() as int;
    while out.len() % 4 != 0
        invariant
            old(out)@.len() == n0,
            n0 <= out@.len() <= n0 + 3,
            out@.len() - n0 <= pad4(n0),
            out@ == old(out)@ + fill(out@.len() - n0, b),
        decreases pad4(n0) - (out@.len() - n0),
    {
        out.push(b);
        assert(out@ =~= old(out)@ + fill(out@.len() - n0, b));
    }
    assert(out@.len() - n0 == pad4(n0));
}

/// Builds the binary glTF container around a JSON document and a binary
/// buffer: the JSON is padded with spaces to a multiple of four and the
/// header's length fields are the byte counts cut to 32 bits.
pub fn assemble_glb(json: &[u8], bin: &[u8]) -> (out: Vec<u8>)
    requires
        json@.len() + bin@.len() + 31 <= usize::MAX,
    ensures
        out@ == glb_bytes(json@, bin@),
{
    let mut json_bytes: Vec<u8> = Vec::new();
    push_all(&mut json_bytes, json);
    pad_to_four(&mut json_bytes, 0x20);
    assert(json_bytes@ == padded_json(json@));

    let total_size = 12 + 8 + json_bytes.len() + 8 + bin.len();
    let mut out: Vec<u8> = Vec::new();
    push4(&mut out, 0x67, 0x6c, 0x54, 0x46);
    push_u32_le(&mut out, 2);
    push_u32_le(&mut out, total_size as u32);
    push_u32_le(&mut out, json_bytes.len() as u32);
    push4(&mut out, 0x4a, 0x53, 0x4f, 0x4e);
    push_all(&mut out, json_bytes.as_slice());
    push_u32_le(&mut out, bin.len() as u32);
    push4(&mut out, 0x42, 0x49, 0x4e, 0x00);
    push_all(&mut out, bin);
    assert(out@ =~= glb_bytes(json@, bin@));
    out
}

/// Why a binary glTF container was rejected.
#[derive(Debug, Clone, Copy, PartialEq, Eq, Structural)]
pub enum GlbError {
    /// Fewer bytes than a header and a chunk header.
    TooShort,
    /// The magic bytes are not "glTF".
    BadMagic,
    /// The container version is not 2.
    UnsupportedVersion(u32),
    /// The first chunk is not the JSON chunk.
    FirstChunkNotJson,
    /// The JSON chunk runs past the end of the bytes.
    JsonPastEnd,
    /// No room for the BIN chunk header after the JSON chunk.
    MissingBinHeader,
    /// The second chunk is not the BIN chunk.
    SecondChunkNotBin,
    /// The BIN chunk runs past the end of the bytes.
    BinPastEnd,
}

/// Where the JSON chunk of a container lies, or why the container is
/// rejected before its JSON can be read.
pub open spec fn spec_json_range(bytes: Seq<u8>) -> Result<(int, int), GlbError> {
    if bytes.len() < 20 {
        Err(GlbError::TooShort)
    } else if bytes.subrange(0, 4) != magic_gltf() {
        Err(GlbError::BadMagic)
    } else if le_value(bytes.subrange(4, 8)) != 2 {
        Err(GlbError::UnsupportedVersion(le_value(bytes.subrange(4, 8)) as u32))
    } else if bytes.subrange(16, 20) != tag_json() {
        Err(GlbError::FirstChunkNotJson)
    } else if 20 + le_value(bytes.subrange(12, 16)) > bytes.len() {
        Err(GlbError::JsonPastEnd)
    } else {
        Ok((20, 20 + le_value(bytes.subrange(12, 16))))
    }
}

/// Where the BIN chunk following a JSON chunk ending at `json_end` lies, or
/// why it cannot be read.
pub open spec fn spec_bin_range(bytes: Seq<u8>, json_end: int) -> Result<(int, int), GlbError> {
    if json_end + 8 > bytes.len() {
        Err(GlbError::MissingBinHeader)
    } else if bytes.subrange(json_end + 4, json_end + 8) != tag_bin() {
        Err(GlbError::SecondChunkNotBin)
    } else if json_end + 8 + le_value(bytes.subrange(json_end, json_end + 4)) > bytes.len() {
        Err(GlbError::BinPastEnd)
    } else {
        Ok((json_end + 8, json_end + 8 + le_value(bytes.subrange(json_end, json_end + 4))))
    }
}

fn bytes_are(bytes: &[u8], off: usize, a: u8, b: u8, c: u8, d: u8) -> (r: bool)
    requires
        off + 4 <= bytes@.len(),
    ensures
        r == (bytes@.subrange(off as int, off + 4) == seq![a, b, c, d]),
{
    let r = bytes[off] == a && bytes[off + 1] == b && bytes[off + 2] == c && bytes[off + 3] == d;
    proof {
        if r {
            assert(bytes@.subrange(off as int, off + 4) =~= seq![a, b, c, d]);
        } else if bytes@.subrange(off as int, off + 4) == seq![a, b, c, d] {
            assert(bytes@.subrange(off as int, off + 4)[0] == a);
            assert(bytes@.subrange(off as int, off + 4)[1] == b);
            assert(bytes@.subrange(off as int, off + 4)[2] == c);
            assert(bytes@.subrange(off as int, off + 4)[3] == d);
        }
    }
    r
}

/// Checks the header and JSON chunk header of a binary glTF container and
/// returns the byte range of the JSON text.
pub fn glb_json_range(bytes: &[u8]) -> (r: Result<(usize, usize), GlbError>)
    ensures
        match r {
            Ok((s, e)) => spec_json_range(bytes@) == Ok::<(int, int), GlbError>((s as int, e as int)),
            Err(err) => spec_json_range(bytes@) == Err::<(int, int), GlbError>(err),
        },
{
    if bytes.len() < 20 {
        return Err(GlbError::TooShort);
    }
    if !bytes_are(bytes, 0, 0x67, 0x6c, 0x54, 0x46) {
        return Err(GlbError::BadMagic);
    }
    let version = read_u32_le(bytes, 4);
    if version != 2 {
        return Err(GlbError::UnsupportedVersion(version));
    }
    let json_len = read_u32_le(bytes, 12) as usize;
    if !bytes_are(bytes, 16, 0x4a, 0x53, 0x4f, 0x4e) {
        return Err(GlbError::FirstChunkNotJson);
    }
    let json_start: usize = 20;
    if json_len > bytes.len() - json_start {
        return Err(GlbError::JsonPastEnd);
    }
    Ok((json_start, json_start + json_len))
}

/// Checks the BIN chunk header that follows a JSON chunk ending at
/// `json_end` and returns the byte range of the binary buffer.
pub fn glb_bin_range(bytes: &[u8], json_end: usize) -> (r: Result<(usize, usize), GlbError>)
    requires
        json_end <= bytes@.len(),
    ensures
        match r {
            Ok((s, e)) => spec_bin_range(bytes@, json_end as int) == Ok::<(int, int), GlbError>(
                (s as int, e as int),
            ),
            Err(err) => spec_bin_range(bytes@, json_end as int) == Err::<(int, int), GlbError>(err),
        },
{
    if bytes.len() - json_end < 8 {
        return Err(GlbError::MissingBinHeader);
    }
    let bin_len = read_u32_le(bytes, json_end) as usize;
    if !bytes_are(bytes, json_end + 4, 0x42, 0x49, 0x4e, 0x00) {
        return Err(GlbError::SecondChunkNotBin);
    }
    let bin_start = json_end + 8;
    if bin_len > bytes.len() - bin_start {
        return Err(GlbError::BinPastEnd);
    }
    Ok((bin_start, bin_start + bin_len))
}

/// Where the fields of a container lie.
proof fn lemma_glb_layout(json: Seq<u8>, bin: Seq<u8>)
    ensures
        ({
            let bytes = glb_bytes(json, bin);
            let jp = padded_json(json);
            let jn = jp.len() as int;
            let bl = bin.len() as int;
            &&& bytes.len() == 28 + jn + bl
            &&& bytes.subrange(0, 4) == magic_gltf()
            &&& bytes.subrange(4, 8) == le4(2)
            &&& bytes.subrange(12, 16) == le4(jn as u32)
            &&& bytes.subrange(16, 20) == tag_json()
            &&& bytes.subrange(20, 20 + jn) == jp
            &&& bytes.subrange(20 + jn, 24 + jn) == le4(bl as u32)
            &&& bytes.subrange(24 + jn, 28 + jn) == tag_bin()
            &&& bytes.subrange(28 + jn, 28 + jn + bl) == bin
        }),
{
    let jp = padded_json(json);
    let jn = jp.len() as int;
    let bl = bin.len() as int;
    let total = 12 + 8 + jp.len() + 8 + bin.len();
    let head = magic_gltf() + le4(2) + le4(total as u32) + le4(jn as u32) + tag_json();
    let tail = le4(bin.len() as u32) + tag_bin() + bin;
    let bytes = glb_bytes(json, bin);
    assert(bytes =~= head + jp + tail);
    assert(bytes.subrange(0, 4) =~= magic_gltf());
    assert(bytes.subrange(4, 8) =~= le4(2));
    assert(bytes.subrange(12, 16) =~= le4(jn as u32));
    assert(bytes.subrange(16, 20) =~= tag_json());
    assert(bytes.subrange(20, 20 + jn) =~= jp);
    assert(bytes.subrange(20 + jn, 24 + jn) =~= le4(bl as u32));
    assert(bytes.subrange(24 + jn, 28 + jn) =~= tag_bin());
    assert(bytes.subrange(28 + jn, 28 + jn + bl) =~= bin);
}

/// Reading back a container gives back what was packed: the JSON range of
/// the container of `json` and `bin` is the padded JSON text, and the BIN
/// range after it is exactly `bin`, whether the container is checked whole
/// or read front to back (for containers whose size fits the 32-bit length
/// fields).
pub proof fn lemma_glb_roundtrip(json: Seq<u8>, bin: Seq<u8>)
    requires
        28 + padded_json(json).len() + bin.len() <= u32::MAX,
    ensures
        ({
            let bytes = glb_bytes(json, bin);
            let jn = padded_json(json).len() as int;
            &&& spec_json_range(bytes) == Ok::<(int, int), GlbError>((20, 20 + jn))
            &&& bytes.subrange(20, 20 + jn) == padded_json(json)
            &&& spec_bin_range(bytes, 20 + jn) == Ok::<(int, int), GlbError>(
                (28 + jn, 28 + jn + bin.len()),
            )
            &&& bytes.subrange(28 + jn, 28 + jn + bin.len()) == bin
            &&& spec_stream_json_range(bytes) == Ok::<(int, int), GlbStreamError>((20, 20 + jn))
            &&& spec_stream_bin_range(bytes, 20 + jn) == Ok::<(int, int), GlbStreamError>(
                (28 + jn, 28 + jn + bin.len()),
            )
        }),
{
    let jn = padded_json(json).len() as int;
    let bl = bin.len() as int;
    lemma_glb_layout(json, bin);
    lemma_le4_value(2);
    lemma_le4_value(jn as u32);
    lemma_le4_value(bl as u32);
}

/// Views of a list of byte vectors.
pub open spec fn views(parts: Seq<Vec<u8>>) -> Seq<Seq<u8>> {
    parts.map_values(|v: Vec<u8>| v@)
}

/// Binary buffer made of `parts` one after another; with `pad_each`, every
/// part is followed by zero bytes up to a multiple of four.
pub open spec fn packed(parts: Seq<Seq<u8>>, pad_each: bool) -> Seq<u8>
    decreases parts.len(),
{
    if parts.len() == 0 {
        Seq::empty()
    } else {
        let body = packed(parts.drop_last(), pad_each) + parts.last();
        if pad_each {
            body + fill(pad4(body.len() as int), 0u8)
        } else {
            body
        }
    }
}

/// The binary buffer of a container: the packed parts, then zero bytes up
/// to a multiple of four.
pub open spec fn bin_buffer(parts: Seq<Seq<u8>>, pad_each: bool) -> Seq<u8> {
    let p = packed(parts, pad_each);
    p + fill(pad4(p.len() as int), 0u8)
}

/// Lays out the parts of a binary buffer one after another (with
/// `pad_each`, each part padded with zeros to a multiple of four), pads the
/// whole buffer with zeros to a multiple of four, and returns it with the
/// (offset, length) of every part.
pub fn pack_bin(parts: &Vec<Vec<u8>>, pad_each: bool) -> (r: (Vec<u8>, Vec<(usize, usize)>))
    requires
        packed(views(parts@), pad_each).len() + 3 <= usize::MAX,
    ensures
        r.0@ == bin_buffer(views(parts@), pad_each),
        r.1@.len() == parts@.len(),
        forall|i: int|
            0 <= i < parts@.len() ==> (#[trigger] r.1@[i]).0 == packed(
                views(parts@).take(i),
                pad_each,
            ).len() && r.1@[i].1 == parts@[i]@.len(),
        forall|i: int|
            0 <= i < parts@.len() ==> r.0@.subrange(
                (#[trigger] r.1@[i]).0 as int,
                r.1@[i].0 + r.1@[i].1,
            ) == parts@[i]@,
{
    let ghost pv = views(parts@);
    let mut bin: Vec<u8> = Vec::new();
    let mut spans: Vec<(usize, usize)> = Vec::new();
    let mut i: usize = 0;
    proof {
        assert(pv.take(0) =~= Seq::<Seq<u8>>::empty());
    }
    while i < parts.len()
        invariant
            pv == views(parts@),
            packed(pv, pad_each).len() + 3 <= usize::MAX,
            i <= parts@.len(),
            bin@ == packed(pv.take(i as int), pad_each),
            spans@.len() == i,
            forall|k: int|
                0 <= k < i ==> (#[trigger] spans@[k]).0 == packed(pv.take(k), pad_each).len()
                    && spans@[k].1 == parts@[k]@.len() && spans@[k].0 + spans@[k].1 <= bin@.len(),
            forall|k: int|
                0 <= k < i ==> bin@.subrange(
                    (#[trigger] spans@[k]).0 as int,
                    spans@[k].0 + spans@[k].1,
                ) == parts@[k]@,
        decreases parts@.len() - i,
    {
        proof {
            lemma_packed_prefix(pv, i as int + 1, pad_each);
            assert(pv.take(i as int + 1).drop_last() =~= pv.take(i as int));
            assert(pv.take(i as int + 1).last() == parts@[i as int]@);
        }
        let ghost bin0 = bin@;
        let off = bin.len();
        push_all(&mut bin, parts[i].as_slice());
        spans.push((off, parts[i].len()));
        if pad_each {
            pad_to_four(&mut bin, 0);
        }
        proof {
            assert(bin@ =~= packed(pv.take(i as int + 1), pad_each));
            assert forall|k: int| 0 <= k < i + 1 implies bin@.subrange(
                (#[trigger] spans@[k]).0 as int,
                spans@[k].0 + spans@[k].1,
            ) == parts@[k]@ by {
                if k < i {
                    assert(bin@.subrange(spans@[k].0 as int, spans@[k].0 + spans@[k].1) =~= bin0.subrange(
                        spans@[k].0 as int,
                        spans@[k].0 + spans@[k].1,
                    ));
                } else {
                    assert(bin@.subrange(spans@[k].0 as int, spans@[k].0 + spans@[k].1) =~= parts@[k]@);
                }
            }
        }
        i = i + 1;
    }
    proof {
        assert(pv.take(parts@.len() as int) =~= pv);
    }
    let ghost bin0 = bin@;
    pad_to_four(&mut bin, 0);
    proof {
        assert forall|k: int| 0 <= k < parts@.len() implies bin@.subrange(
            (#[trigger] spans@[k]).0 as int,
            spans@[k].0 + spans@[k].1,
        ) == parts@[k]@ by {
            assert(bin@.subrange(spans@[k].0 as int, spans@[k].0 + spans@[k].1) =~= bin0.subrange(
                spans@[k].0 as int,
                spans@[k].0 + spans@[k].1,
            ));
        }
    }
    (bin, spans)
}

/// Packing a prefix of the parts gives a prefix of the packing, and the
/// part that follows comes right after it.
proof fn lemma_packed_prefix(parts: Seq<Seq<u8>>, n: int, pad_each: bool)
    requires
        0 <= n <= parts.len(),
    ensures
        packed(parts.take(n), pad_each).len() <= packed(parts, pad_each).len(),
        packed(parts, pad_each).subrange(0, packed(parts.take(n), pad_each).len() as int) == packed(
            parts.take(n),
            pad_each,
        ),
    decreases parts.len(),
{
    if n == parts.len() {
        assert(parts.take(n) =~= parts);
    } else {
        lemma_packed_prefix(parts.drop_last(), n, pad_each);
        assert(parts.drop_last().take(n) =~= parts.take(n));
        let p = packed(parts.drop_last(), pad_each);
        let q = packed(parts.take(n), pad_each);
        assert(packed(parts, pad_each).subrange(0, p.len() as int) =~= p);
        assert(packed(parts, pad_each).subrange(0, q.len() as int) =~= p.subrange(0, q.len() as int));
    }
}

/// Where an accessor's data lies: the byte offset of its buffer view and
/// its element count.
#[derive(Debug, Clone, Copy, PartialEq, Eq, Structural)]
pub struct AccessorInfo {
    pub buffer_view: u32,
    pub count: usize,
}

/// A buffer view's place in the binary buffer.
#[derive(Debug, Clone, Copy, PartialEq, Eq, Structural)]
pub struct ViewInfo {
    pub byte_offset: usize,
    pub byte_length: usize,
}

/// Why an accessor could not be followed to its data.
#[derive(Debug, Clone, Copy, PartialEq, Eq, Structural)]
pub enum AccessorError {
    /// The accessor index is past the accessor list.
    AccessorOutOfRange,
    /// The accessor's buffer view index is past the view list.
    BufferViewOutOfRange,
}

/// Follows accessor `idx` to its buffer view: the byte offset of the data
/// and the element count.
pub fn resolve_accessor(accessors: &Vec<AccessorInfo>, views: &Vec<ViewInfo>, idx: u32) -> (r: Result<(usize, usize), AccessorError>)
    ensures
        idx >= accessors@.len() <==> r == Err::<(usize, usize), AccessorError>(
            AccessorError::AccessorOutOfRange,
        ),
        idx < accessors@.len() && accessors@[idx as int].buffer_view >= views@.len() <==> r == Err::<
            (usize, usize),
            AccessorError,
        >(AccessorError::BufferViewOutOfRange),
        r matches Ok(v) ==> idx < accessors@.len() && accessors@[idx as int].buffer_view
            < views@.len() && v.0 == views@[accessors@[idx as int].buffer_view as int].byte_offset
            && v.1 == accessors@[idx as int].count,
{
    if (idx as usize) >= accessors.len() {
        return Err(AccessorError::AccessorOutOfRange);
    }
    let accessor = accessors[idx as usize];
    if (accessor.buffer_view as usize) >= views.len() {
        return Err(AccessorError::BufferViewOutOfRange);
    }
    let view = views[accessor.buffer_view as usize];
    Ok((view.byte_offset, accessor.count))
}

/// Reads `n` consecutive little-endian 32-bit words starting at byte
/// `offset`.
pub fn read_words(bin: &[u8], offset: usize, n: usize) -> (words: Vec<u32>)
    requires
        offset + 4 * n <= bin@.len(),
    ensures
        words@.len() == n,
        forall|k: int|
            0 <= k < n ==> #[trigger] words@[k] as int == le_value(
                bin@.subrange(offset + 4 * k, offset + 4 * k + 4),
            ),
{
    let mut words: Vec<u32> = Vec::with_capacity(n);
    let blen = bin.len();
    let mut k: usize = 0;
    while k < n
        invariant
            blen == bin@.len(),
            offset + 4 * n <= bin@.len(),
            k <= n,
            words@.len() == k,
            forall|j: int|
                0 <= j < k ==> #[trigger] words@[j] as int == le_value(
                    bin@.subrange(offset + 4 * j, offset + 4 * j + 4),
                ),
        decreases n - k,
    {
        words.push(read_u32_le(bin, offset + 4 * k));
        k = k + 1;
    }
    words
}

/// Why a streamed binary glTF could not be read chunk by chunk.
#[derive(Debug, Clone, Copy, PartialEq, Eq, Structural)]
pub enum GlbStreamError {
    /// The data ended before a header or chunk was complete.
    UnexpectedEof,
    /// The magic bytes are not "glTF".
    BadMagic,
    /// The first chunk is not the JSON chunk.
    MissingJsonChunk,
    /// The second chunk is not the BIN chunk.
    MissingBinChunk,
}

/// Where the JSON chunk lies when the container is read front to back:
/// header, magic, chunk header, chunk type, chunk data.
pub open spec fn spec_stream_json_range(bytes: Seq<u8>) -> Result<(int, int), GlbStreamError> {
    if bytes.len() < 12 {
        Err(GlbStreamError::UnexpectedEof)
    } else if bytes.subrange(0, 4) != magic_gltf() {
        Err(GlbStreamError::BadMagic)
    } else if bytes.len() < 20 {
        Err(GlbStreamError::UnexpectedEof)
    } else if bytes.subrange(16, 20) != tag_json() {
        Err(GlbStreamError::MissingJsonChunk)
    } else if 20 + le_value(bytes.subrange(12, 16)) > bytes.len() {
        Err(GlbStreamError::UnexpectedEof)
    } else {
        Ok((20, 20 + le_value(bytes.subrange(12, 16))))
    }
}

/// Where the BIN chunk after a JSON chunk ending at `json_end` lies when
/// the container is read front to back.
pub open spec fn spec_stream_bin_range(bytes: Seq<u8>, json_end: int) -> Result<(int, int), GlbStreamError> {
    if json_end + 8 > bytes.len() {
        Err(GlbStreamError::UnexpectedEof)
    } else if bytes.subrange(json_end + 4, json_end + 8) != tag_bin() {
        Err(GlbStreamError::MissingBinChunk)
    } else if json_end + 8 + le_value(bytes.subrange(json_end, json_end + 4)) > bytes.len() {
        Err(GlbStreamError::UnexpectedEof)
    } else {
        Ok((json_end + 8, json_end + 8 + le_value(bytes.subrange(json_end, json_end + 4))))
    }
}

/// Reads the header and JSON chunk header front to back and returns the
/// byte range of the JSON text.
pub fn stream_json_range(bytes: &[u8]) -> (r: Result<(usize, usize), GlbStreamError>)
    ensures
        match r {
            Ok((s, e)) => spec_stream_json_range(bytes@) == Ok::<(int, int), GlbStreamError>(
                (s as int, e as int),
            ),
            Err(err) => spec_stream_json_range(bytes@) == Err::<(int, int), GlbStreamError>(err),
        },
{
    if bytes.len() < 12 {
        return Err(GlbStreamError::UnexpectedEof);
    }
    if !bytes_are(bytes, 0, 0x67, 0x6c, 0x54, 0x46) {
        return Err(GlbStreamError::BadMagic);
    }
    if bytes.len() < 20 {
        return Err(GlbStreamError::UnexpectedEof);
    }
    let json_len = read_u32_le(bytes, 12) as usize;
    if !bytes_are(bytes, 16, 0x4a, 0x53, 0x4f, 0x4e) {
        return Err(GlbStreamError::MissingJsonChunk);
    }
    if json_len > bytes.len() - 20 {
        return Err(GlbStreamError::UnexpectedEof);
    }
    Ok((20, 20 + json_len))
}

/// Reads the BIN chunk header after a JSON chunk ending at `json_end` and
/// returns the byte range of the binary buffer.
pub fn stream_bin_range(bytes: &[u8], json_end: usize) -> (r: Result<(usize, usize), GlbStreamError>)
    requires
        json_end <= bytes@.len(),
    ensures
        match r {
            Ok((s, e)) => spec_stream_bin_range(bytes@, json_end as int) == Ok::<
                (int, int),
                GlbStreamError,
            >((s as int, e as int)),
            Err(err) => spec_stream_bin_range(bytes@, json_end as int) == Err::<
                (int, int),
                GlbStreamError,
            >(err),
        },
{
    if bytes.len() - json_end < 8 {
        return Err(GlbStreamError::UnexpectedEof);
    }
    let bin_len = read_u32_le(bytes, json_end) as usize;
    if !bytes_are(bytes, json_end + 4, 0x42, 0x49, 0x4e, 0x00) {
        return Err(GlbStreamError::MissingBinChunk);
    }
    let bin_start = json_end + 8;
    if bin_len > bytes.len() - bin_start {
        return Err(GlbStreamError::UnexpectedEof);
    }
    Ok((bin_start, bin_start + bin_len))
}

/// Big-endian bytes of `v`.
pub open spec fn be4(v: u32) -> Seq<u8> {
    seq![
        ((v / 16777216) % 256) as u8,
        ((v / 65536) % 256) as u8,
        ((v / 256) % 256) as u8,
        (v % 256) as u8,
    ]
}

/// `b` is the in-memory representation of `v` on a little-endian or a
/// big-endian machine.
pub open spec fn native_word(b: Seq<u8>, v: u32) -> bool {
    b == le4(v) || b == be4(v)
}

/// `bytemuck::bytes_of` on a 32-bit word: the four bytes of its in-memory
/// representation, which follow the machine's byte order (little- or
/// big-endian); which of the two is not stated.
#[verifier::external_body]
fn word_bytes(w: &u32) -> (b: Vec<u8>)
    ensures
        native_word(b@, *w),
{
    bytemuck::bytes_of(w).to_vec()
}

/// The in-memory bytes of the index list, four per index, each group in
/// the machine's byte order.
pub fn index_bytes(indices: &Vec<u32>) -> (bytes: Vec<u8>)
    requires
        4 * indices@.len() <= usize::MAX,
    ensures
        bytes@.len() == 4 * indices@.len(),
        forall|k: int|
            0 <= k < indices@.len() ==> native_word(
                #[trigger] bytes@.subrange(4 * k, 4 * k + 4),
                indices@[k],
            ),
{
    let mut bytes: Vec<u8> = Vec::new();
    let mut i: usize = 0;
    while i < indices.len()
        invariant
            4 * indices@.len() <= usize::MAX,
            i <= indices@.len(),
            bytes@.len() == 4 * i,
            forall|k: int|
                0 <= k < i ==> native_word(#[trigger] bytes@.subrange(4 * k, 4 * k + 4), indices@[k]),
        decreases indices@.len() - i,
    {
        let ghost b0 = bytes@;
        let b = word_bytes(&indices[i]);
        proof {
            assert(b@.len() == 4);
        }
        push_all(&mut bytes, b.as_slice());
        proof {
            assert forall|k: int| 0 <= k < i + 1 implies native_word(
                #[trigger] bytes@.subrange(4 * k, 4 * k + 4),
                indices@[k],
            ) by {
                if k < i {
                    assert(bytes@.subrange(4 * k, 4 * k + 4) =~= b0.subrange(4 * k, 4 * k + 4));
                } else {
                    assert(bytes@.subrange(4 * k, 4 * k + 4) =~= b@);
                }
            }
        }
        i = i + 1;
    }
    bytes
}

/// GL target of vertex attribute buffer views (ARRAY_BUFFER).
pub const TARGET_ARRAY_BUFFER: u32 = 34962;

/// GL target of index buffer views (ELEMENT_ARRAY_BUFFER).
pub const TARGET_ELEMENT_ARRAY_BUFFER: u32 = 34963;

/// Component type of 32-bit floats.
pub const COMPONENT_FLOAT: u32 = 5126;

/// Component type of 32-bit unsigned integers.
pub const COMPONENT_UNSIGNED_INT: u32 = 5125;

/// Shape of one accessor element.
#[derive(Debug, Clone, Copy, PartialEq, Eq, Structural)]
pub enum AccessorKind {
    Scalar,
    Vec3,
    Vec4,
}

/// A buffer view of the single binary buffer.
#[derive(Debug, Clone, Copy, PartialEq, Eq, Structural)]
pub struct BufferViewDesc {
    pub byte_offset: usize,
    pub byte_length: usize,
    pub target: u32,
}

/// An accessor over one buffer view.
#[derive(Debug, Clone, Copy, PartialEq, Eq, Structural)]
pub struct AccessorDesc {
    pub buffer_view: u32,
    pub component_type: u32,
    pub count: usize,
    pub kind: AccessorKind,
}

/// The layout part of a mesh's glTF document: one buffer, four buffer views
/// (positions, normals, colors, indices) and one accessor on each, in that
/// order; the single primitive uses accessors 0, 1, 2 as POSITION, NORMAL,
/// COLOR_0 and accessor 3 as indices.
#[derive(Debug, Clone)]
pub struct MeshLayout {
    pub buffer_length: usize,
    pub views: Vec<BufferViewDesc>,
    pub accessors: Vec<AccessorDesc>,
}

/// The document layout for a mesh whose position, normal, color and index
/// data occupy `spans` of a binary buffer of `buffer_length` bytes; the
/// counts are the element counts of the four accessors and `color_kind` the
/// shape of a color.
pub fn mesh_layout(
    buffer_length: usize,
    spans: &Vec<(usize, usize)>,
    counts: (usize, usize, usize, usize),
    color_kind: AccessorKind,
) -> (l: MeshLayout)
    requires
        spans@.len() == 4,
    ensures
        l.buffer_length == buffer_length,
        l.views@.len() == 4,
        l.accessors@.len() == 4,
        forall|i: int|
            0 <= i < 4 ==> (#[trigger] l.views@[i]).byte_offset == spans@[i].0 && l.views@[i].byte_length
                == spans@[i].1 && l.views@[i].target == (if i == 3 {
                TARGET_ELEMENT_ARRAY_BUFFER
            } else {
                TARGET_ARRAY_BUFFER
            }),
        forall|i: int|
            0 <= i < 4 ==> (#[trigger] l.accessors@[i]).buffer_view == i && l.accessors@[i].component_type
                == (if i == 3 {
                COMPONENT_UNSIGNED_INT
            } else {
                COMPONENT_FLOAT
            }),
        l.accessors@[0].count == counts.0 && l.accessors@[0].kind == AccessorKind::Vec3,
        l.accessors@[1].count == counts.1 && l.accessors@[1].kind == AccessorKind::Vec3,
        l.accessors@[2].count == counts.2 && l.accessors@[2].kind == color_kind,
        l.accessors@[3].count == counts.3 && l.accessors@[3].kind == AccessorKind::Scalar,
{
    let mut views: Vec<BufferViewDesc> = Vec::new();
    let mut i: usize = 0;
    while i < 4
        invariant
            spans@.len() == 4,
            i <= 4,
            views@.len() == i,
            forall|k: int|
                0 <= k < i ==> (#[trigger] views@[k]).byte_offset == spans@[k].0 && views@[k].byte_length
                    == spans@[k].1 && views@[k].target == (if k == 3 {
                    TARGET_ELEMENT_ARRAY_BUFFER
                } else {
                    TARGET_ARRAY_BUFFER
                }),
        decreases 4 - i,
    {
        let target = if i == 3 { TARGET_ELEMENT_ARRAY_BUFFER } else { TARGET_ARRAY_BUFFER };
        views.push(BufferViewDesc { byte_offset: spans[i].0, byte_length: spans[i].1, target });
        i = i + 1;
    }
    let accessors = vec![
        AccessorDesc { buffer_view: 0, component_type: COMPONENT_FLOAT, count: counts.0, kind: AccessorKind::Vec3 },
        AccessorDesc { buffer_view: 1, component_type: COMPONENT_FLOAT, count: counts.1, kind: AccessorKind::Vec3 },
        AccessorDesc { buffer_view: 2, component_type: COMPONENT_FLOAT, count: counts.2, kind: color_kind },
        AccessorDesc { buffer_view: 3, component_type: COMPONENT_UNSIGNED_INT, count: counts.3, kind: AccessorKind::Scalar },
    ];
    MeshLayout { buffer_length, views, accessors }
}

} // verus!
