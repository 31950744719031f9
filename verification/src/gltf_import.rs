use vstd::prelude::*;

use crate::gltf::{
    read_words, spec_stream_bin_range, spec_stream_json_range, stream_bin_range, stream_json_range,
    GlbStreamError,
};
use crate::persistence::le_value;

verus! {

#[verifier::external_type_specification]
#[verifier::external_body]
pub struct ExJsonError(serde_json::Error);

/// The fields of a glTF JSON document that the mesh reader looks at, as
/// plain values, or `None` when the bytes are not JSON: the POSITION,
/// NORMAL and COLOR_0 accessor indices and the indices accessor of the
/// first primitive of the first mesh; the `bufferView` of every accessor;
/// the (`byteOffset`, `byteLength`) of every buffer view. A field that is
/// missing or not an unsigned integer is `None`; a list that is missing or
/// not an array is empty.
pub uninterp spec fn spec_json_tables(json: Seq<u8>) -> Option<
    (
        (Option<u64>, Option<u64>, Option<u64>, Option<u64>),
        Seq<Option<u64>>,
        Seq<(Option<u64>, Option<u64>)>,
    ),
>;

/// `serde_json::from_slice` into a `serde_json::Value`, read at the fields
/// named in `spec_json_tables`. Parsing depends on the bytes alone; it fails
/// exactly when they are not a JSON document.
#[verifier::external_body]
fn json_tables(json: &[u8]) -> (r: Result<
    ((Option<u64>, Option<u64>, Option<u64>, Option<u64>), Vec<Option<u64>>, Vec<(Option<u64>, Option<u64>)>),
    serde_json::Error,
>)
    ensures
        r is Ok <==> spec_json_tables(json@) is Some,
        r matches Ok(t) ==> spec_json_tables(json@) == Some((t.0, t.1@, t.2@)),
{
    let v: serde_json::Value = serde_json::from_slice(json)?;
    let p = &v["meshes"][0]["primitives"][0];
    let a = &p["attributes"];
    let attrs = (a["POSITION"].as_u64(), a["NORMAL"].as_u64(), a["COLOR_0"].as_u64(), p["indices"].as_u64());
    let accessors = v["accessors"].as_array().map_or(Vec::new(), |l| l.iter().map(|x| x["bufferView"].as_u64()).collect());
    let views = v["bufferViews"].as_array().map_or(Vec::new(), |l| {
        l.iter().map(|x| (x["byteOffset"].as_u64(), x["byteLength"].as_u64())).collect()
    });
    Ok((attrs, accessors, views))
}

/// Why the JSON tables do not lead to the mesh data.
#[derive(Debug, Clone, Copy, PartialEq, Eq, Structural)]
pub enum MeshWordsError {
    /// An accessor index, an accessor's buffer view or a view's byte length
    /// is missing.
    MissingField,
    /// A buffer view runs past the end of the binary chunk.
    SliceOutOfRange,
}

/// The byte range of the binary chunk that accessor `a` reads: its buffer
/// view's offset (0 when absent) and length. An accessor or view that is not
/// in the lists reads as having no fields.
pub open spec fn spec_view_range(
    accessors: Seq<Option<u64>>,
    views: Seq<(Option<u64>, Option<u64>)>,
    a: u64,
    bin_len: int,
) -> Result<(int, int), MeshWordsError> {
    if a >= accessors.len() {
        Err(MeshWordsError::MissingField)
    } else {
        match accessors[a as int] {
            None => Err(MeshWordsError::MissingField),
            Some(v) => {
                let off: int = if v < views.len() {
                    match views[v as int].0 {
                        Some(o) => o as int,
                        None => 0,
                    }
                } else {
                    0
                };
                let len: Option<u64> = if v < views.len() {
                    views[v as int].1
                } else {
                    None
                };
                match len {
                    None => Err(MeshWordsError::MissingField),
                    Some(l) => if off + l > bin_len {
                        Err(MeshWordsError::SliceOutOfRange)
                    } else {
                        Ok((off, off + l))
                    },
                }
            },
        }
    }
}

/// The byte ranges read for positions, normals, colors and indices, in that
/// order, or the first reason one of them cannot be read.
pub open spec fn spec_mesh_ranges(
    attrs: (Option<u64>, Option<u64>, Option<u64>, Option<u64>),
    accessors: Seq<Option<u64>>,
    views: Seq<(Option<u64>, Option<u64>)>,
    bin_len: int,
) -> Result<((int, int), (int, int), (int, int), (int, int)), MeshWordsError> {
    match attrs {
        (Some(p), Some(n), Some(c), Some(i)) => match spec_view_range(accessors, views, p, bin_len) {
            Err(e) => Err(e),
            Ok(rp) => match spec_view_range(accessors, views, n, bin_len) {
                Err(e) => Err(e),
                Ok(rn) => match spec_view_range(accessors, views, c, bin_len) {
                    Err(e) => Err(e),
                    Ok(rc) => match spec_view_range(accessors, views, i, bin_len) {
                        Err(e) => Err(e),
                        Ok(ri) => Ok((rp, rn, rc, ri)),
                    },
                },
            },
        },
        _ => Err(MeshWordsError::MissingField),
    }
}

/// `w` holds the `n` little-endian 32-bit words of `bin` starting at byte `s`.
pub open spec fn words_from(w: Seq<u32>, bin: Seq<u8>, s: int, n: int) -> bool {
    &&& w.len() == n
    &&& forall|k: int| 0 <= k < n ==> #[trigger] w[k] as int == le_value(bin.subrange(s + 4 * k, s + 4 * k + 4))
}

/// The raw 32-bit words of a mesh read from a binary chunk: three per
/// position, normal and color, one per index.
#[derive(Debug, Clone)]
pub struct MeshWords {
    pub positions: Vec<u32>,
    pub normals: Vec<u32>,
    pub colors: Vec<u32>,
    pub indices: Vec<u32>,
}

/// The words read from the byte ranges `rs` of `bin`: every whole 12-byte
/// triple of the position, normal and color ranges, and every whole 4-byte
/// word of the index range.
pub open spec fn words_read(
    w: MeshWords,
    bin: Seq<u8>,
    rs: ((int, int), (int, int), (int, int), (int, int)),
) -> bool {
    &&& words_from(w.positions@, bin, rs.0.0, (rs.0.1 - rs.0.0) / 12 * 3)
    &&& words_from(w.normals@, bin, rs.1.0, (rs.1.1 - rs.1.0) / 12 * 3)
    &&& words_from(w.colors@, bin, rs.2.0, (rs.2.1 - rs.2.0) / 12 * 3)
    &&& words_from(w.indices@, bin, rs.3.0, (rs.3.1 - rs.3.0) / 4)
}

/// Follows accessor `a` to the byte range of its buffer view.
fn view_range(
    accessors: &Vec<Option<u64>>,
    views: &Vec<(Option<u64>, Option<u64>)>,
    a: u64,
    bin_len: usize,
) -> (r: Result<(usize, usize), MeshWordsError>)
    ensures
        match spec_view_range(accessors@, views@, a, bin_len as int) {
            Ok((s, e)) => r == Ok::<(usize, usize), MeshWordsError>((s as usize, e as usize)) && s <= e
                <= bin_len,
            Err(err) => r == Err::<(usize, usize), MeshWordsError>(err),
        },
{
    if a >= accessors.len() as u64 {
        return Err(MeshWordsError::MissingField);
    }
    let v = match accessors[a as usize] {
        Some(v) => v,
        None => {
            return Err(MeshWordsError::MissingField);
        },
    };
    let (off, len) = if v < views.len() as u64 {
        let view = views[v as usize];
        (
            match view.0 {
                Some(o) => o,
                None => 0,
            },
            view.1,
        )
    } else {
        (0, None)
    };
    match len {
        None => Err(MeshWordsError::MissingField),
        Some(l) => {
            if off > bin_len as u64 || l > bin_len as u64 - off {
                Err(MeshWordsError::SliceOutOfRange)
            } else {
                Ok((off as usize, (off + l) as usize))
            }
        },
    }
}

/// Reads the words of every whole `group`-byte element of `bin[s..e]`.
fn read_groups(bin: &[u8], s: usize, e: usize, group: usize, per: usize) -> (w: Vec<u32>)
    requires
        s <= e <= bin@.len(),
        group == 12 && per == 3 || group == 4 && per == 1,
    ensures
        words_from(w@, bin@, s as int, (e - s) as int / group as int * per as int),
{
    let n = (e - s) / group * per;
    proof {
        let d: int = (e - s) as int;
        let g: int = group as int;
        let q: int = d / g;
        vstd::arithmetic::div_mod::lemma_fundamental_div_mod(d, g);
        vstd::arithmetic::div_mod::lemma_mod_bound(d, g);
        assert(4 * (q * per) <= d) by (nonlinear_arith)
            requires
                d == g * q + d % g,
                d % g >= 0,
                g == 12 && per == 3 || g == 4 && per == 1,
        ;
    }
    read_words(bin, s, n)
}

/// The mesh words that the JSON tables lead to in the binary chunk `bin`:
/// the POSITION, NORMAL, COLOR_0 and indices accessors are followed to their
/// buffer views in that order, and the words of each view are read.
pub fn mesh_words(
    attrs: (Option<u64>, Option<u64>, Option<u64>, Option<u64>),
    accessors: &Vec<Option<u64>>,
    views: &Vec<(Option<u64>, Option<u64>)>,
    bin: &[u8],
) -> (r: Result<MeshWords, MeshWordsError>)
    ensures
        match spec_mesh_ranges(attrs, accessors@, views@, bin@.len() as int) {
            Err(e) => r == Err::<MeshWords, MeshWordsError>(e),
            Ok(rs) => r matches Ok(w) && words_read(w, bin@, rs),
        },
{
    let (p, n, c, i) = match attrs {
        (Some(p), Some(n), Some(c), Some(i)) => (p, n, c, i),
        _ => {
            return Err(MeshWordsError::MissingField);
        },
    };
    let rp = match view_range(accessors, views, p, bin.len()) {
        Ok(r) => r,
        Err(e) => {
            return Err(e);
        },
    };
    let rn = match view_range(accessors, views, n, bin.len()) {
        Ok(r) => r,
        Err(e) => {
            return Err(e);
        },
    };
    let rc = match view_range(accessors, views, c, bin.len()) {
        Ok(r) => r,
        Err(e) => {
            return Err(e);
        },
    };
    let ri = match view_range(accessors, views, i, bin.len()) {
        Ok(r) => r,
        Err(e) => {
            return Err(e);
        },
    };
    Ok(
        MeshWords {
            positions: read_groups(bin, rp.0, rp.1, 12, 3),
            normals: read_groups(bin, rn.0, rn.1, 12, 3),
            colors: read_groups(bin, rc.0, rc.1, 12, 3),
            indices: read_groups(bin, ri.0, ri.1, 4, 1),
        },
    )
}

/// Why a streamed binary glTF file could not be read into mesh words.
#[derive(Debug)]
pub enum ImportError {
    /// The container framing is broken (see `GlbStreamError`).
    Stream(GlbStreamError),
    /// The JSON chunk is not a JSON document.
    Json(serde_json::Error),
    /// The document does not lead to the mesh data.
    Mesh(MeshWordsError),
}

/// Reads a binary glTF file front to back: the header and JSON chunk, the
/// JSON tables, the BIN chunk, then the mesh words the tables lead to.
pub fn import_gltf_words(bytes: &[u8]) -> (r: Result<MeshWords, ImportError>)
    ensures
        match spec_stream_json_range(bytes@) {
            Err(e) => r matches Err(ImportError::Stream(e2)) && e2 == e,
            Ok((js, je)) => match spec_json_tables(bytes@.subrange(js, je)) {
                None => r matches Err(ImportError::Json(_)),
                Some(t) => match spec_stream_bin_range(bytes@, je) {
                    Err(e) => r matches Err(ImportError::Stream(e2)) && e2 == e,
                    Ok((bs, be)) => match spec_mesh_ranges(t.0, t.1, t.2, be - bs) {
                        Err(e) => r matches Err(ImportError::Mesh(e2)) && e2 == e,
                        Ok(rs) => r matches Ok(w) && words_read(w, bytes@.subrange(bs, be), rs),
                    },
                },
            },
        },
{
    let (js, je) = match stream_json_range(bytes) {
        Ok(r) => r,
        Err(e) => {
            return Err(ImportError::Stream(e));
        },
    };
    proof {
        lemma_le_value_nonneg(bytes@.subrange(12, 16));
    }
    let json = slice_of(bytes, js, je);
    let (attrs, accessors, views) = match json_tables(json) {
        Ok(t) => t,
        Err(e) => {
            return Err(ImportError::Json(e));
        },
    };
    let (bs, be) = match stream_bin_range(bytes, je) {
        Ok(r) => r,
        Err(e) => {
            return Err(ImportError::Stream(e));
        },
    };
    proof {
        lemma_le_value_nonneg(bytes@.subrange(je as int, je + 4));
    }
    let bin = slice_of(bytes, bs, be);
    match mesh_words(attrs, &accessors, &views, bin) {
        Ok(w) => Ok(w),
        Err(e) => Err(ImportError::Mesh(e)),
    }
}

/// A little-endian value is never negative.
proof fn lemma_le_value_nonneg(s: Seq<u8>)
    ensures
        le_value(s) >= 0,
    decreases s.len(),
{
    if s.len() > 0 {
        lemma_le_value_nonneg(s.drop_first());
    }
}

/// The bytes `bytes[s..e]`.
fn slice_of(bytes: &[u8], s: usize, e: usize) -> (out: &[u8])
    requires
        s <= e <= bytes@.len(),
    ensures
        out@ == bytes@.subrange(s as int, e as int),
{
    &bytes[s..e]
}

} // verus!
