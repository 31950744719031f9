use vstd::prelude::*;

use crate::chunk::{Chunk, CHUNK_VOLUME};
use crate::voxel::Voxel;

verus! {

/// Version number written at the start of every saved chunk.
pub const CURRENT_VERSION: u32 = 1;

#[verifier::external_type_specification]
#[verifier::external_body]
pub struct ExBincodeErrorKind(bincode::ErrorKind);

#[verifier::external_type_specification]
#[verifier::external_body]
pub struct ExIoError(std::io::Error);

/// Why a saved chunk could not be loaded.
#[derive(Debug)]
pub enum LoadError {
    /// The file could not be read.
    Io(std::io::Error),
    /// The bytes are not a well-formed save record.
    Decode(Box<bincode::ErrorKind>),
    /// The record was written by a format version this build cannot read.
    UnsupportedVersion(u32),
    /// The record does not hold exactly one chunk's worth of voxels.
    WrongVoxelCount,
}

/// Unsigned little-endian value of a byte sequence.
pub open spec fn le_value(s: Seq<u8>) -> int
    decreases s.len(),
{
    if s.len() == 0 {
        0
    } else {
        s[0] as int + 256 * le_value(s.drop_first())
    }
}

/// Version field of a save record.
pub open spec fn record_version(bytes: Seq<u8>) -> int {
    le_value(bytes.subrange(0, 4))
}

/// Voxel-count field of a save record.
pub open spec fn record_count(bytes: Seq<u8>) -> int {
    le_value(bytes.subrange(4, 12))
}

/// The i-th voxel id of a save record.
pub open spec fn record_id(bytes: Seq<u8>, i: int) -> int {
    le_value(bytes.subrange(12 + 2 * i, 14 + 2 * i))
}

/// `bytes` is exactly the save record of `version` and `ids`: a 4-byte
/// version, an 8-byte count and two bytes per id, all little-endian.
pub open spec fn is_record(bytes: Seq<u8>, version: int, ids: Seq<u16>) -> bool {
    &&& bytes.len() == 12 + 2 * ids.len()
    &&& record_version(bytes) == version
    &&& record_count(bytes) == ids.len()
    &&& forall|i: int| 0 <= i < ids.len() ==> record_id(bytes, i) == #[trigger] ids[i]
}

/// `bytes` starts with a complete save record (trailing bytes are allowed).
pub open spec fn record_parses(bytes: Seq<u8>) -> bool {
    &&& bytes.len() >= 12
    &&& record_count(bytes) <= usize::MAX
    &&& 12 + 2 * record_count(bytes) <= bytes.len()
}

/// `bincode::serialize` of the pair (version, ids), in bincode's default
/// configuration (fixed-width little-endian integers, sequence lengths as
/// u64). With no size limit, the in-memory encoding of these values does not
/// fail; the bytes are the version, the id count and the ids.
#[verifier::external_body]
fn bincode_serialize_record(version: u32, ids: &Vec<u16>) -> (r: Result<Vec<u8>, Box<bincode::ErrorKind>>)
    ensures
        r is Ok,
        r matches Ok(bytes) ==> is_record(bytes@, version as int, ids@),
{
    bincode::serialize(&(version, ids))
}

/// `bincode::deserialize` of a (u32, Vec<u16>) pair in bincode's default
/// configuration: it succeeds exactly when the bytes hold the version, a u64
/// count that fits a usize and that many two-byte ids (extra trailing bytes
/// are accepted), and then returns those values.
#[verifier::external_body]
fn bincode_deserialize_record(bytes: &[u8]) -> (r: Result<(u32, Vec<u16>), Box<bincode::ErrorKind>>)
    ensures
        r is Ok <==> record_parses(bytes@),
        r matches Ok(v) ==> v.1@.len() == record_count(bytes@),
        r matches Ok(v) ==> is_record(bytes@.subrange(0, (12 + 2 * v.1@.len()) as int), v.0 as int, v.1@),
{
    bincode::deserialize::<(u32, Vec<u16>)>(bytes)
}

/// The save record of a chunk: the current version and the chunk's voxel
/// ids in storage order.
pub fn encode_chunk(chunk: &Chunk) -> (bytes: Vec<u8>)
    requires
        chunk.wf(),
    ensures
        bytes@.len() == 12 + 2 * CHUNK_VOLUME,
        record_version(bytes@) == CURRENT_VERSION,
        record_count(bytes@) == CHUNK_VOLUME,
        forall|i: int| 0 <= i < CHUNK_VOLUME ==> record_id(bytes@, i) == (#[trigger] chunk@[i]).0,
{
    let ids = chunk.to_ids();
    match bincode_serialize_record(CURRENT_VERSION, &ids) {
        Ok(bytes) => {
            assert forall|i: int| 0 <= i < CHUNK_VOLUME implies record_id(bytes@, i) == (#[trigger] chunk@[i]).0 by {
                assert(ids@[i] == chunk@[i].0);
            }
            bytes
        },
        Err(_) => {
            proof {
                assert(false);
            }
            Vec::new()
        },
    }
}

/// Rebuilds a chunk from a save record: fails with `Decode` when the bytes
/// are not a record, `UnsupportedVersion` when the version is not current,
/// and `WrongVoxelCount` when the record does not hold CHUNK_VOLUME ids.
pub fn decode_chunk(bytes: &[u8]) -> (r: Result<Chunk, LoadError>)
    ensures
        r matches Err(LoadError::Decode(_)) <==> !record_parses(bytes@),
        r matches Err(LoadError::UnsupportedVersion(v)) <==> record_parses(bytes@)
            && record_version(bytes@) != CURRENT_VERSION,
        r matches Err(LoadError::UnsupportedVersion(v)) ==> v == record_version(bytes@),
        r matches Err(LoadError::WrongVoxelCount) <==> record_parses(bytes@)
            && record_version(bytes@) == CURRENT_VERSION && record_count(bytes@) != CHUNK_VOLUME,
        !(r matches Err(LoadError::Io(_))),
        r matches Ok(c) ==> c.wf() && forall|i: int|
            0 <= i < CHUNK_VOLUME ==> (#[trigger] c@[i]).0 == record_id(bytes@, i),
{
    let (version, ids) = match bincode_deserialize_record(bytes) {
        Ok(v) => v,
        Err(e) => {
            return Err(LoadError::Decode(e));
        },
    };
    let ghost head = bytes@.subrange(0, (12 + 2 * ids@.len()) as int);
    proof {
        assert(head.subrange(0, 4) =~= bytes@.subrange(0, 4));
        assert(head.subrange(4, 12) =~= bytes@.subrange(4, 12));
        assert forall|i: int| 0 <= i < ids@.len() implies record_id(bytes@, i) == #[trigger] ids@[i] by {
            assert(head.subrange(12 + 2 * i, 14 + 2 * i) =~= bytes@.subrange(12 + 2 * i, 14 + 2 * i));
        }
    }
    if version != CURRENT_VERSION {
        return Err(LoadError::UnsupportedVersion(version));
    }
    match Chunk::from_ids(ids.as_slice()) {
        Some(c) => Ok(c),
        None => Err(LoadError::WrongVoxelCount),
    }
}

/// Loading a saved chunk gives back the same chunk: the save record of a
/// chunk parses, carries the current version and a full voxel count, and
/// every id read back is the id that was written.
pub proof fn lemma_save_load_roundtrip(chunk: Chunk, bytes: Seq<u8>)
    requires
        chunk.wf(),
        bytes.len() == 12 + 2 * CHUNK_VOLUME,
        record_version(bytes) == CURRENT_VERSION,
        record_count(bytes) == CHUNK_VOLUME,
        forall|i: int| 0 <= i < CHUNK_VOLUME ==> record_id(bytes, i) == (#[trigger] chunk@[i]).0,
    ensures
        record_parses(bytes),
        forall|c: Chunk|
            c.wf() && (forall|i: int| 0 <= i < CHUNK_VOLUME ==> (#[trigger] c@[i]).0 == record_id(bytes, i))
                ==> c@ == chunk@,
{
    assert forall|c: Chunk|
        c.wf() && (forall|i: int| 0 <= i < CHUNK_VOLUME ==> (#[trigger] c@[i]).0 == record_id(bytes, i))
        implies c@ == chunk@ by {
        assert forall|i: int| 0 <= i < CHUNK_VOLUME implies c@[i] == chunk@[i] by {
            assert(c@[i].0 == chunk@[i].0);
        }
        assert(c@ =~= chunk@);
    }
}

} // verus!
