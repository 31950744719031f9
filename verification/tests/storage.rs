use voxel_core::chunk::{Chunk, CHUNK_SIZE, CHUNK_VOLUME};
use voxel_core::coord::Coord3;
use voxel_core::persistence::{decode_chunk, encode_chunk, LoadError, CURRENT_VERSION};
use voxel_core::voxel::Voxel;
use voxel_core::world::VoxelWorld;

#[test]
fn voxel_new_and_empty() {
    assert_eq!(Voxel::new(7).0, 7);
    assert!(Voxel::empty().is_empty());
    assert!(!Voxel::new(1).is_empty());
    assert_eq!(Voxel::default(), Voxel::empty());
    assert_eq!(Voxel::EMPTY_ID, 0);
}

#[test]
fn empty_chunk_is_all_air() {
    let c = Chunk::empty();
    assert!(c.is_empty());
    for x in 0..CHUNK_SIZE {
        for y in 0..CHUNK_SIZE {
            for z in 0..CHUNK_SIZE {
                assert!(c.get(x, y, z).is_empty());
            }
        }
    }
    assert!(Chunk::default().is_empty());
}

#[test]
fn chunk_get_after_set() {
    let mut c = Chunk::empty();
    c.set(3, 4, 5, Voxel::new(9));
    assert_eq!(c.get(3, 4, 5), Voxel::new(9));
    assert_eq!(c.get(4, 3, 5), Voxel::empty());
    assert!(!c.is_empty());
    c.set(3, 4, 5, Voxel::empty());
    assert!(c.is_empty());
}

#[test]
fn chunk_ids_in_storage_order() {
    let mut c = Chunk::empty();
    c.set(1, 2, 3, Voxel::new(42));
    let ids = c.to_ids();
    assert_eq!(ids.len(), CHUNK_VOLUME);
    assert_eq!(ids[1 + 2 * 16 + 3 * 256], 42);
    assert_eq!(ids.iter().filter(|&&id| id != 0).count(), 1);
}

#[test]
fn chunk_ids_roundtrip() {
    let mut c = Chunk::empty();
    c.set(0, 0, 0, Voxel::new(1));
    c.set(15, 15, 15, Voxel::new(255));
    c.set(7, 0, 9, Voxel::new(1000));
    let back = Chunk::from_ids(&c.to_ids()).expect("full id list");
    assert_eq!(back.to_ids(), c.to_ids());
    assert_eq!(back.get(7, 0, 9), Voxel::new(1000));
}

#[test]
fn chunk_from_ids_rejects_wrong_length() {
    assert!(Chunk::from_ids(&[0u16; 10]).is_none());
    assert!(Chunk::from_ids(&vec![0u16; CHUNK_VOLUME + 1]).is_none());
    assert!(Chunk::from_ids(&[]).is_none());
}

#[test]
fn world_demo_scenario() {
    let mut world = VoxelWorld::new();
    for x in -2..1 {
        for y in 0..3 {
            for z in 0..3 {
                world.set_voxel(Coord3::new(x, y, z), Voxel::new(1));
            }
        }
    }
    assert_eq!(world.get_voxel(Coord3::new(-1, 1, 1)), Voxel::new(1));
    assert_eq!(world.get_voxel(Coord3::new(100, 100, 100)), Voxel::empty());
    assert_eq!(world.get_voxel(Coord3::new(5, 5, 5)), Voxel::empty());
    assert_eq!(world.chunk_count(), 2);
}

#[test]
fn world_negative_coordinates_use_floor_chunks() {
    let mut world = VoxelWorld::default();
    world.set_voxel(Coord3::new(-1, -16, -17), Voxel::new(3));
    assert!(world.chunk(Coord3::new(-1, -1, -2)).is_some());
    let c = world.chunk(Coord3::new(-1, -1, -2)).unwrap();
    assert_eq!(c.get(15, 0, 15), Voxel::new(3));
    assert_eq!(world.get_voxel(Coord3::new(-1, -16, -17)), Voxel::new(3));
    assert_eq!(world.get_voxel(Coord3::new(-1, -16, -16)), Voxel::empty());
    assert!(world.chunk(Coord3::new(0, 0, 0)).is_none());
}

#[test]
fn world_set_overwrites_and_counts_chunks() {
    let mut world = VoxelWorld::new();
    world.set_voxel(Coord3::new(i32::MAX, i32::MIN, 0), Voxel::new(4));
    world.set_voxel(Coord3::new(i32::MAX, i32::MIN, 0), Voxel::new(5));
    world.set_voxel(Coord3::new(0, 0, 0), Voxel::new(6));
    assert_eq!(world.get_voxel(Coord3::new(i32::MAX, i32::MIN, 0)), Voxel::new(5));
    assert_eq!(world.chunk_count(), 2);
    let listed = world.iter_chunks();
    assert_eq!(listed.len(), 2);
    let mut positions: Vec<(i32, i32, i32)> = listed.iter().map(|(p, _)| (p.x, p.y, p.z)).collect();
    positions.sort();
    assert_eq!(positions, vec![(0, 0, 0), (134217727, -134217728, 0)]);
}

#[test]
fn save_record_layout() {
    let mut c = Chunk::empty();
    c.set(1, 0, 0, Voxel::new(0x0102));
    let bytes = encode_chunk(&c);
    assert_eq!(bytes.len(), 12 + 2 * CHUNK_VOLUME);
    assert_eq!(&bytes[0..4], &CURRENT_VERSION.to_le_bytes());
    assert_eq!(&bytes[4..12], &(CHUNK_VOLUME as u64).to_le_bytes());
    assert_eq!(&bytes[12..14], &[0, 0]);
    assert_eq!(&bytes[14..16], &[0x02, 0x01]);
}

#[test]
fn save_load_roundtrip() {
    let mut c = Chunk::empty();
    c.set(2, 3, 4, Voxel::new(77));
    c.set(15, 0, 8, Voxel::new(1));
    let bytes = encode_chunk(&c);
    let back = decode_chunk(&bytes).expect("a saved chunk loads");
    assert_eq!(back.to_ids(), c.to_ids());
}

#[test]
fn load_rejects_short_bytes() {
    assert!(matches!(decode_chunk(&[1, 0, 0]), Err(LoadError::Decode(_))));
    let mut bytes = encode_chunk(&Chunk::empty());
    bytes.truncate(100);
    assert!(matches!(decode_chunk(&bytes), Err(LoadError::Decode(_))));
}

#[test]
fn load_rejects_other_version() {
    let mut bytes = encode_chunk(&Chunk::empty());
    bytes[0] = 2;
    assert!(matches!(decode_chunk(&bytes), Err(LoadError::UnsupportedVersion(2))));
}

#[test]
fn load_rejects_wrong_voxel_count() {
    let mut bytes = Vec::new();
    bytes.extend_from_slice(&1u32.to_le_bytes());
    bytes.extend_from_slice(&3u64.to_le_bytes());
    bytes.extend_from_slice(&[1, 0, 2, 0, 3, 0]);
    assert!(matches!(decode_chunk(&bytes), Err(LoadError::WrongVoxelCount)));
}

#[test]
fn load_accepts_trailing_bytes() {
    let c = Chunk::empty();
    let mut bytes = encode_chunk(&c);
    bytes.extend_from_slice(&[9, 9, 9]);
    assert!(decode_chunk(&bytes).is_ok());
}
