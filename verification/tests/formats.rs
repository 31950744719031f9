use voxel_core::gltf::{
    assemble_glb, glb_bin_range, glb_json_range, index_bytes, mesh_layout, pack_bin, read_words,
    resolve_accessor, stream_bin_range, stream_json_range, AccessorError, AccessorInfo, AccessorKind,
    GlbError, GlbStreamError, ViewInfo, COMPONENT_FLOAT, COMPONENT_UNSIGNED_INT,
    TARGET_ARRAY_BUFFER, TARGET_ELEMENT_ARRAY_BUFFER,
};
use voxel_core::gltf_import::{import_gltf_words, mesh_words, ImportError, MeshWordsError};
use voxel_core::mesh::MeshData;
use voxel_core::obj::{obj_groups, used_material_ids};

#[test]
fn glb_header_and_roundtrip() {
    let json = b"{\"a\":1}";
    let bin = [1u8, 2, 3, 4, 5, 6, 7, 8];
    let glb = assemble_glb(json, &bin);
    assert_eq!(&glb[0..4], b"glTF");
    assert_eq!(&glb[4..8], &2u32.to_le_bytes());
    assert_eq!(&glb[8..12], &(glb.len() as u32).to_le_bytes());
    assert_eq!(&glb[12..16], &8u32.to_le_bytes());
    assert_eq!(&glb[16..20], b"JSON");
    assert_eq!(&glb[20..28], b"{\"a\":1} ");
    let (js, je) = glb_json_range(&glb).unwrap();
    assert_eq!(&glb[js..je], b"{\"a\":1} ");
    let (bs, be) = glb_bin_range(&glb, je).unwrap();
    assert_eq!(&glb[bs..be], &bin);
    assert_eq!(stream_json_range(&glb), Ok((js, je)));
    assert_eq!(stream_bin_range(&glb, je), Ok((bs, be)));
}

#[test]
fn glb_errors() {
    let glb = assemble_glb(b"{}", &[0u8; 4]);
    assert_eq!(glb_json_range(&glb[0..10]), Err(GlbError::TooShort));
    let mut bad = glb.clone();
    bad[0] = b'x';
    assert_eq!(glb_json_range(&bad), Err(GlbError::BadMagic));
    let mut bad = glb.clone();
    bad[4] = 1;
    assert_eq!(glb_json_range(&bad), Err(GlbError::UnsupportedVersion(1)));
    let mut bad = glb.clone();
    bad[16] = b'j';
    assert_eq!(glb_json_range(&bad), Err(GlbError::FirstChunkNotJson));
    let mut bad = glb.clone();
    bad[12] = 200;
    assert_eq!(glb_json_range(&bad), Err(GlbError::JsonPastEnd));
    let (_, je) = glb_json_range(&glb).unwrap();
    assert_eq!(glb_bin_range(&glb[0..je + 4], je), Err(GlbError::MissingBinHeader));
    let mut bad = glb.clone();
    bad[je + 4] = b'b';
    assert_eq!(glb_bin_range(&bad, je), Err(GlbError::SecondChunkNotBin));
    assert_eq!(glb_bin_range(&glb[0..glb.len() - 1], je), Err(GlbError::BinPastEnd));
}

#[test]
fn glb_stream_errors() {
    let glb = assemble_glb(b"{}", &[0u8; 4]);
    assert_eq!(stream_json_range(&glb[0..8]), Err(GlbStreamError::UnexpectedEof));
    let mut bad = glb.clone();
    bad[1] = 0;
    assert_eq!(stream_json_range(&bad), Err(GlbStreamError::BadMagic));
    assert_eq!(stream_json_range(&glb[0..15]), Err(GlbStreamError::UnexpectedEof));
    let mut bad = glb.clone();
    bad[19] = 0;
    assert_eq!(stream_json_range(&bad), Err(GlbStreamError::MissingJsonChunk));
    let (_, je) = stream_json_range(&glb).unwrap();
    let mut bad = glb.clone();
    bad[je + 7] = 1;
    assert_eq!(stream_bin_range(&bad, je), Err(GlbStreamError::MissingBinChunk));
    assert_eq!(stream_bin_range(&glb[0..je + 3], je), Err(GlbStreamError::UnexpectedEof));
}

#[test]
fn pack_bin_offsets() {
    let parts = vec![vec![1u8, 2, 3], vec![4u8, 5], vec![6u8]];
    let (bin, spans) = pack_bin(&parts, false);
    assert_eq!(bin, vec![1, 2, 3, 4, 5, 6, 0, 0]);
    assert_eq!(spans, vec![(0, 3), (3, 2), (5, 1)]);
    let (bin, spans) = pack_bin(&parts, true);
    assert_eq!(bin, vec![1, 2, 3, 0, 4, 5, 0, 0, 6, 0, 0, 0]);
    assert_eq!(spans, vec![(0, 3), (4, 2), (8, 1)]);
}

#[test]
fn read_words_little_endian() {
    let bytes = [0u8, 1, 0, 0, 0, 0x78, 0x56, 0x34, 0x12];
    assert_eq!(read_words(&bytes, 1, 2), vec![1, 0x12345678]);
    assert_eq!(read_words(&bytes, 0, 0), Vec::<u32>::new());
}

#[test]
fn index_bytes_in_machine_order() {
    let b = index_bytes(&vec![1, 2, 0x01020304]);
    assert_eq!(b.len(), 12);
    assert_eq!(&b[4..8], &2u32.to_ne_bytes());
    assert_eq!(&b[8..12], &0x01020304u32.to_ne_bytes());
    assert_eq!(read_words(&b, 0, 3), vec![1u32.to_le(), 2u32.to_le(), 0x01020304u32.to_le()]);
}

#[test]
fn accessor_resolution() {
    let accessors = vec![
        AccessorInfo { buffer_view: 0, count: 3 },
        AccessorInfo { buffer_view: 5, count: 1 },
    ];
    let views = vec![ViewInfo { byte_offset: 16, byte_length: 36 }];
    assert_eq!(resolve_accessor(&accessors, &views, 0), Ok((16, 3)));
    assert_eq!(resolve_accessor(&accessors, &views, 1), Err(AccessorError::BufferViewOutOfRange));
    assert_eq!(resolve_accessor(&accessors, &views, 2), Err(AccessorError::AccessorOutOfRange));
}

#[test]
fn layout_of_four_views() {
    let spans = vec![(0, 36), (36, 36), (72, 48), (120, 12)];
    let l = mesh_layout(132, &spans, (3, 3, 3, 3), AccessorKind::Vec4);
    assert_eq!(l.buffer_length, 132);
    assert_eq!(l.views[2].byte_offset, 72);
    assert_eq!(l.views[0].target, TARGET_ARRAY_BUFFER);
    assert_eq!(l.views[3].target, TARGET_ELEMENT_ARRAY_BUFFER);
    assert_eq!(l.accessors[0].component_type, COMPONENT_FLOAT);
    assert_eq!(l.accessors[3].component_type, COMPONENT_UNSIGNED_INT);
    assert_eq!(l.accessors[2].kind, AccessorKind::Vec4);
    assert_eq!(l.accessors[3].kind, AccessorKind::Scalar);
}

#[test]
fn used_ids_sorted_unique() {
    assert_eq!(used_material_ids(&vec![5, 1, 5, 3, 1]), vec![1, 3, 5]);
    assert_eq!(used_material_ids(&vec![]), Vec::<u16>::new());
}

#[test]
fn obj_groups_by_material() {
    let mesh = MeshData {
        positions: vec![],
        normals: vec![],
        voxel_ids: vec![2, 2, 2, 2, 1, 1, 1, 1],
        indices: vec![0, 1, 2, 0, 2, 3, 4, 5, 6, 4, 6, 7],
    };
    let groups = obj_groups(&mesh);
    assert_eq!(groups.len(), 2);
    assert_eq!(groups[0].id, 1);
    assert_eq!(groups[0].triangles, vec![(5, 6, 7), (5, 7, 8)]);
    assert_eq!(groups[1].id, 2);
    assert_eq!(groups[1].triangles, vec![(1, 2, 3), (1, 3, 4)]);
}

fn words_bin(n: u32) -> Vec<u8> {
    (1..=n).flat_map(|w| w.to_le_bytes()).collect()
}

const MESH_JSON: &str = r#"{"meshes":[{"primitives":[{"attributes":{"POSITION":0,"NORMAL":1,"COLOR_0":2},"indices":3}]}],"accessors":[{"bufferView":0},{"bufferView":1},{"bufferView":2},{"bufferView":3}],"bufferViews":[{"byteOffset":0,"byteLength":12},{"byteOffset":12,"byteLength":12},{"byteLength":12},{"byteOffset":36,"byteLength":8}]}"#;

#[test]
fn import_words_follow_accessors() {
    let glb = assemble_glb(MESH_JSON.as_bytes(), &words_bin(11));
    let w = import_gltf_words(&glb).unwrap();
    assert_eq!(w.positions, vec![1, 2, 3]);
    assert_eq!(w.normals, vec![4, 5, 6]);
    assert_eq!(w.colors, vec![1, 2, 3]);
    assert_eq!(w.indices, vec![10, 11]);
}

#[test]
fn import_words_errors() {
    let bad_json = assemble_glb(b"{not json", &words_bin(11));
    assert!(matches!(import_gltf_words(&bad_json), Err(ImportError::Json(_))));
    let missing = MESH_JSON.replace("\"NORMAL\":1,", "");
    let glb = assemble_glb(missing.as_bytes(), &words_bin(11));
    assert!(matches!(import_gltf_words(&glb), Err(ImportError::Mesh(MeshWordsError::MissingField))));
    let glb = assemble_glb(MESH_JSON.as_bytes(), &words_bin(10));
    assert!(matches!(import_gltf_words(&glb), Err(ImportError::Mesh(MeshWordsError::SliceOutOfRange))));
    let mut glb = assemble_glb(MESH_JSON.as_bytes(), &words_bin(11));
    glb[0] = b'x';
    assert!(matches!(import_gltf_words(&glb), Err(ImportError::Stream(GlbStreamError::BadMagic))));
}

#[test]
fn mesh_words_from_tables() {
    let bin = words_bin(8);
    let accessors = vec![Some(0), None, Some(7), Some(1)];
    let views = vec![(Some(4), Some(24)), (None, Some(7))];
    let w = mesh_words((Some(0), Some(0), Some(0), Some(3)), &accessors, &views, &bin).unwrap();
    assert_eq!(w.positions, vec![2, 3, 4, 5, 6, 7]);
    assert_eq!(w.indices, vec![1]);
    assert_eq!(mesh_words((Some(0), Some(1), Some(0), Some(0)), &accessors, &views, &bin).err(), Some(MeshWordsError::MissingField));
    assert_eq!(mesh_words((Some(0), Some(2), Some(0), Some(0)), &accessors, &views, &bin).err(), Some(MeshWordsError::MissingField));
    assert_eq!(mesh_words((Some(9), Some(0), Some(0), Some(0)), &accessors, &views, &bin).err(), Some(MeshWordsError::MissingField));
    assert_eq!(mesh_words((None, Some(0), Some(0), Some(0)), &accessors, &views, &bin).err(), Some(MeshWordsError::MissingField));
    let short = words_bin(6);
    assert_eq!(mesh_words((Some(0), Some(0), Some(0), Some(0)), &accessors, &views, &short).err(), Some(MeshWordsError::SliceOutOfRange));
}
