use voxel_core::brush::line_voxels;
use voxel_core::chunk::Chunk;
use voxel_core::coord::Coord3;
use voxel_core::face::Face;
use voxel_core::mesh::MeshData;
use voxel_core::mesher::{greedy_mesh, greedy_rects, sample, MaskEntry};
use voxel_core::raycast::{first_hit, RayHit};
use voxel_core::voxel::Voxel;

fn pts(v: &[Coord3]) -> Vec<(i32, i32, i32)> {
    v.iter().map(|p| (p.x, p.y, p.z)).collect()
}

#[test]
fn empty_chunk_gives_empty_mesh() {
    let m = greedy_mesh(&Chunk::empty());
    assert_eq!(m.positions.len(), 0);
    assert_eq!(m.indices.len(), 0);
    assert_eq!(m.quad_count(), 0);
    assert_eq!(m.triangle_count(), 0);
    let d = MeshData::default();
    assert_eq!(d.quad_count(), 0);
}

#[test]
fn single_voxel_gives_six_quads() {
    let mut c = Chunk::empty();
    c.set(2, 3, 4, Voxel::new(5));
    let m = greedy_mesh(&c);
    assert_eq!(m.quad_count(), 6);
    assert_eq!(m.triangle_count(), 12);
    assert_eq!(m.positions.len(), 24);
    assert_eq!(m.normals.len(), 24);
    assert!(m.voxel_ids.iter().all(|&id| id == 5));
    // The first quad faces -x at plane x = 2 (axis 0, plane 2, back face).
    assert_eq!((m.normals[0].x, m.normals[0].y, m.normals[0].z), (-1, 0, 0));
    assert_eq!(pts(&m.positions[0..4]), vec![(2, 3, 4), (2, 3, 5), (2, 4, 5), (2, 4, 4)]);
    assert_eq!(&m.indices[0..6], &[0, 1, 2, 0, 2, 3]);
    assert_eq!(&m.indices[6..12], &[4, 5, 6, 4, 6, 7]);
    // Then +x at plane x = 3, front face.
    assert_eq!((m.normals[4].x, m.normals[4].y, m.normals[4].z), (1, 0, 0));
    assert_eq!(pts(&m.positions[4..8]), vec![(3, 3, 4), (3, 4, 4), (3, 4, 5), (3, 3, 5)]);
}

#[test]
fn greedy_merges_equal_neighbours() {
    let mut c = Chunk::empty();
    for x in 0..16 {
        for z in 0..16 {
            c.set(x, 0, z, Voxel::new(1));
        }
    }
    let m = greedy_mesh(&c);
    // A full 16x1x16 slab is a box: one quad per side.
    assert_eq!(m.quad_count(), 6);
}

#[test]
fn different_materials_are_not_merged() {
    let mut c = Chunk::empty();
    c.set(0, 0, 0, Voxel::new(1));
    c.set(1, 0, 0, Voxel::new(2));
    let m = greedy_mesh(&c);
    // Two unit cubes side by side: the shared face is hidden, the remaining
    // 10 faces cannot merge across materials.
    assert_eq!(m.quad_count(), 10);
}

#[test]
fn sample_outside_is_air() {
    let mut c = Chunk::empty();
    c.set(0, 0, 0, Voxel::new(3));
    assert_eq!(sample(&c, 0, 0, 0), Voxel::new(3));
    assert_eq!(sample(&c, -1, 0, 0), Voxel::empty());
    assert_eq!(sample(&c, 0, 16, 0), Voxel::empty());
}

#[test]
fn greedy_rects_merge_full_mask() {
    let mask: Vec<MaskEntry> = vec![Some((Voxel::new(4), true)); 256];
    let rects = greedy_rects(mask);
    assert_eq!(rects.len(), 1);
    assert_eq!((rects[0].i, rects[0].j, rects[0].w, rects[0].h), (0, 0, 16, 16));
    assert!(rects[0].backface);
}

#[test]
fn greedy_rects_l_shape() {
    let mut mask: Vec<MaskEntry> = vec![None; 256];
    let e = Some((Voxel::new(1), false));
    mask[0] = e;
    mask[1] = e;
    mask[16] = e;
    let rects = greedy_rects(mask);
    assert_eq!(rects.len(), 2);
    assert_eq!((rects[0].i, rects[0].j, rects[0].w, rects[0].h), (0, 0, 2, 1));
    assert_eq!((rects[1].i, rects[1].j, rects[1].w, rects[1].h), (0, 1, 1, 1));
}

#[test]
fn line_along_x_with_slope() {
    let l = line_voxels(Coord3::new(0, 0, 0), Coord3::new(4, 2, 0));
    assert_eq!(pts(&l), vec![(0, 0, 0), (1, 1, 0), (2, 1, 0), (3, 2, 0), (4, 2, 0)]);
}

#[test]
fn line_single_point() {
    let l = line_voxels(Coord3::new(5, -3, 7), Coord3::new(5, -3, 7));
    assert_eq!(pts(&l), vec![(5, -3, 7)]);
}

#[test]
fn line_reverse_and_z_major() {
    let l = line_voxels(Coord3::new(0, 0, 3), Coord3::new(-1, 1, 0));
    assert_eq!(l.len(), 4);
    assert_eq!(pts(&l)[0], (0, 0, 3));
    assert_eq!(pts(&l)[3], (-1, 1, 0));
    for w in l.windows(2) {
        assert!((w[1].x - w[0].x).abs() <= 1);
        assert!((w[1].y - w[0].y).abs() <= 1);
        assert_eq!(w[1].z - w[0].z, -1);
    }
}

#[test]
fn line_y_major() {
    let l = line_voxels(Coord3::new(0, 0, 0), Coord3::new(1, 3, 0));
    assert_eq!(pts(&l), vec![(0, 0, 0), (0, 1, 0), (1, 2, 0), (1, 3, 0)]);
}

#[test]
fn face_normals_roundtrip() {
    let faces = [Face::PosX, Face::NegX, Face::PosY, Face::NegY, Face::PosZ, Face::NegZ];
    for f in faces {
        assert_eq!(Face::from_normal(f.normal()), Some(f));
    }
    assert_eq!(Face::from_normal(Coord3::new(1, 1, 0)), None);
    assert_eq!(Face::from_normal(Coord3::new(0, 0, 0)), None);
    assert_eq!(Face::NegY.normal(), Coord3::new(0, -1, 0));
}

#[test]
fn face_axes() {
    assert_eq!(Face::PosX.locked_axis(), 0);
    assert_eq!(Face::NegY.locked_axis(), 1);
    assert_eq!(Face::PosZ.locked_axis(), 2);
    assert_eq!(Face::NegX.in_plane_axes(), (1, 2));
    assert_eq!(Face::PosY.in_plane_axes(), (0, 2));
    assert_eq!(Face::NegZ.in_plane_axes(), (0, 1));
}

#[test]
fn first_hit_reports_previous_cell() {
    let mut c = Chunk::empty();
    c.set(3, 0, 0, Voxel::new(2));
    let cells: Vec<Coord3> = (0..6).map(|x| Coord3::new(x, 0, 0)).collect();
    let hit = first_hit(&c, &cells).expect("the ray hits");
    assert_eq!(hit, RayHit { voxel: Coord3::new(3, 0, 0), place_at: Some(Coord3::new(2, 0, 0)) });
}

#[test]
fn first_hit_start_inside_solid() {
    let mut c = Chunk::empty();
    c.set(0, 0, 0, Voxel::new(2));
    let hit = first_hit(&c, &vec![Coord3::new(0, 0, 0)]).unwrap();
    assert_eq!(hit.place_at, None);
}

#[test]
fn first_hit_misses() {
    let mut c = Chunk::empty();
    c.set(8, 8, 8, Voxel::new(2));
    let cells: Vec<Coord3> = (0..5).map(|x| Coord3::new(x, 0, 0)).collect();
    assert_eq!(first_hit(&c, &cells), None);
    // Leaving the chunk ends the walk even if solid cells would follow.
    let cells = vec![Coord3::new(0, 0, 0), Coord3::new(-1, 0, 0), Coord3::new(8, 8, 8)];
    assert_eq!(first_hit(&c, &cells), None);
}
