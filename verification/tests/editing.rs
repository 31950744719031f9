use voxel_core::chunk::{Chunk, CHUNK_SIZE};
use voxel_core::coord::Coord3;
use voxel_core::editor::{build_demo_chunk, paint_target, Editor, PaintMode, MAX_HISTORY};
use voxel_core::raycast::RayHit;
use voxel_core::voxel::Voxel;

fn hit(v: (i32, i32, i32), p: Option<(i32, i32, i32)>) -> RayHit {
    RayHit { voxel: Coord3::new(v.0, v.1, v.2), place_at: p.map(|q| Coord3::new(q.0, q.1, q.2)) }
}

#[test]
fn paint_targets() {
    let h = hit((3, 3, 3), Some((3, 4, 3)));
    assert_eq!(paint_target(PaintMode::Add, &h, 7), Some((Coord3::new(3, 4, 3), Voxel::new(7))));
    assert_eq!(paint_target(PaintMode::Replace, &h, 7), Some((Coord3::new(3, 3, 3), Voxel::new(7))));
    assert_eq!(paint_target(PaintMode::Remove, &h, 7), Some((Coord3::new(3, 3, 3), Voxel::empty())));
    assert_eq!(paint_target(PaintMode::Add, &hit((0, 0, 0), None), 7), None);
    assert_eq!(paint_target(PaintMode::Add, &hit((0, 0, 0), Some((-1, 0, 0))), 7), None);
    assert_eq!(paint_target(PaintMode::Add, &hit((15, 0, 0), Some((16, 0, 0))), 7), None);
}

#[test]
fn demo_chunk_shape() {
    let c = build_demo_chunk();
    assert_eq!(c.get(8, 0, 8), Voxel::new(2));
    assert_eq!(c.get(2, 0, 14), Voxel::new(2));
    assert_eq!(c.get(1, 0, 8), Voxel::empty());
    assert_eq!(c.get(10, 1, 10), Voxel::new(1));
    assert_eq!(c.get(9, 4, 9), Voxel::new(1));
    assert_eq!(c.get(10, 4, 10), Voxel::empty());
    assert_eq!(c.get(6, 7, 6), Voxel::new(1));
    assert_eq!(c.get(8, 8, 8), Voxel::empty());
    let e = Editor::new(c);
    assert_eq!(e.voxel_count(), 13 * 13 + 25 + 5 * 9 + 25);
}

#[test]
fn paint_undo_redo() {
    let mut e = Editor::new(Chunk::empty());
    e.set_material(4);
    assert!(e.apply_paint(Some(hit((5, 5, 5), Some((5, 6, 5))))));
    assert_eq!(e.chunk().get(5, 6, 5), Voxel::new(4));
    assert!(e.has_undo());
    assert_eq!(e.voxel_count(), 1);
    assert!(e.undo());
    assert_eq!(e.chunk().get(5, 6, 5), Voxel::empty());
    assert_eq!(e.redo_len(), 1);
    assert!(e.redo());
    assert_eq!(e.chunk().get(5, 6, 5), Voxel::new(4));
    assert!(!e.redo());
    assert_eq!(e.undo_len(), 1);
}

#[test]
fn paint_without_change_records_nothing() {
    let mut e = Editor::new(Chunk::empty());
    e.set_paint_mode(PaintMode::Remove);
    assert_eq!(e.paint_mode(), PaintMode::Remove);
    assert!(!e.apply_paint(Some(hit((1, 1, 1), None))));
    assert!(!e.has_undo());
    assert!(!e.apply_paint(None));
    assert!(!e.undo());
}

#[test]
fn material_selection_bounds() {
    let mut e = Editor::new(Chunk::empty());
    assert_eq!(e.current_material(), 1);
    e.set_material(0);
    assert_eq!(e.current_material(), 1);
    e.set_material(256);
    assert_eq!(e.current_material(), 1);
    e.set_material(255);
    assert_eq!(e.current_material(), 255);
}

#[test]
fn history_is_capped() {
    let mut e = Editor::new(Chunk::empty());
    for i in 0..(MAX_HISTORY + 10) {
        let x = (i % CHUNK_SIZE) as i32;
        let y = (i / CHUNK_SIZE) as i32;
        e.set_paint_mode(PaintMode::Replace);
        e.set_material(((i % 200) + 1) as u16);
        assert!(e.apply_paint(Some(hit((x, y, 0), None))));
    }
    assert_eq!(e.undo_len(), MAX_HISTORY);
}

#[test]
fn remove_and_clear() {
    let mut e = Editor::new(build_demo_chunk());
    assert!(e.try_remove_voxel(Some(hit((8, 0, 8), None))));
    assert_eq!(e.chunk().get(8, 0, 8), Voxel::empty());
    assert!(!e.try_remove_voxel(None));
    e.clear_chunk();
    assert!(e.chunk().is_empty());
    assert!(e.undo());
    assert_eq!(e.chunk().get(9, 0, 9), Voxel::new(2));
    e.file_new();
    assert!(e.chunk().is_empty());
    assert!(!e.has_undo());
    e.replace_chunk(build_demo_chunk());
    assert_eq!(e.redo_len(), 0);
    assert!(!e.chunk().is_empty());
}

#[test]
fn mirror_painting_copies_across_mid_planes() {
    let mut e = Editor::new(Chunk::empty());
    assert_eq!(e.mirror(), (false, false, false));
    e.set_mirror(true, false, false);
    e.set_material(3);
    assert!(e.apply_paint(Some(hit((2, 0, 5), Some((2, 1, 5))))));
    assert_eq!(e.chunk().get(2, 1, 5), Voxel::new(3));
    assert_eq!(e.chunk().get(13, 1, 5), Voxel::new(3));
    assert_eq!(e.voxel_count(), 2);
    assert_eq!(e.undo_len(), 1);

    e.set_mirror(true, false, true);
    assert_eq!(e.mirror(), (true, false, true));
    assert!(e.apply_paint(Some(hit((4, 0, 1), Some((4, 1, 1))))));
    assert_eq!(e.chunk().get(4, 1, 1), Voxel::new(3));
    assert_eq!(e.chunk().get(11, 1, 1), Voxel::new(3));
    assert_eq!(e.chunk().get(4, 1, 14), Voxel::new(3));
    assert_eq!(e.chunk().get(11, 1, 14), Voxel::new(3));
    assert_eq!(e.voxel_count(), 6);
}

#[test]
fn mirrored_erase_and_repaint() {
    let mut e = Editor::new(build_demo_chunk());
    e.set_mirror(false, false, true);
    e.set_paint_mode(PaintMode::Replace);
    e.set_material(9);
    assert!(e.apply_paint(Some(hit((8, 0, 3), None))));
    assert_eq!(e.chunk().get(8, 0, 3), Voxel::new(9));
    assert_eq!(e.chunk().get(8, 0, 12), Voxel::new(9));
    e.set_paint_mode(PaintMode::Remove);
    assert!(e.apply_paint(Some(hit((8, 0, 3), None))));
    assert_eq!(e.chunk().get(8, 0, 3), Voxel::empty());
    assert_eq!(e.chunk().get(8, 0, 12), Voxel::empty());
    assert!(!e.apply_paint(Some(hit((8, 0, 3), None))));
}

#[test]
fn brush_size_paints_a_cube() {
    let mut e = Editor::new(Chunk::empty());
    assert_eq!(e.brush_size(), 1);
    e.set_brush_size(2);
    assert_eq!(e.brush_size(), 2);
    e.set_paint_mode(PaintMode::Replace);
    assert!(e.apply_paint(Some(hit((8, 8, 8), None))));
    assert_eq!(e.voxel_count(), 27);
    assert_eq!(e.chunk().get(7, 9, 7), Voxel::new(1));
    assert_eq!(e.chunk().get(6, 8, 8), Voxel::empty());

    let mut corner = Editor::new(Chunk::empty());
    corner.set_brush_size(2);
    corner.set_paint_mode(PaintMode::Replace);
    assert!(corner.apply_paint(Some(hit((0, 0, 0), None))));
    assert_eq!(corner.voxel_count(), 8);
}

#[test]
fn brush_size_is_held_to_slider_range() {
    let mut e = Editor::new(Chunk::empty());
    e.set_brush_size(0);
    assert_eq!(e.brush_size(), 1);
    e.set_brush_size(99);
    assert_eq!(e.brush_size(), 10);
    e.set_brush_size(-5);
    assert_eq!(e.brush_size(), 1);
    e.set_brush_size(7);
    assert_eq!(e.brush_size(), 7);
}
