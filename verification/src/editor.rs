use vstd::prelude::*;

use crate::brush::abs_diff;
use crate::chunk::{cell_index, ids_of, in_chunk, Chunk, CHUNK_SIZE, CHUNK_VOLUME};
use crate::coord::Coord3;
use crate::raycast::{cell_in_chunk, RayHit};
use crate::voxel::Voxel;

verus! {

/// Number of undo snapshots kept.
pub const MAX_HISTORY: usize = 50;

/// What a left click does to the voxel under the cursor.
#[derive(Debug, Clone, Copy, PartialEq, Eq, Structural)]
pub enum PaintMode {
    /// Build a new voxel onto the face that was hit.
    Add,
    /// Repaint the hit voxel with the current material.
    Replace,
    /// Erase the hit voxel.
    Remove,
}

/// The cell a paint stroke changes and the voxel it writes there, given the
/// ray hit under the cursor; `None` when building onto a face whose front
/// cell is missing or outside the chunk.
pub open spec fn spec_paint_target(mode: PaintMode, hit: RayHit, material: u16) -> Option<(Coord3, Voxel)> {
    match mode {
        PaintMode::Add => match hit.place_at {
            Some(p) => if cell_in_chunk(p) {
                Some((p, Voxel(material)))
            } else {
                None
            },
            None => None,
        },
        PaintMode::Replace => Some((hit.voxel, Voxel(material))),
        PaintMode::Remove => Some((hit.voxel, Voxel(0))),
    }
}

/// Executable form of `spec_paint_target`.
pub fn paint_target(mode: PaintMode, hit: &RayHit, material: u16) -> (t: Option<(Coord3, Voxel)>)
    ensures
        t == spec_paint_target(mode, *hit, material),
{
    match mode {
        PaintMode::Add => match hit.place_at {
            Some(p) => {
                let size = CHUNK_SIZE as i32;
                if p.x < 0 || p.y < 0 || p.z < 0 || p.x >= size || p.y >= size || p.z >= size {
                    None
                } else {
                    Some((p, Voxel::new(material)))
                }
            },
            None => None,
        },
        PaintMode::Replace => Some((hit.voxel, Voxel::new(material))),
        PaintMode::Remove => Some((hit.voxel, Voxel::empty())),
    }
}

/// Largest brush size.
pub const MAX_BRUSH_SIZE: i32 = 10;

/// Reflection of a coordinate across the chunk's mid-plane.
pub open spec fn reflect(v: int) -> int {
    CHUNK_SIZE as int - 1 - v
}

/// Along one axis, coordinate `v` lies within `reach` of the target
/// coordinate `t`, or (when mirroring along that axis) of its reflection.
pub open spec fn axis_reach(v: int, t: int, reach: int, mirror: bool) -> bool {
    abs_diff(v, t) <= reach || (mirror && abs_diff(v, reflect(t)) <= reach)
}

/// Cell (x, y, z) is painted by a stroke at target `t`: it lies in the
/// chunk and in the cube of half-width `reach` around the target or around
/// one of the target's reflections across the mid-planes of the mirrored
/// axes (`mirror` holds the x, y and z mirror switches).
pub open spec fn in_stroke(t: Coord3, reach: int, mirror: (bool, bool, bool), x: int, y: int, z: int) -> bool {
    &&& in_chunk(x, y, z)
    &&& axis_reach(x, t.x as int, reach, mirror.0)
    &&& axis_reach(y, t.y as int, reach, mirror.1)
    &&& axis_reach(z, t.z as int, reach, mirror.2)
}

/// Storage slot `i` holds a cell painted by the stroke.
pub open spec fn slot_in_stroke(t: Coord3, reach: int, mirror: (bool, bool, bool), i: int) -> bool {
    in_stroke(t, reach, mirror, i % 16, (i / 16) % 16, i / 256)
}

/// The chunk after a stroke at `t` writes `v` into every cell it paints.
pub open spec fn stroke_result(chunk: Seq<Voxel>, t: Coord3, reach: int, mirror: (bool, bool, bool), v: Voxel) -> Seq<Voxel> {
    Seq::new(chunk.len(), |i: int| if slot_in_stroke(t, reach, mirror, i) { v } else { chunk[i] })
}

/// Some cell painted by the stroke does not already hold `v`.
pub open spec fn stroke_changes(chunk: Seq<Voxel>, t: Coord3, reach: int, mirror: (bool, bool, bool), v: Voxel) -> bool {
    exists|i: int| 0 <= i < chunk.len() && #[trigger] slot_in_stroke(t, reach, mirror, i) && chunk[i] != v
}

/// The chunk after a paint click with the given mode, material, brush reach
/// and mirror switches at the ray hit under the cursor, or `None` when the
/// click changes nothing (no hit, no target cell, or every painted cell
/// already holds the voxel to write).
pub open spec fn painted(
    mode: PaintMode,
    material: u16,
    reach: int,
    mirror: (bool, bool, bool),
    chunk: Seq<Voxel>,
    hit: Option<RayHit>,
) -> Option<Seq<Voxel>> {
    match hit {
        Some(h) => match spec_paint_target(mode, h, material) {
            Some(t) => if stroke_changes(chunk, t.0, reach, mirror, t.1) {
                Some(stroke_result(chunk, t.0, reach, mirror, t.1))
            } else {
                None
            },
            None => None,
        },
        None => None,
    }
}

/// The storage slot of a cell names the cell back.
proof fn lemma_slot_of_cell(x: int, y: int, z: int)
    requires
        in_chunk(x, y, z),
    ensures
        cell_index(x, y, z) % 16 == x,
        (cell_index(x, y, z) / 16) % 16 == y,
        cell_index(x, y, z) / 256 == z,
{
    let i = cell_index(x, y, z);
    vstd::arithmetic::div_mod::lemma_fundamental_div_mod_converse(i, 16, y + 16 * z, x);
    vstd::arithmetic::div_mod::lemma_fundamental_div_mod_converse(y + 16 * z, 16, z, y);
    vstd::arithmetic::div_mod::lemma_fundamental_div_mod_converse(i, 256, z, x + 16 * y);
}

/// Every storage slot is the slot of the cell its coordinates name.
proof fn lemma_cell_of_slot(i: int)
    requires
        0 <= i < CHUNK_VOLUME as int,
    ensures
        in_chunk(i % 16, (i / 16) % 16, i / 256),
        cell_index(i % 16, (i / 16) % 16, i / 256) == i,
{
    vstd::arithmetic::div_mod::lemma_fundamental_div_mod(i, 16);
    vstd::arithmetic::div_mod::lemma_mod_bound(i, 16);
    let q = i / 16;
    assert(0 <= q < 256) by {
        vstd::arithmetic::div_mod::lemma_div_pos_is_pos(i, 16);
        vstd::arithmetic::div_mod::lemma_div_by_multiple_is_strongly_ordered(i, 4096, 256, 16);
    }
    vstd::arithmetic::div_mod::lemma_fundamental_div_mod(q, 16);
    vstd::arithmetic::div_mod::lemma_mod_bound(q, 16);
    vstd::arithmetic::div_mod::lemma_div_denominator(i, 16, 16);
    assert(i / 256 == q / 16);
    assert(0 <= q / 16 < 16) by {
        vstd::arithmetic::div_mod::lemma_div_pos_is_pos(q, 16);
        vstd::arithmetic::div_mod::lemma_div_by_multiple_is_strongly_ordered(q, 256, 16, 16);
    }
}

/// What a stroke leaves in each cell: the written voxel where it paints,
/// the old voxel elsewhere; and a painted cell that does not hold the
/// written voxel yet makes the stroke a change.
pub proof fn lemma_stroke_cell(chunk: Seq<Voxel>, t: Coord3, reach: int, mirror: (bool, bool, bool), v: Voxel, x: int, y: int, z: int)
    requires
        chunk.len() == CHUNK_VOLUME as int,
        in_chunk(x, y, z),
    ensures
        stroke_result(chunk, t, reach, mirror, v)[cell_index(x, y, z)] == (if in_stroke(t, reach, mirror, x, y, z) {
            v
        } else {
            chunk[cell_index(x, y, z)]
        }),
        in_stroke(t, reach, mirror, x, y, z) && chunk[cell_index(x, y, z)] != v ==> stroke_changes(
            chunk,
            t,
            reach,
            mirror,
            v,
        ),
{
    crate::chunk::lemma_cell_index_bounds(x, y, z);
    lemma_slot_of_cell(x, y, z);
    assert(slot_in_stroke(t, reach, mirror, cell_index(x, y, z)) == in_stroke(t, reach, mirror, x, y, z));
}

/// Mirror painting is symmetric: a stroke paints the target cell and every
/// cell within the brush reach of it, and with mirroring on along an axis
/// it paints the reflection across that axis's mid-plane of every cell it
/// paints.
pub proof fn lemma_stroke_mirrored(t: Coord3, reach: int, mirror: (bool, bool, bool), x: int, y: int, z: int)
    requires
        in_chunk(t.x as int, t.y as int, t.z as int),
        reach >= 0,
    ensures
        in_stroke(t, reach, mirror, t.x as int, t.y as int, t.z as int),
        in_chunk(x, y, z) && abs_diff(x, t.x as int) <= reach && abs_diff(y, t.y as int) <= reach && abs_diff(
            z,
            t.z as int,
        ) <= reach ==> in_stroke(t, reach, mirror, x, y, z),
        in_stroke(t, reach, mirror, x, y, z) && mirror.0 ==> in_stroke(t, reach, mirror, reflect(x), y, z),
        in_stroke(t, reach, mirror, x, y, z) && mirror.1 ==> in_stroke(t, reach, mirror, x, reflect(y), z),
        in_stroke(t, reach, mirror, x, y, z) && mirror.2 ==> in_stroke(t, reach, mirror, x, y, reflect(z)),
{
}

/// With brush size one and no mirroring a stroke paints the target cell
/// alone.
pub proof fn lemma_single_cell_stroke(chunk: Seq<Voxel>, t: Coord3, v: Voxel)
    requires
        chunk.len() == CHUNK_VOLUME as int,
        in_chunk(t.x as int, t.y as int, t.z as int),
    ensures
        stroke_result(chunk, t, 0, (false, false, false), v) == chunk.update(
            cell_index(t.x as int, t.y as int, t.z as int),
            v,
        ),
        stroke_changes(chunk, t, 0, (false, false, false), v) <==> chunk[cell_index(
            t.x as int,
            t.y as int,
            t.z as int,
        )] != v,
{
    let idx = cell_index(t.x as int, t.y as int, t.z as int);
    crate::chunk::lemma_cell_index_bounds(t.x as int, t.y as int, t.z as int);
    lemma_slot_of_cell(t.x as int, t.y as int, t.z as int);
    assert forall|i: int| 0 <= i < chunk.len() implies (#[trigger] slot_in_stroke(t, 0, (false, false, false), i)) == (i == idx) by {
        lemma_cell_of_slot(i);
    }
    assert(stroke_result(chunk, t, 0, (false, false, false), v) =~= chunk.update(idx, v));
    if chunk[idx] != v {
        assert(slot_in_stroke(t, 0, (false, false, false), idx));
    }
}

/// Along one axis: within reach of the target, or of its reflection when
/// mirroring.
fn axis_reach_exec(v: i32, t: i32, reach: i32, mirror: bool) -> (b: bool)
    requires
        0 <= v < CHUNK_SIZE,
        0 <= t < CHUNK_SIZE,
        0 <= reach < MAX_BRUSH_SIZE,
    ensures
        b == axis_reach(v as int, t as int, reach as int, mirror),
{
    let d = if v >= t { v - t } else { t - v };
    let rt = (CHUNK_SIZE as i32) - 1 - t;
    let dm = if v >= rt { v - rt } else { rt - v };
    d <= reach || (mirror && dm <= reach)
}

/// The undo history after recording a snapshot of `chunk`: the snapshot is
/// appended and the oldest one dropped beyond MAX_HISTORY.
pub open spec fn pushed_undo(undo: Seq<Seq<u16>>, chunk: Seq<Voxel>) -> Seq<Seq<u16>> {
    if undo.len() + 1 > MAX_HISTORY {
        undo.push(ids_of(chunk)).drop_first()
    } else {
        undo.push(ids_of(chunk))
    }
}

/// Number of solid voxels in `s`.
pub open spec fn solid_count(s: Seq<Voxel>) -> nat
    decreases s.len(),
{
    if s.len() == 0 {
        0
    } else {
        solid_count(s.drop_last()) + (if s.last().spec_is_empty() { 0nat } else { 1nat })
    }
}

/// The editing state of the voxel editor: the chunk being edited, undo and
/// redo histories of whole-chunk snapshots, the selected material, the
/// paint mode, the brush size and the x, y and z mirror switches.
pub struct Editor {
    chunk: Chunk,
    undo_stack: Vec<Vec<u16>>,
    redo_stack: Vec<Vec<u16>>,
    current_material: u16,
    paint_mode: PaintMode,
    brush_size: i32,
    mirror_x: bool,
    mirror_y: bool,
    mirror_z: bool,
}

impl Editor {
    /// Voxels of the chunk being edited.
    pub closed spec fn chunk_view(&self) -> Seq<Voxel> {
        self.chunk@
    }

    /// Undo snapshots, oldest first.
    pub closed spec fn undo_view(&self) -> Seq<Seq<u16>> {
        self.undo_stack@.map_values(|s: Vec<u16>| s@)
    }

    /// Redo snapshots, oldest first.
    pub closed spec fn redo_view(&self) -> Seq<Seq<u16>> {
        self.redo_stack@.map_values(|s: Vec<u16>| s@)
    }

    /// The selected material id.
    pub closed spec fn material_view(&self) -> u16 {
        self.current_material
    }

    /// The selected paint mode.
    pub closed spec fn mode_view(&self) -> PaintMode {
        self.paint_mode
    }

    /// The brush size: a stroke paints the cube of cells within size - 1 of
    /// its target along every axis.
    pub closed spec fn brush_view(&self) -> i32 {
        self.brush_size
    }

    /// The x, y and z mirror switches.
    pub closed spec fn mirror_view(&self) -> (bool, bool, bool) {
        (self.mirror_x, self.mirror_y, self.mirror_z)
    }

    /// The chunk is well formed, every snapshot is a full chunk, the two
    /// histories together hold at most MAX_HISTORY snapshots and the brush
    /// size lies in 1..=MAX_BRUSH_SIZE.
    pub open spec fn wf(&self) -> bool {
        &&& self.chunk_view().len() == CHUNK_VOLUME
        &&& 1 <= self.brush_view() <= MAX_BRUSH_SIZE
        &&& self.undo_view().len() + self.redo_view().len() <= MAX_HISTORY
        &&& forall|i: int| 0 <= i < self.undo_view().len() ==> (#[trigger] self.undo_view()[i]).len() == CHUNK_VOLUME
        &&& forall|i: int| 0 <= i < self.redo_view().len() ==> (#[trigger] self.redo_view()[i]).len() == CHUNK_VOLUME
    }

    /// An editor on `chunk` with empty histories, material 1, mode Add,
    /// brush size 1 and no mirroring.
    pub fn new(chunk: Chunk) -> (e: Editor)
        requires
            chunk.wf(),
        ensures
            e.wf(),
            e.chunk_view() == chunk@,
            e.undo_view().len() == 0,
            e.redo_view().len() == 0,
            e.material_view() == 1,
            e.mode_view() == PaintMode::Add,
            e.brush_view() == 1,
            e.mirror_view() == (false, false, false),
    {
        let e = Editor {
            chunk,
            undo_stack: Vec::new(),
            redo_stack: Vec::new(),
            current_material: 1,
            paint_mode: PaintMode::Add,
            brush_size: 1,
            mirror_x: false,
            mirror_y: false,
            mirror_z: false,
        };
        assert(e.undo_view() =~= Seq::empty());
        assert(e.redo_view() =~= Seq::empty());
        e
    }

    /// The chunk being edited.
    pub fn chunk(&self) -> (c: &Chunk)
        ensures
            c@ == self.chunk_view(),
    {
        &self.chunk
    }

    /// The selected material.
    pub fn current_material(&self) -> (m: u16)
        ensures
            m == self.material_view(),
    {
        self.current_material
    }

    /// The selected paint mode.
    pub fn paint_mode(&self) -> (m: PaintMode)
        ensures
            m == self.mode_view(),
    {
        self.paint_mode
    }

    /// The brush size.
    pub fn brush_size(&self) -> (b: i32)
        ensures
            b == self.brush_view(),
    {
        self.brush_size
    }

    /// The x, y and z mirror switches.
    pub fn mirror(&self) -> (m: (bool, bool, bool))
        ensures
            m == self.mirror_view(),
    {
        (self.mirror_x, self.mirror_y, self.mirror_z)
    }

    /// Sets the brush size, held to the slider's range 1..=MAX_BRUSH_SIZE.
    pub fn set_brush_size(&mut self, size: i32)
        requires
            old(self).wf(),
        ensures
            final(self).wf(),
            final(self).brush_view() == (if size < 1 {
                1
            } else if size > MAX_BRUSH_SIZE {
                MAX_BRUSH_SIZE
            } else {
                size
            }),
            final(self).mirror_view() == old(self).mirror_view(),
            final(self).chunk_view() == old(self).chunk_view(),
            final(self).undo_view() == old(self).undo_view(),
            final(self).redo_view() == old(self).redo_view(),
            final(self).material_view() == old(self).material_view(),
            final(self).mode_view() == old(self).mode_view(),
    {
        self.brush_size = if size < 1 {
            1
        } else if size > MAX_BRUSH_SIZE {
            MAX_BRUSH_SIZE
        } else {
            size
        };
        assert(self.undo_view() =~= old(self).undo_view());
        assert(self.redo_view() =~= old(self).redo_view());
    }

    /// Turns mirror painting along x, y and z on or off.
    pub fn set_mirror(&mut self, x: bool, y: bool, z: bool)
        requires
            old(self).wf(),
        ensures
            final(self).wf(),
            final(self).mirror_view() == (x, y, z),
            final(self).brush_view() == old(self).brush_view(),
            final(self).chunk_view() == old(self).chunk_view(),
            final(self).undo_view() == old(self).undo_view(),
            final(self).redo_view() == old(self).redo_view(),
            final(self).material_view() == old(self).material_view(),
            final(self).mode_view() == old(self).mode_view(),
    {
        self.mirror_x = x;
        self.mirror_y = y;
        self.mirror_z = z;
        assert(self.undo_view() =~= old(self).undo_view());
        assert(self.redo_view() =~= old(self).redo_view());
    }

    /// Selects a paint mode.
    pub fn set_paint_mode(&mut self, mode: PaintMode)
        requires
            old(self).wf(),
        ensures
            final(self).wf(),
            final(self).mode_view() == mode,
            final(self).brush_view() == old(self).brush_view(),
            final(self).mirror_view() == old(self).mirror_view(),
            final(self).chunk_view() == old(self).chunk_view(),
            final(self).undo_view() == old(self).undo_view(),
            final(self).redo_view() == old(self).redo_view(),
            final(self).material_view() == old(self).material_view(),
    {
        self.paint_mode = mode;
        assert(self.undo_view() =~= old(self).undo_view());
        assert(self.redo_view() =~= old(self).redo_view());
    }

    /// True when there are edits that can be undone.
    pub fn has_undo(&self) -> (b: bool)
        ensures
            b == (self.undo_view().len() > 0),
    {
        self.undo_stack.len() > 0
    }

    /// Number of undo snapshots.
    pub fn undo_len(&self) -> (n: usize)
        ensures
            n == self.undo_view().len(),
    {
        self.undo_stack.len()
    }

    /// Number of redo snapshots.
    pub fn redo_len(&self) -> (n: usize)
        ensures
            n == self.redo_view().len(),
    {
        self.redo_stack.len()
    }

    /// Selects material `id` if it is a palette id (1..=255); otherwise keeps
    /// the current one.
    pub fn set_material(&mut self, id: u16)
        requires
            old(self).wf(),
        ensures
            final(self).wf(),
            final(self).material_view() == (if 0 < id <= 255 {
                id
            } else {
                old(self).material_view()
            }),
            final(self).chunk_view() == old(self).chunk_view(),
            final(self).undo_view() == old(self).undo_view(),
            final(self).redo_view() == old(self).redo_view(),
            final(self).mode_view() == old(self).mode_view(),
            final(self).brush_view() == old(self).brush_view(),
            final(self).mirror_view() == old(self).mirror_view(),
    {
        if id > 0 && id <= 255 {
            self.current_material = id;
        }
        assert(self.undo_view() =~= old(self).undo_view());
        assert(self.redo_view() =~= old(self).redo_view());
    }

    /// Records the current chunk as an undo snapshot (dropping the oldest
    /// beyond MAX_HISTORY) and forgets the redo history.
    pub fn push_undo_snapshot(&mut self)
        requires
            old(self).wf(),
        ensures
            final(self).wf(),
            final(self).chunk_view() == old(self).chunk_view(),
            final(self).undo_view() == pushed_undo(old(self).undo_view(), old(self).chunk_view()),
            final(self).redo_view().len() == 0,
            final(self).material_view() == old(self).material_view(),
            final(self).mode_view() == old(self).mode_view(),
            final(self).brush_view() == old(self).brush_view(),
            final(self).mirror_view() == old(self).mirror_view(),
    {
        let ids = self.chunk.to_ids();
        assert(ids@ =~= ids_of(self.chunk@));
        let ghost u0 = self.undo_view();
        self.undo_stack.push(ids);
        assert(self.undo_view() =~= u0.push(ids_of(self.chunk@)));
        if self.undo_stack.len() > MAX_HISTORY {
            self.undo_stack.remove(0);
            assert(self.undo_view() =~= u0.push(ids_of(self.chunk@)).drop_first());
        }
        self.redo_stack.clear();
        assert(self.redo_view() =~= Seq::empty());
    }

    /// Steps back to the newest undo snapshot, saving the current chunk for
    /// redo; true when the chunk was replaced.
    pub fn undo(&mut self) -> (changed: bool)
        requires
            old(self).wf(),
        ensures
            final(self).wf(),
            changed == (old(self).undo_view().len() > 0),
            changed ==> final(self).undo_view() == old(self).undo_view().drop_last()
                && final(self).redo_view() == old(self).redo_view().push(ids_of(old(self).chunk_view()))
                && ids_of(final(self).chunk_view()) == old(self).undo_view().last(),
            !changed ==> final(self).undo_view() == old(self).undo_view() && final(self).redo_view()
                == old(self).redo_view() && final(self).chunk_view() == old(self).chunk_view(),
            final(self).material_view() == old(self).material_view(),
            final(self).mode_view() == old(self).mode_view(),
            final(self).brush_view() == old(self).brush_view(),
            final(self).mirror_view() == old(self).mirror_view(),
    {
        let ghost u0 = self.undo_view();
        let ghost r0 = self.redo_view();
        let prev_ids = match self.undo_stack.pop() {
            Some(p) => p,
            None => {
                return false;
            },
        };
        assert(self.undo_view() =~= u0.drop_last());
        assert(prev_ids@ == u0.last());
        let cur = self.chunk.to_ids();
        assert(cur@ =~= ids_of(self.chunk@));
        self.redo_stack.push(cur);
        assert(self.redo_view() =~= r0.push(ids_of(old(self).chunk@)));
        match Chunk::from_ids(prev_ids.as_slice()) {
            Some(restored) => {
                self.chunk = restored;
                assert(ids_of(self.chunk@) =~= u0.last());
                true
            },
            None => {
                proof {
                    assert(u0[u0.len() - 1].len() == CHUNK_VOLUME);
                }
                false
            },
        }
    }

    /// Steps forward to the newest redo snapshot, saving the current chunk
    /// for undo; true when the chunk was replaced.
    pub fn redo(&mut self) -> (changed: bool)
        requires
            old(self).wf(),
        ensures
            final(self).wf(),
            changed == (old(self).redo_view().len() > 0),
            changed ==> final(self).redo_view() == old(self).redo_view().drop_last()
                && final(self).undo_view() == old(self).undo_view().push(ids_of(old(self).chunk_view()))
                && ids_of(final(self).chunk_view()) == old(self).redo_view().last(),
            !changed ==> final(self).undo_view() == old(self).undo_view() && final(self).redo_view()
                == old(self).redo_view() && final(self).chunk_view() == old(self).chunk_view(),
            final(self).material_view() == old(self).material_view(),
            final(self).mode_view() == old(self).mode_view(),
            final(self).brush_view() == old(self).brush_view(),
            final(self).mirror_view() == old(self).mirror_view(),
    {
        let ghost u0 = self.undo_view();
        let ghost r0 = self.redo_view();
        let next_ids = match self.redo_stack.pop() {
            Some(p) => p,
            None => {
                return false;
            },
        };
        assert(self.redo_view() =~= r0.drop_last());
        assert(next_ids@ == r0.last());
        let cur = self.chunk.to_ids();
        assert(cur@ =~= ids_of(self.chunk@));
        self.undo_stack.push(cur);
        assert(self.undo_view() =~= u0.push(ids_of(old(self).chunk@)));
        match Chunk::from_ids(next_ids.as_slice()) {
            Some(restored) => {
                self.chunk = restored;
                assert(ids_of(self.chunk@) =~= r0.last());
                true
            },
            None => {
                proof {
                    assert(r0[r0.len() - 1].len() == CHUNK_VOLUME);
                }
                false
            },
        }
    }

    /// Paints at the ray hit under the cursor, as the paint mode directs:
    /// the target cell, every cell within brush size - 1 of it, and their
    /// reflections along the mirrored axes all receive the new voxel (see
    /// `painted`). Records an undo snapshot first; true when the chunk
    /// changed. Nothing happens without a hit, without a target cell, or
    /// when every painted cell already holds the voxel to write.
    pub fn apply_paint(&mut self, hit: Option<RayHit>) -> (changed: bool)
        requires
            old(self).wf(),
            hit matches Some(h) ==> cell_in_chunk(h.voxel),
        ensures
            final(self).wf(),
            changed == painted(
                old(self).mode_view(),
                old(self).material_view(),
                old(self).brush_view() - 1,
                old(self).mirror_view(),
                old(self).chunk_view(),
                hit,
            ) is Some,
            painted(
                old(self).mode_view(),
                old(self).material_view(),
                old(self).brush_view() - 1,
                old(self).mirror_view(),
                old(self).chunk_view(),
                hit,
            ) matches Some(c) ==> final(self).chunk_view() == c && final(self).undo_view() == pushed_undo(
                old(self).undo_view(),
                old(self).chunk_view(),
            ) && final(self).redo_view().len() == 0,
            !changed ==> final(self).chunk_view() == old(self).chunk_view() && final(self).undo_view()
                == old(self).undo_view() && final(self).redo_view() == old(self).redo_view(),
            final(self).material_view() == old(self).material_view(),
            final(self).mode_view() == old(self).mode_view(),
            final(self).brush_view() == old(self).brush_view(),
            final(self).mirror_view() == old(self).mirror_view(),
    {
        let h = match hit {
            Some(h) => h,
            None => {
                return false;
            },
        };
        let (pos, new_voxel) = match paint_target(self.paint_mode, &h, self.current_material) {
            Some(t) => t,
            None => {
                return false;
            },
        };
        let reach: i32 = self.brush_size - 1;
        let ghost mirror = self.mirror_view();
        let ghost old_chunk = self.chunk@;
        let ghost result = stroke_result(old_chunk, pos, reach as int, mirror, new_voxel);
        let ids = self.chunk.to_ids();
        let mut new_ids: Vec<u16> = Vec::with_capacity(CHUNK_VOLUME);
        let mut changed = false;
        let mut i: usize = 0;
        while i < CHUNK_VOLUME
            invariant
                ids@ == ids_of(old_chunk),
                old_chunk.len() == CHUNK_VOLUME,
                cell_in_chunk(pos),
                0 <= reach < MAX_BRUSH_SIZE,
                mirror == (self.mirror_x, self.mirror_y, self.mirror_z),
                result == stroke_result(old_chunk, pos, reach as int, mirror, new_voxel),
                i <= CHUNK_VOLUME,
                new_ids@.len() == i,
                forall|k: int| 0 <= k < i ==> #[trigger] new_ids@[k] == result[k].0,
                changed <==> exists|k: int|
                    0 <= k < i && #[trigger] slot_in_stroke(pos, reach as int, mirror, k) && old_chunk[k]
                        != new_voxel,
            decreases CHUNK_VOLUME - i,
        {
            proof {
                lemma_cell_of_slot(i as int);
            }
            let x = (i % CHUNK_SIZE) as i32;
            let y = ((i / CHUNK_SIZE) % CHUNK_SIZE) as i32;
            let z = (i / (CHUNK_SIZE * CHUNK_SIZE)) as i32;
            let inside = axis_reach_exec(x, pos.x, reach, self.mirror_x) && axis_reach_exec(
                y,
                pos.y,
                reach,
                self.mirror_y,
            ) && axis_reach_exec(z, pos.z, reach, self.mirror_z);
            assert(inside == slot_in_stroke(pos, reach as int, mirror, i as int));
            let cur = ids[i];
            assert(cur == old_chunk[i as int].0);
            if inside {
                if cur != new_voxel.0 {
                    changed = true;
                }
                new_ids.push(new_voxel.0);
            } else {
                new_ids.push(cur);
            }
            proof {
                assert((old_chunk[i as int] != new_voxel) == (cur != new_voxel.0));
                if !changed {
                    assert forall|k: int|
                        0 <= k < i + 1 && #[trigger] slot_in_stroke(pos, reach as int, mirror, k) implies old_chunk[k]
                            == new_voxel by {
                        if k < i {
                        }
                    }
                }
            }
            i = i + 1;
        }
        if !changed {
            return false;
        }
        self.push_undo_snapshot();
        proof {
            assert(ids_of(result) =~= new_ids@);
        }
        match Chunk::from_ids(new_ids.as_slice()) {
            Some(c) => {
                proof {
                    assert(ids_of(c@) == new_ids@);
                    assert(ids_of(result) == new_ids@);
                    crate::chunk::lemma_ids_determine_voxels(c@, result);
                }
                self.chunk = c;
            },
            None => {
                proof {
                    assert(false);
                }
            },
        }
        true
    }

    /// Erases the voxel hit by the ray under the cursor, recording an undo
    /// snapshot first; true when there was a hit.
    pub fn try_remove_voxel(&mut self, hit: Option<RayHit>) -> (changed: bool)
        requires
            old(self).wf(),
            hit matches Some(h) ==> cell_in_chunk(h.voxel),
        ensures
            final(self).wf(),
            changed == hit is Some,
            hit matches Some(h) ==> final(self).chunk_view() == old(self).chunk_view().update(
                cell_index(h.voxel.x as int, h.voxel.y as int, h.voxel.z as int),
                Voxel(0),
            ),
            hit is Some ==> final(self).undo_view() == pushed_undo(old(self).undo_view(), old(self).chunk_view()) && final(self).redo_view().len() == 0,
            hit is None ==> final(self).chunk_view() == old(self).chunk_view() && final(self).undo_view()
                == old(self).undo_view() && final(self).redo_view() == old(self).redo_view(),
            final(self).material_view() == old(self).material_view(),
            final(self).mode_view() == old(self).mode_view(),
            final(self).brush_view() == old(self).brush_view(),
            final(self).mirror_view() == old(self).mirror_view(),
    {
        match hit {
            Some(h) => {
                self.push_undo_snapshot();
                self.chunk.set(h.voxel.x as usize, h.voxel.y as usize, h.voxel.z as usize, Voxel::empty());
                true
            },
            None => false,
        }
    }

    /// Empties the chunk, recording an undo snapshot first.
    pub fn clear_chunk(&mut self)
        requires
            old(self).wf(),
        ensures
            final(self).wf(),
            forall|i: int| 0 <= i < CHUNK_VOLUME ==> #[trigger] final(self).chunk_view()[i] == Voxel(0),
            final(self).undo_view() == pushed_undo(old(self).undo_view(), old(self).chunk_view()),
            final(self).redo_view().len() == 0,
            final(self).material_view() == old(self).material_view(),
            final(self).mode_view() == old(self).mode_view(),
            final(self).brush_view() == old(self).brush_view(),
            final(self).mirror_view() == old(self).mirror_view(),
    {
        self.push_undo_snapshot();
        self.chunk = Chunk::empty();
    }

    /// Starts over with `chunk` (a new or loaded project): both histories
    /// are forgotten.
    pub fn replace_chunk(&mut self, chunk: Chunk)
        requires
            old(self).wf(),
            chunk.wf(),
        ensures
            final(self).wf(),
            final(self).chunk_view() == chunk@,
            final(self).undo_view().len() == 0,
            final(self).redo_view().len() == 0,
            final(self).material_view() == old(self).material_view(),
            final(self).mode_view() == old(self).mode_view(),
            final(self).brush_view() == old(self).brush_view(),
            final(self).mirror_view() == old(self).mirror_view(),
    {
        self.chunk = chunk;
        self.undo_stack.clear();
        self.redo_stack.clear();
        assert(self.undo_view() =~= Seq::empty());
        assert(self.redo_view() =~= Seq::empty());
    }

    /// Starts a new, empty project.
    pub fn file_new(&mut self)
        requires
            old(self).wf(),
        ensures
            final(self).wf(),
            forall|i: int| 0 <= i < CHUNK_VOLUME ==> #[trigger] final(self).chunk_view()[i] == Voxel(0),
            final(self).undo_view().len() == 0,
            final(self).redo_view().len() == 0,
            final(self).material_view() == old(self).material_view(),
            final(self).mode_view() == old(self).mode_view(),
            final(self).brush_view() == old(self).brush_view(),
            final(self).mirror_view() == old(self).mirror_view(),
    {
        self.replace_chunk(Chunk::empty());
    }

    /// Number of solid voxels in the chunk.
    pub fn voxel_count(&self) -> (n: usize)
        requires
            self.wf(),
        ensures
            n == solid_count(self.chunk_view()),
    {
        let ids = self.chunk.to_ids();
        let mut count: usize = 0;
        let mut i: usize = 0;
        while i < ids.len()
            invariant
                ids@.len() == self.chunk@.len(),
                ids@.len() == CHUNK_VOLUME,
                forall|k: int| 0 <= k < ids@.len() ==> ids@[k] == (#[trigger] self.chunk@[k]).0,
                i <= ids@.len(),
                count == solid_count(self.chunk@.subrange(0, i as int)),
                count <= i,
            decreases ids@.len() - i,
        {
            proof {
                let s = self.chunk@.subrange(0, i as int + 1);
                assert(s.drop_last() =~= self.chunk@.subrange(0, i as int));
            }
            if ids[i] != 0 {
                count = count + 1;
            }
            i = i + 1;
        }
        assert(self.chunk@.subrange(0, ids@.len() as int) =~= self.chunk@);
        count
    }
}

/// Recording a snapshot keeps the newest snapshots in order: the new undo
/// history is the old history with the snapshot appended, cut to its last
/// MAX_HISTORY entries (from a history no longer than that, which every
/// editor has); so when the history is full the oldest snapshot, and only
/// it, is dropped.
pub proof fn lemma_history_keeps_newest(undo: Seq<Seq<u16>>, chunk: Seq<Voxel>)
    requires
        undo.len() <= MAX_HISTORY,
    ensures
        ({
            let all = undo.push(ids_of(chunk));
            let kept = pushed_undo(undo, chunk);
            &&& kept.len() == (if all.len() > MAX_HISTORY {
                MAX_HISTORY as int
            } else {
                all.len() as int
            })
            &&& forall|i: int|
                0 <= i < kept.len() ==> #[trigger] kept[i] == all[all.len() - kept.len() + i]
            &&& kept.last() == ids_of(chunk)
        }),
{
}

/// Undoing an edit restores the chunk as it was before the edit: once a
/// snapshot of `before` has been recorded (as every edit does), the next
/// undo brings back exactly the voxels of `before`.
pub proof fn lemma_undo_restores(before: Editor, edited: Editor, undone: Editor)
    requires
        before.wf(),
        edited.undo_view() == pushed_undo(before.undo_view(), before.chunk_view()),
        ids_of(undone.chunk_view()) == edited.undo_view().last(),
    ensures
        undone.chunk_view() == before.chunk_view(),
{
    crate::chunk::lemma_ids_determine_voxels(undone.chunk_view(), before.chunk_view());
}

/// Redoing an undone step brings back the chunk as it was before the undo.
pub proof fn lemma_redo_restores(edited: Editor, undone: Editor, redone: Editor)
    requires
        edited.wf(),
        undone.redo_view() == edited.redo_view().push(ids_of(edited.chunk_view())),
        ids_of(redone.chunk_view()) == undone.redo_view().last(),
    ensures
        redone.chunk_view() == edited.chunk_view(),
{
    crate::chunk::lemma_ids_determine_voxels(redone.chunk_view(), edited.chunk_view());
}

/// The demo scene's voxel at cell (x, y, z): a green 13x13 base plate, a
/// red 5x5 slab above it, a red 3x3 pillar on that and a red 5x5 top slab.
pub open spec fn demo_voxel(x: int, y: int, z: int) -> u16 {
    let dx = if x >= 8 { x - 8 } else { 8 - x };
    let dz = if z >= 8 { z - 8 } else { 8 - z };
    if y == 0 && dx <= 6 && dz <= 6 {
        2
    } else if (y == 1 || y == 7) && dx <= 2 && dz <= 2 {
        1
    } else if 2 <= y <= 6 && dx <= 1 && dz <= 1 {
        1
    } else {
        0
    }
}

/// Cell (x, y, z) lies in the box [x0, x1] x [y0, y1] x [z0, z1].
pub open spec fn in_box(x: int, y: int, z: int, x0: int, x1: int, y0: int, y1: int, z0: int, z1: int) -> bool {
    x0 <= x <= x1 && y0 <= y <= y1 && z0 <= z <= z1
}

/// Sets every cell of the box [x0, x1] x [y0, y1] x [z0, z1] to `v`.
fn fill_box(chunk: &mut Chunk, x0: usize, x1: usize, y0: usize, y1: usize, z0: usize, z1: usize, v: Voxel)
    requires
        old(chunk).wf(),
        x1 < CHUNK_SIZE,
        y1 < CHUNK_SIZE,
        z1 < CHUNK_SIZE,
    ensures
        final(chunk).wf(),
        forall|x: int, y: int, z: int|
            in_chunk(x, y, z) ==> #[trigger] final(chunk).voxel_at(x, y, z) == (if in_box(
                x,
                y,
                z,
                x0 as int,
                x1 as int,
                y0 as int,
                y1 as int,
                z0 as int,
                z1 as int,
            ) {
                v
            } else {
                old(chunk).voxel_at(x, y, z)
            }),
{
    let mut y: usize = y0;
    while y <= y1
        invariant
            chunk.wf(),
            x1 < CHUNK_SIZE,
            y1 < CHUNK_SIZE,
            z1 < CHUNK_SIZE,
            y0 <= y <= y1 + 1 || y == y0,
            forall|a: int, b: int, c: int|
                in_chunk(a, b, c) ==> #[trigger] chunk.voxel_at(a, b, c) == (if in_box(
                    a,
                    b,
                    c,
                    x0 as int,
                    x1 as int,
                    y0 as int,
                    y as int - 1,
                    z0 as int,
                    z1 as int,
                ) {
                    v
                } else {
                    old(chunk).voxel_at(a, b, c)
                }),
        decreases CHUNK_SIZE + 1 - y,
    {
        let mut x: usize = x0;
        while x <= x1
            invariant
                chunk.wf(),
                x1 < CHUNK_SIZE,
                y1 < CHUNK_SIZE,
                z1 < CHUNK_SIZE,
                y0 <= y <= y1,
                x0 <= x <= x1 + 1 || x == x0,
                forall|a: int, b: int, c: int|
                    in_chunk(a, b, c) ==> #[trigger] chunk.voxel_at(a, b, c) == (if in_box(
                        a,
                        b,
                        c,
                        x0 as int,
                        x1 as int,
                        y0 as int,
                        y as int - 1,
                        z0 as int,
                        z1 as int,
                    ) || in_box(a, b, c, x0 as int, x as int - 1, y as int, y as int, z0 as int, z1 as int) {
                        v
                    } else {
                        old(chunk).voxel_at(a, b, c)
                    }),
            decreases CHUNK_SIZE + 1 - x,
        {
            let mut z: usize = z0;
            while z <= z1
                invariant
                    chunk.wf(),
                    x1 < CHUNK_SIZE,
                    y1 < CHUNK_SIZE,
                    z1 < CHUNK_SIZE,
                    y0 <= y <= y1,
                    x0 <= x <= x1,
                    z0 <= z <= z1 + 1 || z == z0,
                    forall|a: int, b: int, c: int|
                        in_chunk(a, b, c) ==> #[trigger] chunk.voxel_at(a, b, c) == (if in_box(
                            a,
                            b,
                            c,
                            x0 as int,
                            x1 as int,
                            y0 as int,
                            y as int - 1,
                            z0 as int,
                            z1 as int,
                        ) || in_box(a, b, c, x0 as int, x as int - 1, y as int, y as int, z0 as int, z1 as int)
                            || in_box(a, b, c, x as int, x as int, y as int, y as int, z0 as int, z as int - 1) {
                            v
                        } else {
                            old(chunk).voxel_at(a, b, c)
                        }),
                decreases CHUNK_SIZE + 1 - z,
            {
                let ghost before = *chunk;
                chunk.set(x, y, z, v);
                proof {
                    assert forall|a: int, b: int, c: int| in_chunk(a, b, c) implies #[trigger] chunk.voxel_at(a, b, c)
                        == (if a == x && b == y && c == z { v } else { before.voxel_at(a, b, c) }) by {
                        crate::chunk::lemma_cell_index_bounds(a, b, c);
                        if cell_index(a, b, c) == cell_index(x as int, y as int, z as int) {
                            crate::chunk::lemma_cell_index_injective(a, b, c, x as int, y as int, z as int);
                        }
                    }
                }
                z = z + 1;
            }
            x = x + 1;
        }
        y = y + 1;
    }
}

/// The demo scene shown when the editor starts: a green base plate and a
/// red pedestal (see `demo_voxel`).
pub fn build_demo_chunk() -> (chunk: Chunk)
    ensures
        chunk.wf(),
        forall|x: int, y: int, z: int|
            in_chunk(x, y, z) ==> (#[trigger] chunk.voxel_at(x, y, z)).0 == demo_voxel(x, y, z),
{
    let mut chunk = Chunk::empty();

    let center_x: usize = CHUNK_SIZE / 2;
    let center_z: usize = CHUNK_SIZE / 2;

    let base_radius: usize = 6;
    fill_box(&mut chunk, center_x - base_radius, center_x + base_radius, 0, 0, center_z - base_radius, center_z + base_radius, Voxel::new(2));
    fill_box(&mut chunk, center_x - 2, center_x + 2, 1, 1, center_z - 2, center_z + 2, Voxel::new(1));
    fill_box(&mut chunk, center_x - 1, center_x + 1, 2, 6, center_z - 1, center_z + 1, Voxel::new(1));
    fill_box(&mut chunk, center_x - 2, center_x + 2, 7, 7, center_z - 2, center_z + 2, Voxel::new(1));
    proof {
        assert forall|x: int, y: int, z: int| in_chunk(x, y, z) implies (#[trigger] chunk.voxel_at(x, y, z)).0 == demo_voxel(x, y, z) by {
            crate::chunk::lemma_cell_index_bounds(x, y, z);
        }
    }
    chunk
}

} // verus!
