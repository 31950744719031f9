use vstd::prelude::*;

use crate::chunk::{cell_index, in_chunk, Chunk};
use crate::coord::Coord3;
use crate::voxel::Voxel;

verus! {

/// Result of a ray hitting a solid voxel.
#[derive(Debug, Clone, Copy, PartialEq, Eq, Structural)]
pub struct RayHit {
    /// The solid voxel the ray hit (in chunk-local coordinates).
    pub voxel: Coord3,
    /// The cell visited just before `voxel`, where a voxel built onto the hit
    /// face would go; `None` when the ray starts in the hit voxel.
    pub place_at: Option<Coord3>,
}

/// Cell `p` lies in the chunk.
pub open spec fn cell_in_chunk(p: Coord3) -> bool {
    in_chunk(p.x as int, p.y as int, p.z as int)
}

/// Cell `p` lies in the chunk and holds a solid voxel.
pub open spec fn cell_solid(chunk: Seq<Voxel>, p: Coord3) -> bool {
    cell_in_chunk(p) && !chunk[cell_index(p.x as int, p.y as int, p.z as int)].spec_is_empty()
}

/// The first h cells of the walk lie in the chunk and are air.
pub open spec fn clear_prefix(chunk: Seq<Voxel>, cells: Seq<Coord3>, h: int) -> bool {
    forall|i: int|
        0 <= i < h ==> cell_in_chunk(#[trigger] cells[i]) && !cell_solid(chunk, cells[i])
}

/// Follows a ray's walk through the chunk, cell by cell in visiting order,
/// and reports the first solid voxel together with the cell visited before
/// it. The walk ends without a hit at the first cell outside the chunk or
/// when the cells run out.
pub fn first_hit(chunk: &Chunk, cells: &Vec<Coord3>) -> (r: Option<RayHit>)
    requires
        chunk.wf(),
    ensures
        r matches Some(hit) ==> exists|h: int|
            0 <= h < cells@.len() && clear_prefix(chunk@, cells@, h) && cell_solid(
                chunk@,
                #[trigger] cells@[h],
            ) && hit.voxel == cells@[h] && hit.place_at == (if h == 0 {
                None
            } else {
                Some(cells@[h - 1])
            }),
        r is None ==> forall|h: int|
            0 <= h < cells@.len() && clear_prefix(chunk@, cells@, h) ==> !cell_solid(
                chunk@,
                #[trigger] cells@[h],
            ),
{
    let mut prev: Option<Coord3> = None;
    let mut i: usize = 0;
    while i < cells.len()
        invariant
            chunk.wf(),
            i <= cells@.len(),
            clear_prefix(chunk@, cells@, i as int),
            prev == (if i == 0 {
                None
            } else {
                Some(cells@[i - 1])
            }),
        decreases cells@.len() - i,
    {
        let cell = cells[i];
        if cell.x < 0 || cell.y < 0 || cell.z < 0 || cell.x >= 16 || cell.y >= 16 || cell.z >= 16 {
            proof {
                assert forall|h: int|
                    0 <= h < cells@.len() && clear_prefix(chunk@, cells@, h) implies !cell_solid(
                        chunk@,
                        #[trigger] cells@[h],
                    ) by {
                    if h > i {
                        assert(cell_in_chunk(cells@[i as int]));
                    }
                }
            }
            return None;
        }
        let voxel = chunk.get(cell.x as usize, cell.y as usize, cell.z as usize);
        if !voxel.is_empty() {
            return Some(RayHit { voxel: cell, place_at: prev });
        }
        prev = Some(cell);
        i = i + 1;
    }
    None
}

} // verus!
