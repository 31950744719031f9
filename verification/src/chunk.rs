use vstd::prelude::*;

use crate::voxel::Voxel;

verus! {

/// Size of a chunk along each axis.
pub const CHUNK_SIZE: usize = 16;

/// Number of voxels in a chunk.
pub const CHUNK_VOLUME: usize = CHUNK_SIZE * CHUNK_SIZE * CHUNK_SIZE;

/// Position of local cell (x, y, z) in the flat storage order
/// x + y*SIZE + z*SIZE*SIZE.
pub open spec fn cell_index(x: int, y: int, z: int) -> int {
    x + y * (CHUNK_SIZE as int) + z * (CHUNK_SIZE as int) * (CHUNK_SIZE as int)
}

/// Whether (x, y, z) is a local cell of a chunk.
pub open spec fn in_chunk(x: int, y: int, z: int) -> bool {
    0 <= x < CHUNK_SIZE as int && 0 <= y < CHUNK_SIZE as int && 0 <= z < CHUNK_SIZE as int
}

/// Every local cell has its own slot in the flat storage.
pub proof fn lemma_cell_index_bounds(x: int, y: int, z: int)
    requires
        in_chunk(x, y, z),
    ensures
        0 <= cell_index(x, y, z) < CHUNK_VOLUME as int,
{
}

/// Distinct local cells occupy distinct storage slots.
pub proof fn lemma_cell_index_injective(x1: int, y1: int, z1: int, x2: int, y2: int, z2: int)
    requires
        in_chunk(x1, y1, z1),
        in_chunk(x2, y2, z2),
        cell_index(x1, y1, z1) == cell_index(x2, y2, z2),
    ensures
        x1 == x2 && y1 == y2 && z1 == z2,
{
}

/// Raw ids of a sequence of voxels, in order.
pub open spec fn ids_of(s: Seq<Voxel>) -> Seq<u16> {
    Seq::new(s.len(), |i: int| s[i].0)
}

/// Voxels are determined by their ids: two voxel sequences with the same
/// ids are equal.
pub proof fn lemma_ids_determine_voxels(a: Seq<Voxel>, b: Seq<Voxel>)
    requires
        ids_of(a) == ids_of(b),
    ensures
        a == b,
{
    assert(ids_of(a).len() == a.len());
    assert(ids_of(b).len() == b.len());
    assert forall|i: int| 0 <= i < a.len() implies a[i] == b[i] by {
        assert(ids_of(a)[i] == a[i].0);
        assert(ids_of(b)[i] == b[i].0);
        assert(ids_of(a)[i] == ids_of(b)[i]);
    }
    assert(a =~= b);
}

/// A fixed-size block of CHUNK_SIZE^3 voxels, stored densely.
pub struct Chunk {
    voxels: Vec<Voxel>,
}

impl View for Chunk {
    type V = Seq<Voxel>;

    /// The voxels of the chunk in flat storage order.
    closed spec fn view(&self) -> Seq<Voxel> {
        self.voxels@
    }
}

impl Chunk {
    /// A chunk holds exactly CHUNK_VOLUME voxels.
    pub open spec fn wf(&self) -> bool {
        self@.len() == CHUNK_VOLUME as int
    }

    /// The voxel at local cell (x, y, z).
    pub open spec fn voxel_at(&self, x: int, y: int, z: int) -> Voxel {
        self@[cell_index(x, y, z)]
    }

    /// True when every voxel of `s` is air.
    pub open spec fn all_empty(s: Seq<Voxel>) -> bool {
        forall|i: int| 0 <= i < s.len() ==> (#[trigger] s[i]).spec_is_empty()
    }

    /// A brand new chunk, entirely air.
    pub fn empty() -> (c: Chunk)
        ensures
            c.wf(),
            forall|i: int| 0 <= i < CHUNK_VOLUME as int ==> c@[i] == Voxel(0),
    {
        let mut voxels: Vec<Voxel> = Vec::with_capacity(CHUNK_VOLUME);
        let mut i: usize = 0;
        while i < CHUNK_VOLUME
            invariant
                i <= CHUNK_VOLUME,
                voxels@.len() == i,
                forall|k: int| 0 <= k < i ==> voxels@[k] == Voxel(0),
            decreases CHUNK_VOLUME - i,
        {
            voxels.push(Voxel::empty());
            i = i + 1;
        }
        Chunk { voxels }
    }

    /// Flat storage position of local cell (x, y, z).
    fn index(x: usize, y: usize, z: usize) -> (i: usize)
        requires
            in_chunk(x as int, y as int, z as int),
        ensures
            i as int == cell_index(x as int, y as int, z as int),
            i < CHUNK_VOLUME,
    {
        x + y * CHUNK_SIZE + z * CHUNK_SIZE * CHUNK_SIZE
    }

    /// Local-space get. x/y/z must each be in 0..CHUNK_SIZE.
    pub fn get(&self, x: usize, y: usize, z: usize) -> (v: Voxel)
        requires
            self.wf(),
            in_chunk(x as int, y as int, z as int),
        ensures
            v == self.voxel_at(x as int, y as int, z as int),
    {
        self.voxels[Self::index(x, y, z)]
    }

    /// Local-space set. x/y/z must each be in 0..CHUNK_SIZE.
    pub fn set(&mut self, x: usize, y: usize, z: usize, voxel: Voxel)
        requires
            old(self).wf(),
            in_chunk(x as int, y as int, z as int),
        ensures
            final(self).wf(),
            final(self)@ == old(self)@.update(cell_index(x as int, y as int, z as int), voxel),
    {
        let i = Self::index(x, y, z);
        self.voxels[i] = voxel;
    }

    /// True if every voxel in this chunk is empty.
    pub fn is_empty(&self) -> (b: bool)
        ensures
            b == Self::all_empty(self@),
    {
        let mut i: usize = 0;
        while i < self.voxels.len()
            invariant
                i <= self.voxels@.len(),
                forall|k: int| 0 <= k < i ==> (#[trigger] self.voxels@[k]).spec_is_empty(),
            decreases self.voxels@.len() - i,
        {
            if !self.voxels[i].is_empty() {
                return false;
            }
            i = i + 1;
        }
        true
    }

    /// Flattens this chunk's voxels into their raw ids, in storage order.
    pub fn to_ids(&self) -> (ids: Vec<u16>)
        ensures
            ids@.len() == self@.len(),
            forall|i: int| 0 <= i < ids@.len() ==> ids@[i] == (#[trigger] self@[i]).0,
    {
        let mut ids: Vec<u16> = Vec::with_capacity(self.voxels.len());
        let mut i: usize = 0;
        while i < self.voxels.len()
            invariant
                i <= self.voxels@.len(),
                ids@.len() == i,
                forall|k: int| 0 <= k < i ==> ids@[k] == (#[trigger] self.voxels@[k]).0,
            decreases self.voxels@.len() - i,
        {
            ids.push(self.voxels[i].0);
            i = i + 1;
        }
        assert(ids@ =~= ids_of(self@));
        ids
    }

    /// Rebuilds a chunk from a flat id list produced by `to_ids`; `None` if
    /// the length does not match CHUNK_VOLUME.
    pub fn from_ids(ids: &[u16]) -> (c: Option<Chunk>)
        ensures
            ids@.len() != CHUNK_VOLUME as int <==> c is None,
            c matches Some(ch) ==> ch.wf() && forall|i: int|
                0 <= i < ids@.len() ==> (#[trigger] ch@[i]).0 == ids@[i],
    {
        if ids.len() != CHUNK_VOLUME {
            return None;
        }
        let mut voxels: Vec<Voxel> = Vec::with_capacity(CHUNK_VOLUME);
        let mut i: usize = 0;
        while i < ids.len()
            invariant
                i <= ids@.len(),
                voxels@.len() == i,
                forall|k: int| 0 <= k < i ==> (#[trigger] voxels@[k]).0 == ids@[k],
            decreases ids@.len() - i,
        {
            voxels.push(Voxel::new(ids[i]));
            i = i + 1;
        }
        assert(ids_of(voxels@) =~= ids@);
        Some(Chunk { voxels })
    }
}

/// Rebuilding a chunk from the ids of another gives back the same voxels:
/// `from_ids(to_ids(c))` is `c`.
pub proof fn lemma_ids_roundtrip(c: Chunk, ids: Seq<u16>, back: Chunk)
    requires
        c.wf(),
        ids == ids_of(c@),
        ids_of(back@) == ids,
    ensures
        back.wf(),
        back@ == c@,
{
    lemma_ids_determine_voxels(back@, c@);
}

/// Reading a cell after setting it gives what was written, and setting one
/// cell leaves every other cell as it was.
pub proof fn lemma_get_after_set(before: Chunk, after: Chunk, x: int, y: int, z: int, v: Voxel, a: int, b: int, c: int)
    requires
        before.wf(),
        in_chunk(x, y, z),
        in_chunk(a, b, c),
        after@ == before@.update(cell_index(x, y, z), v),
    ensures
        after.voxel_at(a, b, c) == (if a == x && b == y && c == z {
            v
        } else {
            before.voxel_at(a, b, c)
        }),
{
    if cell_index(a, b, c) == cell_index(x, y, z) {
        lemma_cell_index_injective(a, b, c, x, y, z);
    }
}

impl Default for Chunk {
    fn default() -> (c: Chunk)
        ensures
            c.wf(),
            forall|i: int| 0 <= i < CHUNK_VOLUME as int ==> c@[i] == Voxel(0),
    {
        Self::empty()
    }
}

} // verus!
