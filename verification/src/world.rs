use std::collections::HashMap;

use vstd::prelude::*;
use vstd::std_specs::iter::IteratorSpec;

use crate::chunk::{cell_index, in_chunk, Chunk, CHUNK_VOLUME};
use crate::coord::Coord3;
use crate::voxel::Voxel;

verus! {

broadcast use vstd::std_specs::hash::group_hash_axioms;

/// Offset that makes every `i32` non-negative.
pub open spec fn shift32(v: int) -> int {
    v + 0x8000_0000
}

/// Integer key of a chunk position: its three coordinates, each shifted to
/// be non-negative, as the digits of a number in base 2^32.
pub open spec fn chunk_key(p: Coord3) -> int {
    shift32(p.x as int) * 0x1_0000_0000_0000_0000 + shift32(p.y as int) * 0x1_0000_0000
        + shift32(p.z as int)
}

/// Distinct chunk positions have distinct keys.
pub proof fn lemma_chunk_key_injective(a: Coord3, b: Coord3)
    requires
        chunk_key(a) == chunk_key(b),
    ensures
        a == b,
{
    let (ax, ay, az) = (shift32(a.x as int), shift32(a.y as int), shift32(a.z as int));
    let (bx, by, bz) = (shift32(b.x as int), shift32(b.y as int), shift32(b.z as int));
    assert(ax == bx && ay == by && az == bz) by (nonlinear_arith)
        requires
            0 <= ax < 0x1_0000_0000,
            0 <= ay < 0x1_0000_0000,
            0 <= az < 0x1_0000_0000,
            0 <= bx < 0x1_0000_0000,
            0 <= by < 0x1_0000_0000,
            0 <= bz < 0x1_0000_0000,
            ax * 0x1_0000_0000_0000_0000 + ay * 0x1_0000_0000 + az == bx * 0x1_0000_0000_0000_0000
                + by * 0x1_0000_0000 + bz,
    ;
}

/// Executable form of `chunk_key`.
fn make_chunk_key(p: Coord3) -> (k: u128)
    ensures
        k as int == chunk_key(p),
{
    let x = (p.x as i64 + 0x8000_0000) as u128;
    let y = (p.y as i64 + 0x8000_0000) as u128;
    let z = (p.z as i64 + 0x8000_0000) as u128;
    x * 0x1_0000_0000_0000_0000 + y * 0x1_0000_0000 + z
}

/// Position of the chunk that holds world coordinate `v` along one axis.
pub open spec fn chunk_coord(v: int) -> int {
    v / 16
}

/// Local coordinate of world coordinate `v` inside its chunk.
pub open spec fn local_coord(v: int) -> int {
    v % 16
}

/// Position of the chunk that holds world point `pos`.
pub open spec fn chunk_of(pos: Coord3) -> Coord3 {
    Coord3 {
        x: chunk_coord(pos.x as int) as i32,
        y: chunk_coord(pos.y as int) as i32,
        z: chunk_coord(pos.z as int) as i32,
    }
}

/// Storage slot of world point `pos` inside its chunk.
pub open spec fn local_index(pos: Coord3) -> int {
    cell_index(local_coord(pos.x as int), local_coord(pos.y as int), local_coord(pos.z as int))
}

/// The contents of a chunk that is all air.
pub open spec fn air_chunk() -> Seq<Voxel> {
    Seq::new(CHUNK_VOLUME as nat, |i: int| Voxel(0))
}

/// The voxel at world point `pos` of a world whose chunks are `w`; points in
/// chunks that were never created are air.
pub open spec fn world_voxel(w: Map<Coord3, Seq<Voxel>>, pos: Coord3) -> Voxel {
    if w.contains_key(chunk_of(pos)) {
        w[chunk_of(pos)][local_index(pos)]
    } else {
        Voxel(0)
    }
}

/// The chunks of world `w` after setting world point `pos` to `v`: the
/// holding chunk is created as air if needed, then updated at `pos`.
pub open spec fn world_set(w: Map<Coord3, Seq<Voxel>>, pos: Coord3, v: Voxel) -> Map<
    Coord3,
    Seq<Voxel>,
> {
    let base = if w.contains_key(chunk_of(pos)) {
        w[chunk_of(pos)]
    } else {
        air_chunk()
    };
    w.insert(chunk_of(pos), base.update(local_index(pos), v))
}

proof fn lemma_euclid_shift(v: int)
    requires
        i32::MIN <= v <= i32::MAX,
    ensures
        (v + 0x8000_0000) / 16 == v / 16 + 0x800_0000,
        (v + 0x8000_0000) % 16 == v % 16,
        i32::MIN / 16 <= v / 16 <= i32::MAX / 16,
        0 <= v % 16 < 16,
{
    vstd::arithmetic::div_mod::lemma_fundamental_div_mod(v, 16);
    vstd::arithmetic::div_mod::lemma_mod_bound(v, 16);
    let q = v / 16;
    let r = v % 16;
    vstd::arithmetic::div_mod::lemma_fundamental_div_mod_converse(
        v + 0x8000_0000,
        16,
        q + 0x800_0000,
        r,
    );
}

/// A sparse world of chunks, created on first write.
pub struct VoxelWorld {
    chunks: HashMap<u128, (Coord3, Chunk)>,
}

impl View for VoxelWorld {
    type V = Map<Coord3, Seq<Voxel>>;

    /// The chunks of the world, by chunk position.
    closed spec fn view(&self) -> Map<Coord3, Seq<Voxel>> {
        Map::new(
            |p: Coord3| self.chunks@.contains_key(chunk_key(p) as u128),
            |p: Coord3| self.chunks@[chunk_key(p) as u128].1@,
        )
    }
}

impl VoxelWorld {
    /// Every stored chunk is well formed and filed under its position's key.
    pub closed spec fn wf(&self) -> bool {
        forall|k: u128|
            #[trigger] self.chunks@.contains_key(k) ==> chunk_key(self.chunks@[k].0) == k
                && self.chunks@[k].1.wf()
    }

    /// An empty world.
    pub fn new() -> (w: VoxelWorld)
        ensures
            w.wf(),
            w@ == Map::<Coord3, Seq<Voxel>>::empty(),
    {
        let w = VoxelWorld { chunks: HashMap::new() };
        assert(w@ =~= Map::<Coord3, Seq<Voxel>>::empty());
        w
    }

    /// The chunk holding world point `pos` and the local cell of `pos` in it.
    fn world_to_chunk_local(pos: Coord3) -> (r: (Coord3, (usize, usize, usize)))
        ensures
            r.0 == chunk_of(pos),
            r.1.0 as int == local_coord(pos.x as int),
            r.1.1 as int == local_coord(pos.y as int),
            r.1.2 as int == local_coord(pos.z as int),
            in_chunk(r.1.0 as int, r.1.1 as int, r.1.2 as int),
    {
        proof {
            lemma_euclid_shift(pos.x as int);
            lemma_euclid_shift(pos.y as int);
            lemma_euclid_shift(pos.z as int);
        }
        let tx = (pos.x as i64 + 0x8000_0000) as u64;
        let ty = (pos.y as i64 + 0x8000_0000) as u64;
        let tz = (pos.z as i64 + 0x8000_0000) as u64;
        let chunk_pos = Coord3 {
            x: ((tx / 16) as i64 - 0x800_0000) as i32,
            y: ((ty / 16) as i64 - 0x800_0000) as i32,
            z: ((tz / 16) as i64 - 0x800_0000) as i32,
        };
        (chunk_pos, ((tx % 16) as usize, (ty % 16) as usize, (tz % 16) as usize))
    }

    /// The voxel at world point `pos`; air where no chunk exists.
    pub fn get_voxel(&self, pos: Coord3) -> (v: Voxel)
        requires
            self.wf(),
        ensures
            v == world_voxel(self@, pos),
    {
        let (chunk_pos, (lx, ly, lz)) = Self::world_to_chunk_local(pos);
        let key = make_chunk_key(chunk_pos);
        match self.chunks.get(&key) {
            Some(entry) => entry.1.get(lx, ly, lz),
            None => Voxel::empty(),
        }
    }

    /// Sets world point `pos` to `voxel`, creating its chunk if needed.
    pub fn set_voxel(&mut self, pos: Coord3, voxel: Voxel)
        requires
            old(self).wf(),
        ensures
            final(self).wf(),
            final(self)@ == world_set(old(self)@, pos, voxel),
    {
        let (chunk_pos, (lx, ly, lz)) = Self::world_to_chunk_local(pos);
        let key = make_chunk_key(chunk_pos);
        let ghost before = self@;
        let mut chunk = match self.chunks.remove(&key) {
            Some(entry) => entry.1,
            None => Chunk::empty(),
        };
        assert(before.contains_key(chunk_pos) ==> chunk@ == before[chunk_pos]);
        assert(!before.contains_key(chunk_pos) ==> chunk@ =~= air_chunk());
        chunk.set(lx, ly, lz, voxel);
        self.chunks.insert(key, (chunk_pos, chunk));
        proof {
            assert forall|k: u128|
                #[trigger] self.chunks@.contains_key(k) implies chunk_key(self.chunks@[k].0) == k
                    && self.chunks@[k].1.wf() by {
            }
            assert forall|p: Coord3|
                #[trigger] self@.contains_key(p) == world_set(before, pos, voxel).contains_key(p) by {
                if chunk_key(p) == chunk_key(chunk_pos) {
                    lemma_chunk_key_injective(p, chunk_pos);
                }
            }
            assert forall|p: Coord3| #[trigger] self@.contains_key(p) implies self@[p] == world_set(
                before,
                pos,
                voxel,
            )[p] by {
                if chunk_key(p) == chunk_key(chunk_pos) {
                    lemma_chunk_key_injective(p, chunk_pos);
                }
            }
            assert(self@ =~= world_set(before, pos, voxel));
        }
    }

    /// The chunk at chunk position `chunk_pos`, if it exists.
    pub fn chunk(&self, chunk_pos: Coord3) -> (c: Option<&Chunk>)
        requires
            self.wf(),
        ensures
            c is Some <==> self@.contains_key(chunk_pos),
            c matches Some(ch) ==> ch.wf() && ch@ == self@[chunk_pos],
    {
        let key = make_chunk_key(chunk_pos);
        match self.chunks.get(&key) {
            Some(entry) => Some(&entry.1),
            None => None,
        }
    }

    /// Every chunk of the world with its position, in unspecified order.
    pub fn iter_chunks(&self) -> (out: Vec<(Coord3, &Chunk)>)
        requires
            self.wf(),
        ensures
            out@.len() == self@.dom().len(),
            forall|i: int|
                0 <= i < out@.len() ==> self@.contains_key((#[trigger] out@[i]).0) && out@[i].1@
                    == self@[out@[i].0] && out@[i].1.wf(),
            forall|i: int, j: int|
                0 <= i < out@.len() && 0 <= j < out@.len() && i != j ==> (#[trigger] out@[i]).0
                    != (#[trigger] out@[j]).0,
            forall|p: Coord3|
                #[trigger] self@.contains_key(p) ==> exists|i: int|
                    0 <= i < out@.len() && (#[trigger] out@[i]).0 == p,
    {
        let mut out: Vec<(Coord3, &Chunk)> = Vec::new();
        let ghost pairs = vstd::std_specs::hash::spec_hash_map_iter(&self.chunks).remaining();
        for pair in it: self.chunks.iter()
            invariant
                self.wf(),
                it.seq() == pairs,
                out@.len() == it.index(),
                forall|i: int|
                    0 <= i < out@.len() ==> (#[trigger] out@[i]).0 == (pairs[i].1).0 && out@[i].1
                        == &(pairs[i].1).1,
        {
            out.push((pair.1.0, &pair.1.1));
        }
        proof {
            let n = self.chunks@.dom().len();
            assert(out@.len() == pairs.len());
            assert forall|i: int|
                0 <= i < out@.len() implies self@.contains_key((#[trigger] out@[i]).0) && out@[i].1@
                    == self@[out@[i].0] && out@[i].1.wf() by {
                let k = *pairs[i].0;
                assert(self.chunks@.contains_key(k));
                assert(self.chunks@[k] == *pairs[i].1);
            }
            assert forall|i: int, j: int|
                0 <= i < out@.len() && 0 <= j < out@.len() && i != j implies (#[trigger] out@[i]).0
                    != (#[trigger] out@[j]).0 by {
                let ki = *pairs[i].0;
                let kj = *pairs[j].0;
                assert(self.chunks@.contains_key(ki));
                assert(self.chunks@.contains_key(kj));
                assert(self.chunks@[ki] == *pairs[i].1);
                assert(self.chunks@[kj] == *pairs[j].1);
                assert(pairs[i] != pairs[j]);
            }
            assert forall|p: Coord3|
                #[trigger] self@.contains_key(p) implies exists|i: int|
                    0 <= i < out@.len() && (#[trigger] out@[i]).0 == p by {
                let k = chunk_key(p) as u128;
                assert(self.chunks@.contains_key(k));
                assert(pairs.contains((&k, &self.chunks@[k])));
                let i = choose|i: int| 0 <= i < pairs.len() && pairs[i] == (&k, &self.chunks@[k]);
                lemma_chunk_key_injective(self.chunks@[k].0, p);
                assert(out@[i].0 == p);
            }
        }
        proof {
            self.lemma_dom_len();
        }
        out
    }

    proof fn lemma_dom_len(&self)
        requires
            self.wf(),
        ensures
            self.chunks@.dom().len() == self@.dom().len(),
            vstd::std_specs::hash::spec_hash_map_iter(&self.chunks).remaining().len()
                == self@.dom().len(),
    {
        let f = |k: u128| self.chunks@[k].0;
        assert(self.chunks@.dom().map(f) =~= self@.dom()) by {
            assert forall|p: Coord3| self@.dom().contains(p) implies self.chunks@.dom().map(f).contains(p) by {
                let k = chunk_key(p) as u128;
                assert(self.chunks@.contains_key(k));
                lemma_chunk_key_injective(self.chunks@[k].0, p);
            }
            assert forall|p: Coord3| self.chunks@.dom().map(f).contains(p) implies self@.dom().contains(p) by {
                let k = choose|k: u128| self.chunks@.dom().contains(k) && f(k) == p;
                assert(chunk_key(p) as u128 == k);
            }
        }
        assert(vstd::relations::injective_on(f, self.chunks@.dom())) by {
            assert forall|k1: u128, k2: u128|
                self.chunks@.dom().contains(k1) && self.chunks@.dom().contains(k2) && #[trigger] f(k1) == #[trigger] f(k2)
                implies k1 == k2 by {
            }
        }
        vstd::set_lib::lemma_map_size(self.chunks@.dom(), self@.dom(), f);
    }

    /// Number of chunks created so far.
    pub fn chunk_count(&self) -> (n: usize)
        requires
            self.wf(),
        ensures
            n == self@.dom().len(),
    {
        let n = self.chunks.len();
        proof {
            self.lemma_dom_len();
        }
        n
    }
}

impl VoxelWorld {
    /// Every chunk of a well-formed world holds CHUNK_VOLUME voxels.
    pub proof fn lemma_chunks_full(&self)
        requires
            self.wf(),
        ensures
            forall|p: Coord3| #[trigger] self@.contains_key(p) ==> self@[p].len() == CHUNK_VOLUME,
    {
    }
}

/// A world point is determined by its chunk and its slot in that chunk.
pub proof fn lemma_chunk_local_injective(a: Coord3, b: Coord3)
    requires
        chunk_of(a) == chunk_of(b),
        local_index(a) == local_index(b),
    ensures
        a == b,
{
    lemma_euclid_shift(a.x as int);
    lemma_euclid_shift(a.y as int);
    lemma_euclid_shift(a.z as int);
    lemma_euclid_shift(b.x as int);
    lemma_euclid_shift(b.y as int);
    lemma_euclid_shift(b.z as int);
    crate::chunk::lemma_cell_index_injective(
        local_coord(a.x as int),
        local_coord(a.y as int),
        local_coord(a.z as int),
        local_coord(b.x as int),
        local_coord(b.y as int),
        local_coord(b.z as int),
    );
    vstd::arithmetic::div_mod::lemma_fundamental_div_mod(a.x as int, 16);
    vstd::arithmetic::div_mod::lemma_fundamental_div_mod(a.y as int, 16);
    vstd::arithmetic::div_mod::lemma_fundamental_div_mod(a.z as int, 16);
    vstd::arithmetic::div_mod::lemma_fundamental_div_mod(b.x as int, 16);
    vstd::arithmetic::div_mod::lemma_fundamental_div_mod(b.y as int, 16);
    vstd::arithmetic::div_mod::lemma_fundamental_div_mod(b.z as int, 16);
}

/// Reading a world point after writing it gives back what was written, and
/// writing one point leaves every other point as it was.
pub proof fn lemma_get_after_set(before: VoxelWorld, after: VoxelWorld, pos: Coord3, v: Voxel, q: Coord3)
    requires
        before.wf(),
        after@ == world_set(before@, pos, v),
    ensures
        world_voxel(after@, q) == (if q == pos {
            v
        } else {
            world_voxel(before@, q)
        }),
{
    before.lemma_chunks_full();
    lemma_euclid_shift(pos.x as int);
    lemma_euclid_shift(pos.y as int);
    lemma_euclid_shift(pos.z as int);
    lemma_euclid_shift(q.x as int);
    lemma_euclid_shift(q.y as int);
    lemma_euclid_shift(q.z as int);
    crate::chunk::lemma_cell_index_bounds(local_coord(pos.x as int), local_coord(pos.y as int), local_coord(pos.z as int));
    crate::chunk::lemma_cell_index_bounds(local_coord(q.x as int), local_coord(q.y as int), local_coord(q.z as int));
    if q != pos && chunk_of(q) == chunk_of(pos) {
        if local_index(q) == local_index(pos) {
            lemma_chunk_local_injective(q, pos);
        }
    }
}

impl Default for VoxelWorld {
    fn default() -> (w: VoxelWorld)
        ensures
            w.wf(),
            w@ == Map::<Coord3, Seq<Voxel>>::empty(),
    {
        Self::new()
    }
}

} // verus!
