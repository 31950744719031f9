use vstd::prelude::*;

use crate::chunk::{cell_index, in_chunk, Chunk, CHUNK_SIZE};
use crate::coord::{axis_point, coord, make_axis_point, Coord3};
use crate::mesh::MeshData;
use crate::voxel::Voxel;

verus! {

/// Side length of a mask slice (one plane of faces across a chunk).
pub const MASK_SIDE: usize = 16;

/// Number of cells in a mask slice.
pub const MASK_LEN: usize = 256;

/// What sits in one cell of a face mask: the voxel whose face is exposed
/// there and whether that face points in the negative axis direction.
pub type MaskEntry = Option<(Voxel, bool)>;

/// A rectangle of mask cells: columns i..i+w, rows j..j+h, all holding the
/// same exposed face.
#[derive(Clone, Copy, Debug)]
pub struct MaskRect {
    pub i: usize,
    pub j: usize,
    pub w: usize,
    pub h: usize,
    pub voxel: Voxel,
    pub backface: bool,
}

/// Column of mask cell `c`.
pub open spec fn col_of(c: int) -> int {
    c % (MASK_SIDE as int)
}

/// Row of mask cell `c`.
pub open spec fn row_of(c: int) -> int {
    c / (MASK_SIDE as int)
}

/// Whether rectangle `r` contains mask cell `c`.
pub open spec fn rect_has_cell(r: MaskRect, c: int) -> bool {
    &&& 0 <= c < MASK_LEN as int
    &&& r.i <= col_of(c) < r.i + r.w
    &&& r.j <= row_of(c) < r.j + r.h
}

/// The rectangle is non-degenerate and lies inside the mask.
pub open spec fn rect_in_mask(r: MaskRect) -> bool {
    &&& r.w >= 1
    &&& r.h >= 1
    &&& r.i + r.w <= MASK_SIDE
    &&& r.j + r.h <= MASK_SIDE
}

/// `rects` cut the filled cells of `mask` into uniform, non-overlapping
/// rectangles: each rectangle holds one face everywhere, no cell lies in two
/// rectangles, and every filled cell lies in one.
pub open spec fn rects_partition(mask: Seq<MaskEntry>, rects: Seq<MaskRect>) -> bool {
    &&& forall|k: int| 0 <= k < rects.len() ==> rect_in_mask(#[trigger] rects[k])
    &&& forall|k: int, c: int|
        0 <= k < rects.len() && #[trigger] rect_has_cell(rects[k], c) ==> mask[c] == Some(
            (rects[k].voxel, rects[k].backface),
        )
    &&& forall|k1: int, k2: int, c: int|
        0 <= k1 < rects.len() && 0 <= k2 < rects.len() && #[trigger] rect_has_cell(rects[k1], c)
            && #[trigger] rect_has_cell(rects[k2], c) ==> k1 == k2
    &&& forall|c: int|
        0 <= c < MASK_LEN as int && (#[trigger] mask[c]) is Some ==> exists|k: int|
            0 <= k < rects.len() && #[trigger] rect_has_cell(rects[k], c)
}

/// Cell `c` lies in one of the first `k` rectangles.
pub open spec fn covered_before(rects: Seq<MaskRect>, k: int, c: int) -> bool {
    exists|k2: int| 0 <= k2 < k && #[trigger] rect_has_cell(rects[k2], c)
}

/// Rectangle k is the greedy choice after rectangles 0..k: it starts at the
/// first filled cell (in row-major order) that no earlier rectangle covers,
/// it cannot be widened by the next cell of its row, and the row below it
/// (if any) has a cell under it that does not continue it.
pub open spec fn greedy_choice(mask: Seq<MaskEntry>, rects: Seq<MaskRect>, k: int) -> bool {
    let r = rects[k];
    let e = Some((r.voxel, r.backface));
    let s = r.i + r.j * MASK_SIDE;
    &&& forall|c: int| 0 <= c < s ==> (#[trigger] mask[c]) is None || covered_before(rects, k, c)
    &&& (r.i + r.w == MASK_SIDE || mask[s + r.w] != e || covered_before(rects, k, s + r.w))
    &&& (r.j + r.h == MASK_SIDE || exists|c: int|
        0 <= c < MASK_LEN as int && row_of(c) == r.j + r.h && r.i <= col_of(c) < r.i + r.w && (
        #[trigger] mask[c] != e || covered_before(rects, k, c)))
}

/// Every rectangle is the greedy choice after the ones before it.
pub open spec fn greedy_sequence(mask: Seq<MaskEntry>, rects: Seq<MaskRect>) -> bool {
    forall|k: int| 0 <= k < rects.len() ==> greedy_choice(mask, rects, k)
}

proof fn lemma_covered_before_push(rects: Seq<MaskRect>, r: MaskRect, k: int, c: int)
    requires
        0 <= k <= rects.len(),
        covered_before(rects, k, c),
    ensures
        covered_before(rects.push(r), k, c),
{
    let k2 = choose|k2: int| 0 <= k2 < k && #[trigger] rect_has_cell(rects[k2], c);
    assert(rects.push(r)[k2] == rects[k2]);
}

proof fn lemma_greedy_choice_push(mask: Seq<MaskEntry>, rects: Seq<MaskRect>, r: MaskRect, k: int)
    requires
        0 <= k < rects.len(),
        greedy_choice(mask, rects, k),
    ensures
        greedy_choice(mask, rects.push(r), k),
{
    let rs = rects.push(r);
    assert(rs[k] == rects[k]);
    let q = rects[k];
    let e = Some((q.voxel, q.backface));
    let s = q.i + q.j * MASK_SIDE;
    assert forall|c: int| 0 <= c < s implies (#[trigger] mask[c]) is None || covered_before(rs, k, c) by {
        if covered_before(rects, k, c) {
            lemma_covered_before_push(rects, r, k, c);
        }
    }
    if !(q.i + q.w == MASK_SIDE || mask[s + q.w] != e) {
        lemma_covered_before_push(rects, r, k, s + q.w);
    }
    if q.j + q.h != MASK_SIDE {
        let c = choose|c: int|
            0 <= c < MASK_LEN as int && row_of(c) == q.j + q.h && q.i <= col_of(c) < q.i + q.w && (
            #[trigger] mask[c] != e || covered_before(rects, k, c));
        if mask[c] == e {
            lemma_covered_before_push(rects, r, k, c);
        }
    }
}

/// Row and column of the cell at column `col` of row `row`.
proof fn lemma_cell_row_col(col: int, row: int)
    requires
        0 <= col < MASK_SIDE,
        0 <= row,
    ensures
        row_of(col + row * MASK_SIDE) == row,
        col_of(col + row * MASK_SIDE) == col,
{
    vstd::arithmetic::div_mod::lemma_fundamental_div_mod_converse(col + row * 16, 16, row, col);
}

fn same_entry(m: &MaskEntry, entry: (Voxel, bool)) -> (b: bool)
    ensures
        b == (*m == Some(entry)),
{
    match m {
        Some(e) => (e.0).0 == (entry.0).0 && e.1 == entry.1,
        None => false,
    }
}

/// Greedy rectangle extraction: scans the mask row by row and, at each
/// filled cell, grows the widest run of equal faces along the row, then as
/// many further rows as match that run, and clears the covered cells.
pub fn greedy_rects(mask_in: Vec<MaskEntry>) -> (rects: Vec<MaskRect>)
    requires
        mask_in@.len() == MASK_LEN as int,
    ensures
        rects_partition(mask_in@, rects@),
        greedy_sequence(mask_in@, rects@),
        rects@.len() <= MASK_LEN as int,
{
    let ghost orig = mask_in@;
    let mut mask = mask_in;
    let ghost mut owner: Seq<int> = Seq::new(MASK_LEN as nat, |c: int| -1int);
    let mut rects: Vec<MaskRect> = Vec::new();
    let mut n: usize = 0;
    let mut j: usize = 0;
    while j < MASK_SIDE
        invariant
            j <= MASK_SIDE,
            n == j * MASK_SIDE,
            mask@.len() == MASK_LEN as int,
            orig.len() == MASK_LEN as int,
            owner.len() == MASK_LEN as int,
            rects@.len() <= n,
            forall|k: int| 0 <= k < rects@.len() ==> rect_in_mask(#[trigger] rects@[k]),
            forall|c: int|
                0 <= c < MASK_LEN as int ==> #[trigger] mask@[c] == (if owner[c] >= 0 {
                    None
                } else {
                    orig[c]
                }),
            forall|c: int|
                0 <= c < MASK_LEN as int && #[trigger] owner[c] >= 0 ==> owner[c] < rects@.len()
                    && rect_has_cell(rects@[owner[c]], c),
            forall|k: int, c: int|
                0 <= k < rects@.len() && #[trigger] rect_has_cell(rects@[k], c) ==> owner[c] == k,
            forall|k: int, c: int|
                0 <= k < rects@.len() && #[trigger] rect_has_cell(rects@[k], c) ==> orig[c] == Some(
                    (rects@[k].voxel, rects@[k].backface),
                ),
            forall|c: int| 0 <= c < n ==> (#[trigger] mask@[c]) is None,
            greedy_sequence(orig, rects@),
        decreases MASK_SIDE - j,
    {
        let mut i: usize = 0;
        while i < MASK_SIDE
            invariant
                j < MASK_SIDE,
                i <= MASK_SIDE,
                n == j * MASK_SIDE + i,
                mask@.len() == MASK_LEN as int,
                orig.len() == MASK_LEN as int,
                owner.len() == MASK_LEN as int,
                rects@.len() <= n,
                forall|k: int| 0 <= k < rects@.len() ==> rect_in_mask(#[trigger] rects@[k]),
                forall|c: int|
                    0 <= c < MASK_LEN as int ==> #[trigger] mask@[c] == (if owner[c] >= 0 {
                        None
                    } else {
                        orig[c]
                    }),
                forall|c: int|
                    0 <= c < MASK_LEN as int && #[trigger] owner[c] >= 0 ==> owner[c]
                        < rects@.len() && rect_has_cell(rects@[owner[c]], c),
                forall|k: int, c: int|
                    0 <= k < rects@.len() && #[trigger] rect_has_cell(rects@[k], c) ==> owner[c]
                        == k,
                forall|k: int, c: int|
                    0 <= k < rects@.len() && #[trigger] rect_has_cell(rects@[k], c) ==> orig[c]
                        == Some((rects@[k].voxel, rects@[k].backface)),
                forall|c: int| 0 <= c < n ==> (#[trigger] mask@[c]) is None,
                greedy_sequence(orig, rects@),
            decreases MASK_SIDE - i,
        {
            match mask[n] {
                Some(entry) => {
                    // Widest run of this face along the row.
                    let mut w: usize = 1;
                    while i + w < MASK_SIDE && same_entry(&mask[n + w], entry)
                        invariant
                            j < MASK_SIDE,
                            i < MASK_SIDE,
                            n == j * MASK_SIDE + i,
                            1 <= w,
                            i + w <= MASK_SIDE,
                            mask@.len() == MASK_LEN as int,
                            forall|c: int| n <= c < n + w ==> #[trigger] mask@[c] == Some(entry),
                        decreases MASK_SIDE - w,
                    {
                        w = w + 1;
                    }
                    // As many following rows as repeat that run.
                    let mut h: usize = 1;
                    let mut growing = true;
                    let ghost mut fail: int = 0;
                    while growing && j + h < MASK_SIDE
                        invariant
                            !growing ==> 0 <= fail < MASK_LEN as int && row_of(fail) == j + h && i
                                <= col_of(fail) < i + w && mask@[fail] != Some(entry),
                            j < MASK_SIDE,
                            i < MASK_SIDE,
                            n == j * MASK_SIDE + i,
                            1 <= w,
                            i + w <= MASK_SIDE,
                            1 <= h,
                            j + h <= MASK_SIDE,
                            mask@.len() == MASK_LEN as int,
                            forall|c: int|
                                #[trigger] rect_has_cell(
                                    MaskRect { i, j, w, h, voxel: entry.0, backface: entry.1 },
                                    c,
                                ) ==> mask@[c] == Some(entry),
                        decreases 2 * (MASK_SIDE - h) + (if growing { 1int } else { 0int }),
                    {
                        let mut k: usize = 0;
                        let mut row_ok = true;
                        while row_ok && k < w
                            invariant
                                j < MASK_SIDE,
                                i < MASK_SIDE,
                                n == j * MASK_SIDE + i,
                                i + w <= MASK_SIDE,
                                j + h < MASK_SIDE,
                                k <= w,
                                mask@.len() == MASK_LEN as int,
                                row_ok ==> forall|c: int|
                                    n + h * MASK_SIDE <= c < n + h * MASK_SIDE + k
                                        ==> #[trigger] mask@[c] == Some(entry),
                                !row_ok ==> k < w && fail == n + k + h * MASK_SIDE && mask@[fail]
                                    != Some(entry),
                            decreases 2 * (w - k) + (if row_ok { 1int } else { 0int }),
                        {
                            if same_entry(&mask[n + k + h * MASK_SIDE], entry) {
                                k = k + 1;
                            } else {
                                row_ok = false;
                                proof {
                                    fail = (n + k + h * MASK_SIDE) as int;
                                }
                            }
                        }
                        if row_ok {
                            let ghost r0 = MaskRect { i, j, w, h, voxel: entry.0, backface: entry.1 };
                            let ghost r1 = MaskRect { i, j, w, h: (h + 1) as usize, voxel: entry.0, backface: entry.1 };
                            assert forall|c: int| #[trigger] rect_has_cell(r1, c) implies mask@[c] == Some(entry) by {
                                if row_of(c) < j + h {
                                    assert(rect_has_cell(r0, c));
                                } else {
                                    assert(c == row_of(c) * 16 + col_of(c));
                                    assert(n + h * MASK_SIDE <= c < n + h * MASK_SIDE + w);
                                }
                            }
                            h = h + 1;
                        } else {
                            proof {
                                lemma_cell_row_col(i + k, j + h);
                            }
                            growing = false;
                        }
                    }
                    let rect = MaskRect { i, j, w, h, voxel: entry.0, backface: entry.1 };
                    let ghost kidx = rects@.len() as int;
                    let ghost owner0 = owner;
                    let ghost mask0 = mask@;
                    assert forall|c: int| #[trigger] rect_has_cell(rect, c) implies owner0[c] < 0 && orig[c] == Some(entry) by {
                        assert(mask0[c] == Some(entry));
                    }
                    let ghost rects0 = rects@;
                    rects.push(rect);
                    proof {
                        owner = Seq::new(MASK_LEN as nat, |c: int| if rect_has_cell(rect, c) { kidx } else { owner0[c] });
                        assert(rects@ == rects0.push(rect));
                        let e = Some((rect.voxel, rect.backface));
                        assert forall|c: int| 0 <= c < n implies (#[trigger] orig[c]) is None || covered_before(rects@, kidx, c) by {
                            assert(mask0[c] is None);
                            if owner0[c] >= 0 {
                                assert(owner0[c] < kidx);
                                assert(rects@[owner0[c]] == rects0[owner0[c]]);
                                assert(rect_has_cell(rects@[owner0[c]], c));
                            } else {
                                assert(mask0[c] == orig[c]);
                            }
                        }
                        assert(rect_in_mask(rect));
                        if !(i + w == MASK_SIDE || orig[n + w] != e) {
                            assert(mask0[n + w as int] != Some(entry));
                            assert(owner0[n + w as int] >= 0);
                            assert(rect_has_cell(rects@[owner0[n + w as int]], n + w as int));
                        }
                        if j + h != MASK_SIDE {
                            assert(!growing);
                            if orig[fail] == e {
                                assert(owner0[fail] >= 0);
                                assert(rect_has_cell(rects@[owner0[fail]], fail));
                                assert(covered_before(rects@, kidx, fail));
                            }
                        }
                        assert(greedy_choice(orig, rects@, kidx));
                        assert forall|k2: int| 0 <= k2 < rects@.len() implies greedy_choice(orig, rects@, k2) by {
                            if k2 < kidx {
                                lemma_greedy_choice_push(orig, rects0, rect, k2);
                            }
                        }
                    }
                    // Clear the covered cells.
                    let mut l: usize = 0;
                    while l < h
                        invariant
                            j < MASK_SIDE,
                            i < MASK_SIDE,
                            n == j * MASK_SIDE + i,
                            i + w <= MASK_SIDE,
                            j + h <= MASK_SIDE,
                            l <= h,
                            rect == (MaskRect { i, j, w, h, voxel: entry.0, backface: entry.1 }),
                            mask@.len() == MASK_LEN as int,
                            forall|c: int|
                                0 <= c < MASK_LEN as int ==> #[trigger] mask@[c] == (if rect_has_cell(rect, c) && row_of(c) < j + l {
                                    None
                                } else {
                                    mask0[c]
                                }),
                        decreases h - l,
                    {
                        let mut k: usize = 0;
                        while k < w
                            invariant
                                j < MASK_SIDE,
                                i < MASK_SIDE,
                                n == j * MASK_SIDE + i,
                                i + w <= MASK_SIDE,
                                j + h <= MASK_SIDE,
                                l < h,
                                k <= w,
                                rect == (MaskRect { i, j, w, h, voxel: entry.0, backface: entry.1 }),
                                mask@.len() == MASK_LEN as int,
                                forall|c: int|
                                    0 <= c < MASK_LEN as int ==> #[trigger] mask@[c] == (if rect_has_cell(rect, c) && (row_of(c) < j + l || (row_of(c) == j + l && col_of(c) < i + k)) {
                                        None
                                    } else {
                                        mask0[c]
                                    }),
                            decreases w - k,
                        {
                            mask[n + k + l * MASK_SIDE] = None;
                            k = k + 1;
                        }
                        l = l + 1;
                    }
                    i = i + w;
                    n = n + w;
                },
                None => {
                    i = i + 1;
                    n = n + 1;
                },
            }
        }
        j = j + 1;
    }
    proof {
        assert forall|c: int|
            0 <= c < MASK_LEN as int && (#[trigger] orig[c]) is Some implies exists|k: int|
                0 <= k < rects@.len() && #[trigger] rect_has_cell(rects@[k], c) by {
            assert(mask@[c] is None);
            assert(rect_has_cell(rects@[owner[c]], c));
        }
    }
    rects
}


/// Chunk size as a signed coordinate bound.
pub const SIZE: i32 = 16;

/// The voxel at point `p`, or air when `p` lies outside the chunk.
pub open spec fn sample_at(chunk: Seq<Voxel>, p: (int, int, int)) -> Voxel {
    if in_chunk(p.0, p.1, p.2) {
        chunk[cell_index(p.0, p.1, p.2)]
    } else {
        Voxel(0)
    }
}

/// The exposed face between the cell just below plane `p` along axis `d`
/// and the cell just above it, at in-plane position (i, j): the solid side's
/// voxel and whether the face points towards negative `d`.
pub open spec fn face_entry(chunk: Seq<Voxel>, d: int, p: int, i: int, j: int) -> MaskEntry {
    let a = sample_at(chunk, axis_point(d, p - 1, i, j));
    let b = sample_at(chunk, axis_point(d, p, i, j));
    if !a.spec_is_empty() && b.spec_is_empty() {
        Some((a, false))
    } else if a.spec_is_empty() && !b.spec_is_empty() {
        Some((b, true))
    } else {
        None
    }
}

/// `face_entry` at mask cell `c` of plane `p` along axis `d`.
pub open spec fn face_at(chunk: Seq<Voxel>, d: int, p: int, c: int) -> MaskEntry {
    face_entry(chunk, d, p, col_of(c), row_of(c))
}

/// The voxel at (x, y, z), treating everything outside the chunk as air.
pub fn sample(chunk: &Chunk, x: i32, y: i32, z: i32) -> (v: Voxel)
    requires
        chunk.wf(),
    ensures
        v == sample_at(chunk@, (x as int, y as int, z as int)),
{
    if x < 0 || y < 0 || z < 0 || x >= SIZE || y >= SIZE || z >= SIZE {
        Voxel::empty()
    } else {
        chunk.get(x as usize, y as usize, z as usize)
    }
}

/// The face mask of plane `plane` along axis `axis`; cell i + j*16 holds the
/// face at in-plane position (i, j).
pub fn build_mask(chunk: &Chunk, axis: usize, plane: usize) -> (mask: Vec<MaskEntry>)
    requires
        chunk.wf(),
        axis < 3,
        plane <= CHUNK_SIZE,
    ensures
        mask@.len() == MASK_LEN as int,
        forall|c: int|
            0 <= c < MASK_LEN as int ==> #[trigger] mask@[c] == face_at(
                chunk@,
                axis as int,
                plane as int,
                c,
            ),
{
    let mut mask: Vec<MaskEntry> = Vec::with_capacity(MASK_LEN);
    let mut xv: usize = 0;
    while xv < MASK_SIDE
        invariant
            chunk.wf(),
            axis < 3,
            plane <= CHUNK_SIZE,
            xv <= MASK_SIDE,
            mask@.len() == xv * MASK_SIDE,
            forall|c: int|
                0 <= c < mask@.len() ==> #[trigger] mask@[c] == face_at(
                    chunk@,
                    axis as int,
                    plane as int,
                    c,
                ),
        decreases MASK_SIDE - xv,
    {
        let mut xu: usize = 0;
        while xu < MASK_SIDE
            invariant
                chunk.wf(),
                axis < 3,
                plane <= CHUNK_SIZE,
                xv < MASK_SIDE,
                xu <= MASK_SIDE,
                mask@.len() == xv * MASK_SIDE + xu,
                forall|c: int|
                    0 <= c < mask@.len() ==> #[trigger] mask@[c] == face_at(
                        chunk@,
                        axis as int,
                        plane as int,
                        c,
                    ),
            decreases MASK_SIDE - xu,
        {
            let pa = make_axis_point(axis, plane as i32 - 1, xu as i32, xv as i32);
            let pb = make_axis_point(axis, plane as i32, xu as i32, xv as i32);
            let a = sample(chunk, pa.x, pa.y, pa.z);
            let b = sample(chunk, pb.x, pb.y, pb.z);
            let entry: MaskEntry = if !a.is_empty() && b.is_empty() {
                Some((a, false))
            } else if a.is_empty() && !b.is_empty() {
                Some((b, true))
            } else {
                None
            };
            let ghost c = mask@.len() as int;
            assert(col_of(c) == xu && row_of(c) == xv);
            mask.push(entry);
            xu = xu + 1;
        }
        xv = xv + 1;
    }
    mask
}

/// One greedy quad: rectangle `rect` of the face mask of plane `plane`
/// along axis `axis`.
pub struct Quad {
    pub axis: usize,
    pub plane: usize,
    pub rect: MaskRect,
}

/// Sum of two integer points.
pub open spec fn add3(a: (int, int, int), b: (int, int, int)) -> (int, int, int) {
    (a.0 + b.0, a.1 + b.1, a.2 + b.2)
}

/// Which corner of the rectangle (0: origin, 1: +u, 2: +u+v, 3: +v) the
/// m-th vertex of a quad is; back faces run the corners in reverse.
pub open spec fn corner_of_vertex(backface: bool, m: int) -> int {
    if backface {
        (4 - m) % 4
    } else {
        m
    }
}

/// The m-th vertex of a quad with origin `x` and edges `du`, `dv`.
pub open spec fn emit_corner(
    x: (int, int, int),
    du: (int, int, int),
    dv: (int, int, int),
    backface: bool,
    m: int,
) -> (int, int, int) {
    let k = corner_of_vertex(backface, m);
    if k == 0 {
        x
    } else if k == 1 {
        add3(x, du)
    } else if k == 2 {
        add3(add3(x, du), dv)
    } else {
        add3(x, dv)
    }
}

/// The unit normal of a face along axis `d`.
pub open spec fn face_normal(d: int, backface: bool) -> (int, int, int) {
    axis_point(d, if backface { -1 } else { 1 }, 0, 0)
}

/// Offsets of the six indices of a quad's two triangles from its first vertex.
pub open spec fn index_pattern(t: int) -> int {
    if t == 0 {
        0
    } else if t == 1 {
        1
    } else if t == 2 {
        2
    } else if t == 3 {
        0
    } else if t == 4 {
        2
    } else {
        3
    }
}

/// The m-th vertex of quad `q` in voxel space.
pub open spec fn quad_corner(q: Quad, m: int) -> (int, int, int) {
    let r = q.rect;
    let d = q.axis as int;
    emit_corner(
        axis_point(d, q.plane as int, r.i as int, r.j as int),
        axis_point(d, 0, r.w as int, 0),
        axis_point(d, 0, 0, r.h as int),
        r.backface,
        m,
    )
}

/// `mesh` is exactly the rendering of `qs`, in order: quad k owns vertices
/// 4k..4k+4 and indices 6k..6k+6.
pub open spec fn mesh_renders(mesh: MeshData, qs: Seq<Quad>) -> bool {
    &&& mesh.positions@.len() == 4 * qs.len()
    &&& mesh.normals@.len() == 4 * qs.len()
    &&& mesh.voxel_ids@.len() == 4 * qs.len()
    &&& mesh.indices@.len() == 6 * qs.len()
    &&& forall|v: int|
        0 <= v < mesh.positions@.len() ==> (#[trigger] mesh.positions@[v]).as_ints() == quad_corner(
            qs[v / 4],
            v % 4,
        )
    &&& forall|v: int|
        0 <= v < mesh.normals@.len() ==> (#[trigger] mesh.normals@[v]).as_ints() == face_normal(
            qs[v / 4].axis as int,
            qs[v / 4].rect.backface,
        )
    &&& forall|v: int|
        0 <= v < mesh.voxel_ids@.len() ==> #[trigger] mesh.voxel_ids@[v] == qs[v / 4].rect.voxel.0
    &&& forall|t: int|
        0 <= t < mesh.indices@.len() ==> #[trigger] mesh.indices@[t] == 4 * (t / 6) + index_pattern(
            t % 6,
        )
}

/// Quad `q` covers mask cell `c` of plane `p` along axis `d`.
pub open spec fn quad_has_face(q: Quad, d: int, p: int, c: int) -> bool {
    q.axis == d && q.plane == p && rect_has_cell(q.rect, c)
}

/// The quads cut the exposed faces of the chunk into uniform,
/// non-overlapping rectangles that together cover every exposed face.
pub open spec fn faces_partitioned(chunk: Seq<Voxel>, qs: Seq<Quad>) -> bool {
    &&& forall|k: int|
        0 <= k < qs.len() ==> (#[trigger] qs[k]).axis < 3 && qs[k].plane <= CHUNK_SIZE
            && rect_in_mask(qs[k].rect)
    &&& forall|k: int, c: int|
        0 <= k < qs.len() && #[trigger] rect_has_cell(qs[k].rect, c) ==> face_at(
            chunk,
            qs[k].axis as int,
            qs[k].plane as int,
            c,
        ) == Some((qs[k].rect.voxel, qs[k].rect.backface))
    &&& forall|k1: int, k2: int, c: int|
        0 <= k1 < qs.len() && 0 <= k2 < qs.len() && qs[k1].axis == qs[k2].axis && qs[k1].plane
            == qs[k2].plane && #[trigger] rect_has_cell(qs[k1].rect, c) && #[trigger] rect_has_cell(
            qs[k2].rect,
            c,
        ) ==> k1 == k2
    &&& forall|d: int, p: int, c: int|
        0 <= d < 3 && 0 <= p <= CHUNK_SIZE && 0 <= c < MASK_LEN as int && (#[trigger] face_at(
            chunk,
            d,
            p,
            c,
        )) is Some ==> exists|k: int| 0 <= k < qs.len() && #[trigger] quad_has_face(qs[k], d, p, c)
}

/// Face c of plane p along axis d lies in one of the first k quads.
pub open spec fn quad_covered_before(qs: Seq<Quad>, k: int, d: int, p: int, c: int) -> bool {
    exists|k2: int| 0 <= k2 < k && #[trigger] quad_has_face(qs[k2], d, p, c)
}

/// Quad k is the greedy choice within its slice after the quads before it
/// (see `greedy_choice`, with the slice's face mask).
pub open spec fn quad_greedy(chunk: Seq<Voxel>, qs: Seq<Quad>, k: int) -> bool {
    let q = qs[k];
    let r = q.rect;
    let d = q.axis as int;
    let p = q.plane as int;
    let e = Some((r.voxel, r.backface));
    let s = r.i + r.j * MASK_SIDE;
    &&& forall|c: int|
        0 <= c < s ==> (#[trigger] face_at(chunk, d, p, c)) is None || quad_covered_before(qs, k, d, p, c)
    &&& (r.i + r.w == MASK_SIDE || face_at(chunk, d, p, s + r.w) != e || quad_covered_before(
        qs,
        k,
        d,
        p,
        s + r.w,
    ))
    &&& (r.j + r.h == MASK_SIDE || exists|c: int|
        0 <= c < MASK_LEN as int && row_of(c) == r.j + r.h && r.i <= col_of(c) < r.i + r.w && (
        #[trigger] face_at(chunk, d, p, c) != e || quad_covered_before(qs, k, d, p, c)))
}

/// The quads come slice after slice (axes in turn, planes in turn), and each
/// is the greedy choice within its slice.
pub open spec fn mesh_is_greedy(chunk: Seq<Voxel>, qs: Seq<Quad>) -> bool {
    &&& forall|k1: int, k2: int|
        0 <= k1 < k2 < qs.len() ==> slice_rank(#[trigger] qs[k1].axis as int, qs[k1].plane as int)
            <= slice_rank(#[trigger] qs[k2].axis as int, qs[k2].plane as int)
    &&& forall|k: int| 0 <= k < qs.len() ==> quad_greedy(chunk, qs, k)
}

proof fn lemma_quad_covered_push(qs: Seq<Quad>, q: Quad, k: int, d: int, p: int, c: int)
    requires
        0 <= k <= qs.len(),
        quad_covered_before(qs, k, d, p, c),
    ensures
        quad_covered_before(qs.push(q), k, d, p, c),
{
    let k2 = choose|k2: int| 0 <= k2 < k && #[trigger] quad_has_face(qs[k2], d, p, c);
    assert(qs.push(q)[k2] == qs[k2]);
}

proof fn lemma_quad_greedy_push(chunk: Seq<Voxel>, qs: Seq<Quad>, q: Quad, k: int)
    requires
        0 <= k < qs.len(),
        quad_greedy(chunk, qs, k),
    ensures
        quad_greedy(chunk, qs.push(q), k),
{
    let qn = qs.push(q);
    assert(qn[k] == qs[k]);
    let r = qs[k].rect;
    let d = qs[k].axis as int;
    let p = qs[k].plane as int;
    let e = Some((r.voxel, r.backface));
    let s = r.i + r.j * MASK_SIDE;
    assert forall|c: int| 0 <= c < s implies (#[trigger] face_at(chunk, d, p, c)) is None
        || quad_covered_before(qn, k, d, p, c) by {
        if quad_covered_before(qs, k, d, p, c) {
            lemma_quad_covered_push(qs, q, k, d, p, c);
        }
    }
    if !(r.i + r.w == MASK_SIDE || face_at(chunk, d, p, s + r.w) != e) {
        lemma_quad_covered_push(qs, q, k, d, p, s + r.w);
    }
    if r.j + r.h != MASK_SIDE {
        let c = choose|c: int|
            0 <= c < MASK_LEN as int && row_of(c) == r.j + r.h && r.i <= col_of(c) < r.i + r.w && (
            #[trigger] face_at(chunk, d, p, c) != e || quad_covered_before(qs, k, d, p, c));
        if face_at(chunk, d, p, c) == e {
            lemma_quad_covered_push(qs, q, k, d, p, c);
        }
    }
}

/// The greedy choice of a rectangle within a slice's mask makes its quad
/// the greedy choice within the mesh.
proof fn lemma_lift_greedy(
    chunk: Seq<Voxel>,
    qs: Seq<Quad>,
    start: int,
    rects: Seq<MaskRect>,
    ri: int,
    axis: usize,
    plane: usize,
    mask: Seq<MaskEntry>,
)
    requires
        0 <= start,
        0 <= ri < rects.len(),
        qs.len() == start + ri + 1,
        forall|t: int| start <= t < qs.len() ==> #[trigger] qs[t] == (Quad { axis, plane, rect: rects[t - start] }),
        mask.len() == MASK_LEN as int,
        forall|c: int| 0 <= c < MASK_LEN as int ==> #[trigger] mask[c] == face_at(chunk, axis as int, plane as int, c),
        greedy_choice(mask, rects, ri),
        rect_in_mask(rects[ri]),
    ensures
        quad_greedy(chunk, qs, start + ri),
{
    let k = start + ri;
    assert(qs[k] == (Quad { axis, plane, rect: rects[ri] }));
    let r = rects[ri];
    let d = axis as int;
    let p = plane as int;
    let e = Some((r.voxel, r.backface));
    let s = r.i + r.j * MASK_SIDE;
    assert forall|c: int| covered_before(rects, ri, c) implies quad_covered_before(qs, k, d, p, c) by {
        let k2 = choose|k2: int| 0 <= k2 < ri && #[trigger] rect_has_cell(rects[k2], c);
        assert(qs[start + k2] == (Quad { axis, plane, rect: rects[k2] }));
        assert(quad_has_face(qs[start + k2], d, p, c));
    }
    assert forall|c: int| 0 <= c < s implies (#[trigger] face_at(chunk, d, p, c)) is None
        || quad_covered_before(qs, k, d, p, c) by {
        assert(mask[c] == face_at(chunk, d, p, c));
    }
    if r.i + r.w != MASK_SIDE {
        assert(mask[s + r.w] == face_at(chunk, d, p, s + r.w));
    }
    if r.j + r.h != MASK_SIDE {
        let c = choose|c: int|
            0 <= c < MASK_LEN as int && row_of(c) == r.j + r.h && r.i <= col_of(c) < r.i + r.w && (
            #[trigger] mask[c] != e || covered_before(rects, ri, c));
        assert(mask[c] == face_at(chunk, d, p, c));
    }
}

/// Coordinates no larger than twice the chunk size.
pub open spec fn small_point(p: Coord3) -> bool {
    -32 <= p.x <= 32 && -32 <= p.y <= 32 && -32 <= p.z <= 32
}

/// Appends one quad (four vertices, two triangles) with origin `x` and edges
/// `du`, `dv`, facing along `axis` (negative when `backface`).
pub fn emit_quad(
    mesh: &mut MeshData,
    x: Coord3,
    du: Coord3,
    dv: Coord3,
    axis: usize,
    backface: bool,
    voxel: Voxel,
)
    requires
        axis < 3,
        small_point(x),
        small_point(du),
        small_point(dv),
        old(mesh).positions@.len() + 4 <= u32::MAX,
    ensures
        final(mesh).positions@.len() == old(mesh).positions@.len() + 4,
        final(mesh).normals@.len() == old(mesh).normals@.len() + 4,
        final(mesh).voxel_ids@.len() == old(mesh).voxel_ids@.len() + 4,
        final(mesh).indices@.len() == old(mesh).indices@.len() + 6,
        forall|v: int|
            0 <= v < old(mesh).positions@.len() ==> #[trigger] final(mesh).positions@[v] == old(
                mesh,
            ).positions@[v],
        forall|v: int|
            0 <= v < old(mesh).normals@.len() ==> #[trigger] final(mesh).normals@[v] == old(
                mesh,
            ).normals@[v],
        forall|v: int|
            0 <= v < old(mesh).voxel_ids@.len() ==> #[trigger] final(mesh).voxel_ids@[v] == old(
                mesh,
            ).voxel_ids@[v],
        forall|t: int|
            0 <= t < old(mesh).indices@.len() ==> #[trigger] final(mesh).indices@[t] == old(
                mesh,
            ).indices@[t],
        forall|m: int|
            0 <= m < 4 ==> (#[trigger] final(mesh).positions@[old(mesh).positions@.len() + m]).as_ints()
                == emit_corner(x.as_ints(), du.as_ints(), dv.as_ints(), backface, m),
        forall|m: int|
            0 <= m < 4 ==> (#[trigger] final(mesh).normals@[old(mesh).normals@.len() + m]).as_ints()
                == face_normal(axis as int, backface),
        forall|m: int|
            0 <= m < 4 ==> #[trigger] final(mesh).voxel_ids@[old(mesh).voxel_ids@.len() + m]
                == voxel.0,
        forall|t: int|
            0 <= t < 6 ==> #[trigger] final(mesh).indices@[old(mesh).indices@.len() + t]
                == old(mesh).positions@.len() + index_pattern(t),
{
    let p0 = x;
    let p1 = Coord3 { x: x.x + du.x, y: x.y + du.y, z: x.z + du.z };
    let p2 = Coord3 { x: x.x + du.x + dv.x, y: x.y + du.y + dv.y, z: x.z + du.z + dv.z };
    let p3 = Coord3 { x: x.x + dv.x, y: x.y + dv.y, z: x.z + dv.z };

    let normal = make_axis_point(axis, if backface { -1 } else { 1 }, 0, 0);

    let verts = if backface {
        [p0, p3, p2, p1]
    } else {
        [p0, p1, p2, p3]
    };

    let base = mesh.positions.len() as u32;
    let mut k: usize = 0;
    while k < 4
        invariant
            k <= 4,
            base as int == old(mesh).positions@.len(),
            mesh.positions@.len() == old(mesh).positions@.len() + k,
            mesh.normals@.len() == old(mesh).normals@.len() + k,
            mesh.voxel_ids@.len() == old(mesh).voxel_ids@.len() + k,
            mesh.indices@ == old(mesh).indices@,
            forall|v: int|
                0 <= v < old(mesh).positions@.len() ==> #[trigger] mesh.positions@[v] == old(
                    mesh,
                ).positions@[v],
            forall|v: int|
                0 <= v < old(mesh).normals@.len() ==> #[trigger] mesh.normals@[v] == old(
                    mesh,
                ).normals@[v],
            forall|v: int|
                0 <= v < old(mesh).voxel_ids@.len() ==> #[trigger] mesh.voxel_ids@[v] == old(
                    mesh,
                ).voxel_ids@[v],
            forall|m: int|
                0 <= m < k ==> (#[trigger] mesh.positions@[old(mesh).positions@.len() + m]) == verts[m],
            forall|m: int|
                0 <= m < k ==> (#[trigger] mesh.normals@[old(mesh).normals@.len() + m]) == normal,
            forall|m: int|
                0 <= m < k ==> #[trigger] mesh.voxel_ids@[old(mesh).voxel_ids@.len() + m] == voxel.0,
        decreases 4 - k,
    {
        mesh.positions.push(verts[k]);
        mesh.normals.push(normal);
        mesh.voxel_ids.push(voxel.0);
        k = k + 1;
    }
    mesh.indices.push(base);
    mesh.indices.push(base + 1);
    mesh.indices.push(base + 2);
    mesh.indices.push(base);
    mesh.indices.push(base + 2);
    mesh.indices.push(base + 3);
    proof {
        assert forall|m: int| 0 <= m < 4 implies (#[trigger] mesh.positions@[old(mesh).positions@.len() + m]).as_ints()
            == emit_corner(x.as_ints(), du.as_ints(), dv.as_ints(), backface, m) by {
            assert(mesh.positions@[old(mesh).positions@.len() + m] == verts[m]);
        }
    }
}


/// Rank of a slice in meshing order: axes in turn, planes in turn.
pub open spec fn slice_rank(d: int, p: int) -> int {
    d * (CHUNK_SIZE as int + 1) + p
}

/// An air-only chunk exposes no face.
proof fn lemma_empty_chunk_no_faces(chunk: Seq<Voxel>, d: int, p: int, c: int)
    requires
        chunk.len() == crate::chunk::CHUNK_VOLUME as int,
        Chunk::all_empty(chunk),
    ensures
        face_at(chunk, d, p, c) is None,
{
    let pa = axis_point(d, p - 1, col_of(c), row_of(c));
    let pb = axis_point(d, p, col_of(c), row_of(c));
    if in_chunk(pa.0, pa.1, pa.2) {
        crate::chunk::lemma_cell_index_bounds(pa.0, pa.1, pa.2);
    }
    if in_chunk(pb.0, pb.1, pb.2) {
        crate::chunk::lemma_cell_index_bounds(pb.0, pb.1, pb.2);
    }
}

/// Greedy meshing: for every axis and every plane across the chunk, builds
/// the mask of exposed faces and merges it into maximal rectangles, one quad
/// each. The result renders, quad after quad, a set of rectangles that
/// partitions the exposed faces of the chunk.
pub fn greedy_mesh(chunk: &Chunk) -> (mesh: MeshData)
    requires
        chunk.wf(),
    ensures
        exists|qs: Seq<Quad>|
            mesh_renders(mesh, qs) && faces_partitioned(chunk@, qs) && mesh_is_greedy(chunk@, qs),
{
    let mut mesh = MeshData::new();
    let ghost mut qs: Seq<Quad> = Seq::empty();

    if chunk.is_empty() {
        proof {
            assert forall|d: int, p: int, c: int|
                0 <= d < 3 && 0 <= p <= CHUNK_SIZE && 0 <= c < MASK_LEN as int implies (#[trigger] face_at(
                    chunk@,
                    d,
                    p,
                    c,
                )) is None by {
                lemma_empty_chunk_no_faces(chunk@, d, p, c);
            }
            assert(mesh_renders(mesh, qs));
            assert(mesh_is_greedy(chunk@, qs));
        }
        return mesh;
    }

    let mut axis: usize = 0;
    while axis < 3
        invariant
            chunk.wf(),
            axis <= 3,
            mesh_renders(mesh, qs),
            mesh_is_greedy(chunk@, qs),
            qs.len() <= slice_rank(axis as int, 0) * MASK_LEN as int,
            forall|k: int|
                0 <= k < qs.len() ==> (#[trigger] qs[k]).axis < 3 && qs[k].plane <= CHUNK_SIZE
                    && rect_in_mask(qs[k].rect) && slice_rank(qs[k].axis as int, qs[k].plane as int)
                    < slice_rank(axis as int, 0),
            forall|k: int, c: int|
                0 <= k < qs.len() && #[trigger] rect_has_cell(qs[k].rect, c) ==> face_at(
                    chunk@,
                    qs[k].axis as int,
                    qs[k].plane as int,
                    c,
                ) == Some((qs[k].rect.voxel, qs[k].rect.backface)),
            forall|k1: int, k2: int, c: int|
                0 <= k1 < qs.len() && 0 <= k2 < qs.len() && qs[k1].axis == qs[k2].axis
                    && qs[k1].plane == qs[k2].plane && #[trigger] rect_has_cell(qs[k1].rect, c)
                    && #[trigger] rect_has_cell(qs[k2].rect, c) ==> k1 == k2,
            forall|d: int, p: int, c: int|
                0 <= d < 3 && 0 <= p <= CHUNK_SIZE && 0 <= c < MASK_LEN as int && slice_rank(d, p)
                    < slice_rank(axis as int, 0) && (#[trigger] face_at(chunk@, d, p, c)) is Some
                    ==> exists|k: int| 0 <= k < qs.len() && #[trigger] quad_has_face(qs[k], d, p, c),
        decreases 3 - axis,
    {
        let mut plane: usize = 0;
        while plane <= CHUNK_SIZE
            invariant
                chunk.wf(),
                axis < 3,
                plane <= CHUNK_SIZE + 1,
                mesh_renders(mesh, qs),
                mesh_is_greedy(chunk@, qs),
                qs.len() <= slice_rank(axis as int, plane as int) * MASK_LEN as int,
                forall|k: int|
                    0 <= k < qs.len() ==> (#[trigger] qs[k]).axis < 3 && qs[k].plane <= CHUNK_SIZE
                        && rect_in_mask(qs[k].rect) && slice_rank(
                        qs[k].axis as int,
                        qs[k].plane as int,
                    ) < slice_rank(axis as int, plane as int),
                forall|k: int, c: int|
                    0 <= k < qs.len() && #[trigger] rect_has_cell(qs[k].rect, c) ==> face_at(
                        chunk@,
                        qs[k].axis as int,
                        qs[k].plane as int,
                        c,
                    ) == Some((qs[k].rect.voxel, qs[k].rect.backface)),
                forall|k1: int, k2: int, c: int|
                    0 <= k1 < qs.len() && 0 <= k2 < qs.len() && qs[k1].axis == qs[k2].axis
                        && qs[k1].plane == qs[k2].plane && #[trigger] rect_has_cell(qs[k1].rect, c)
                        && #[trigger] rect_has_cell(qs[k2].rect, c) ==> k1 == k2,
                forall|d: int, p: int, c: int|
                    0 <= d < 3 && 0 <= p <= CHUNK_SIZE && 0 <= c < MASK_LEN as int && slice_rank(
                        d,
                        p,
                    ) < slice_rank(axis as int, plane as int) && (#[trigger] face_at(
                        chunk@,
                        d,
                        p,
                        c,
                    )) is Some ==> exists|k: int|
                        0 <= k < qs.len() && #[trigger] quad_has_face(qs[k], d, p, c),
            decreases CHUNK_SIZE + 1 - plane,
        {
            let mask = build_mask(chunk, axis, plane);
            let ghost mask_v = mask@;
            let rects = greedy_rects(mask);
            let ghost start = qs.len() as int;
            let ghost qs0 = qs;
            let mut r_i: usize = 0;
            while r_i < rects.len()
                invariant
                    chunk.wf(),
                    axis < 3,
                    plane <= CHUNK_SIZE,
                    r_i <= rects@.len(),
                    rects@.len() <= MASK_LEN as int,
                    rects_partition(mask_v, rects@),
                    greedy_sequence(mask_v, rects@),
                    mesh_is_greedy(chunk@, qs),
                    mask_v.len() == MASK_LEN as int,
                    forall|c: int|
                        0 <= c < MASK_LEN as int ==> #[trigger] mask_v[c] == face_at(
                            chunk@,
                            axis as int,
                            plane as int,
                            c,
                        ),
                    start == qs0.len(),
                    start <= slice_rank(axis as int, plane as int) * MASK_LEN as int,
                    qs.len() == start + r_i,
                    forall|k: int| 0 <= k < start ==> #[trigger] qs[k] == qs0[k],
                    forall|k: int|
                        start <= k < qs.len() ==> #[trigger] qs[k] == (Quad {
                            axis,
                            plane,
                            rect: rects@[k - start],
                        }),
                    mesh_renders(mesh, qs),
                    forall|k: int|
                        0 <= k < start ==> (#[trigger] qs0[k]).axis < 3 && qs0[k].plane <= CHUNK_SIZE
                            && rect_in_mask(qs0[k].rect) && slice_rank(
                            qs0[k].axis as int,
                            qs0[k].plane as int,
                        ) < slice_rank(axis as int, plane as int),
                    forall|k: int, c: int|
                        0 <= k < start && #[trigger] rect_has_cell(qs0[k].rect, c) ==> face_at(
                            chunk@,
                            qs0[k].axis as int,
                            qs0[k].plane as int,
                            c,
                        ) == Some((qs0[k].rect.voxel, qs0[k].rect.backface)),
                decreases rects@.len() - r_i,
            {
                let r = rects[r_i];
                let x = make_axis_point(axis, plane as i32, r.i as i32, r.j as i32);
                let du = make_axis_point(axis, 0, r.w as i32, 0);
                let dv = make_axis_point(axis, 0, 0, r.h as i32);
                let ghost q = Quad { axis, plane, rect: r };
                let ghost mesh0 = mesh;
                let ghost qsb = qs;
                assert(rect_in_mask(rects@[r_i as int]));
                emit_quad(&mut mesh, x, du, dv, axis, r.backface, r.voxel);
                proof {
                    qs = qs.push(q);
                    assert forall|k1: int, k2: int|
                        0 <= k1 < k2 < qs.len() implies slice_rank(#[trigger] qs[k1].axis as int, qs[k1].plane as int)
                            <= slice_rank(#[trigger] qs[k2].axis as int, qs[k2].plane as int) by {
                        if k2 < qsb.len() {
                            assert(qs[k1] == qsb[k1]);
                            assert(qs[k2] == qsb[k2]);
                        } else if k1 < start {
                            assert(qs[k1] == qs0[k1]);
                        } else {
                            assert(qs[k1] == (Quad { axis, plane, rect: rects@[k1 - start] }));
                        }
                    }
                    lemma_lift_greedy(chunk@, qs, start, rects@, r_i as int, axis, plane, mask_v);
                    assert forall|k: int| 0 <= k < qs.len() implies quad_greedy(chunk@, qs, k) by {
                        if k < qsb.len() {
                            lemma_quad_greedy_push(chunk@, qsb, q, k);
                        }
                    }
                    assert forall|v: int|
                        0 <= v < mesh.positions@.len() implies (#[trigger] mesh.positions@[v]).as_ints()
                            == quad_corner(qs[v / 4], v % 4) by {
                        if v >= mesh0.positions@.len() {
                            let m = v - mesh0.positions@.len();
                            assert(mesh.positions@[mesh0.positions@.len() + m] == mesh.positions@[v]);
                        } else {
                            assert(mesh0.positions@[v] == mesh.positions@[v]);
                        }
                    }
                    assert forall|v: int|
                        0 <= v < mesh.normals@.len() implies (#[trigger] mesh.normals@[v]).as_ints()
                            == face_normal(qs[v / 4].axis as int, qs[v / 4].rect.backface) by {
                        if v >= mesh0.normals@.len() {
                            let m = v - mesh0.normals@.len();
                            assert(mesh.normals@[mesh0.normals@.len() + m] == mesh.normals@[v]);
                        } else {
                            assert(mesh0.normals@[v] == mesh.normals@[v]);
                        }
                    }
                    assert forall|v: int|
                        0 <= v < mesh.voxel_ids@.len() implies #[trigger] mesh.voxel_ids@[v]
                            == qs[v / 4].rect.voxel.0 by {
                        if v >= mesh0.voxel_ids@.len() {
                            let m = v - mesh0.voxel_ids@.len();
                            assert(mesh.voxel_ids@[mesh0.voxel_ids@.len() + m] == mesh.voxel_ids@[v]);
                        } else {
                            assert(mesh0.voxel_ids@[v] == mesh.voxel_ids@[v]);
                        }
                    }
                    assert forall|t: int|
                        0 <= t < mesh.indices@.len() implies #[trigger] mesh.indices@[t] == 4 * (t / 6)
                            + index_pattern(t % 6) by {
                        if t >= mesh0.indices@.len() {
                            let m = t - mesh0.indices@.len();
                            assert(mesh.indices@[mesh0.indices@.len() + m] == mesh.indices@[t]);
                        } else {
                            assert(mesh0.indices@[t] == mesh.indices@[t]);
                        }
                    }
                }
                r_i = r_i + 1;
            }
            proof {
                assert forall|k: int|
                    0 <= k < qs.len() implies (#[trigger] qs[k]).axis < 3 && qs[k].plane
                        <= CHUNK_SIZE && rect_in_mask(qs[k].rect) && slice_rank(
                        qs[k].axis as int,
                        qs[k].plane as int,
                    ) < slice_rank(axis as int, plane as int + 1) by {
                    if k < start {
                        assert(qs[k] == qs0[k]);
                    } else {
                        assert(rect_in_mask(rects@[k - start]));
                    }
                }
                assert forall|k: int, c: int|
                    0 <= k < qs.len() && #[trigger] rect_has_cell(qs[k].rect, c) implies face_at(
                        chunk@,
                        qs[k].axis as int,
                        qs[k].plane as int,
                        c,
                    ) == Some((qs[k].rect.voxel, qs[k].rect.backface)) by {
                    if k < start {
                        assert(qs[k] == qs0[k]);
                    } else {
                        assert(rect_has_cell(rects@[k - start], c));
                        assert(mask_v[c] == face_at(chunk@, axis as int, plane as int, c));
                    }
                }
                assert forall|k1: int, k2: int, c: int|
                    0 <= k1 < qs.len() && 0 <= k2 < qs.len() && qs[k1].axis == qs[k2].axis
                        && qs[k1].plane == qs[k2].plane && #[trigger] rect_has_cell(qs[k1].rect, c)
                        && #[trigger] rect_has_cell(qs[k2].rect, c) implies k1 == k2 by {
                    if k1 < start && k2 < start {
                        assert(qs[k1] == qs0[k1]);
                        assert(qs[k2] == qs0[k2]);
                    } else if k1 >= start && k2 >= start {
                        assert(rect_has_cell(rects@[k1 - start], c));
                        assert(rect_has_cell(rects@[k2 - start], c));
                    } else if k1 < start {
                        assert(qs[k1] == qs0[k1]);
                    } else {
                        assert(qs[k2] == qs0[k2]);
                    }
                }
                assert forall|d: int, p: int, c: int|
                    0 <= d < 3 && 0 <= p <= CHUNK_SIZE && 0 <= c < MASK_LEN as int && slice_rank(
                        d,
                        p,
                    ) < slice_rank(axis as int, plane as int + 1) && (#[trigger] face_at(
                        chunk@,
                        d,
                        p,
                        c,
                    )) is Some implies exists|k: int|
                        0 <= k < qs.len() && #[trigger] quad_has_face(qs[k], d, p, c) by {
                    if slice_rank(d, p) < slice_rank(axis as int, plane as int) {
                        let k = choose|k: int| 0 <= k < qs0.len() && #[trigger] quad_has_face(qs0[k], d, p, c);
                        assert(qs[k] == qs0[k]);
                        assert(quad_has_face(qs[k], d, p, c));
                    } else {
                        assert(d * 17 + p == axis * 17 + plane);
                        assert(d == axis && p == plane) by (nonlinear_arith)
                            requires
                                d * 17 + p == axis * 17 + plane,
                                0 <= p <= 16,
                                0 <= plane <= 16,
                        ;
                        assert(mask_v[c] is Some);
                        let k = choose|k: int| 0 <= k < rects@.len() && #[trigger] rect_has_cell(rects@[k], c);
                        assert(qs[start + k] == (Quad { axis, plane, rect: rects@[k] }));
                        assert(quad_has_face(qs[start + k], d, p, c));
                    }
                }
            }
            plane = plane + 1;
        }
        axis = axis + 1;
    }
    proof {
        assert(faces_partitioned(chunk@, qs));
        assert(mesh_is_greedy(chunk@, qs));
    }
    mesh
}

/// Point `q` lies in the chunk and holds a solid voxel.
pub open spec fn solid_point(chunk: Seq<Voxel>, q: (int, int, int)) -> bool {
    in_chunk(q.0, q.1, q.2) && !chunk[cell_index(q.0, q.1, q.2)].spec_is_empty()
}

/// Cross product of two integer vectors.
pub open spec fn cross(a: (int, int, int), b: (int, int, int)) -> (int, int, int) {
    (a.1 * b.2 - a.2 * b.1, a.2 * b.0 - a.0 * b.2, a.0 * b.1 - a.1 * b.0)
}

/// Difference of two integer points.
pub open spec fn sub3(a: (int, int, int), b: (int, int, int)) -> (int, int, int) {
    (a.0 - b.0, a.1 - b.1, a.2 - b.2)
}

proof fn lemma_vertex_of_quad(k: int, m: int)
    requires
        0 <= k,
        0 <= m < 4,
    ensures
        (4 * k + m) / 4 == k,
        (4 * k + m) % 4 == m,
{
    vstd::arithmetic::div_mod::lemma_fundamental_div_mod_converse(4 * k + m, 4, k, m);
}

/// The corners of every quad of a greedy mesh are the corners of the block
/// of unit faces it covers: quad k covers the mask cells of columns
/// i..i+w and rows j..j+h of plane p along axis d, and each of its four
/// vertices lies on that plane (coordinate p along d), at column i or i+w
/// along axis (d+1)%3 and at row j or j+h along axis (d+2)%3; the four
/// vertices are distinct, so they are exactly those four corners.
pub proof fn lemma_quad_corners(chunk: Seq<Voxel>, mesh: MeshData, qs: Seq<Quad>, k: int)
    requires
        mesh_renders(mesh, qs),
        faces_partitioned(chunk, qs),
        0 <= k < qs.len(),
    ensures
        ({
            let r = qs[k].rect;
            let d = qs[k].axis as int;
            let p = qs[k].plane as int;
            &&& forall|m: int|
                0 <= m < 4 ==> {
                    let q = (#[trigger] mesh.positions@[4 * k + m]).as_ints();
                    &&& coord(q, d) == p
                    &&& (coord(q, (d + 1) % 3) == r.i || coord(q, (d + 1) % 3) == r.i + r.w)
                    &&& (coord(q, (d + 2) % 3) == r.j || coord(q, (d + 2) % 3) == r.j + r.h)
                }
            &&& forall|m1: int, m2: int|
                0 <= m1 < 4 && 0 <= m2 < 4 && m1 != m2 ==> (#[trigger] mesh.positions@[4 * k + m1])
                    != #[trigger] mesh.positions@[4 * k + m2]
            &&& forall|c: int|
                #[trigger] rect_has_cell(r, c) <==> 0 <= c < MASK_LEN as int && r.i <= col_of(c)
                    < r.i + r.w && r.j <= row_of(c) < r.j + r.h
        }),
{
    assert(qs[k].axis < 3 && rect_in_mask(qs[k].rect));
    assert forall|m: int| 0 <= m < 4 implies mesh.positions@[4 * k + m].as_ints() == quad_corner(qs[k], m) by {
        lemma_vertex_of_quad(k, m);
    }
}

/// The front of every quad of a greedy mesh faces the air: each vertex
/// normal is a unit vector along the quad's axis d. Where it is +1, the
/// cell just below the plane (coordinate p - 1 along d) of every unit face
/// the quad covers is solid, the cell just above is not, and the vertex
/// carries the below cell's material; where it is -1 the roles of the two
/// cells swap.
pub proof fn lemma_quad_normal_faces_air(
    chunk: Seq<Voxel>,
    mesh: MeshData,
    qs: Seq<Quad>,
    k: int,
    m: int,
    c: int,
    below: (int, int, int),
    above: (int, int, int),
)
    requires
        chunk.len() == crate::chunk::CHUNK_VOLUME as int,
        mesh_renders(mesh, qs),
        faces_partitioned(chunk, qs),
        0 <= k < qs.len(),
        0 <= m < 4,
        rect_has_cell(qs[k].rect, c),
        coord(below, qs[k].axis as int) == qs[k].plane - 1,
        coord(above, qs[k].axis as int) == qs[k].plane,
        coord(below, (qs[k].axis + 1) % 3) == col_of(c),
        coord(above, (qs[k].axis + 1) % 3) == col_of(c),
        coord(below, (qs[k].axis + 2) % 3) == row_of(c),
        coord(above, (qs[k].axis + 2) % 3) == row_of(c),
    ensures
        ({
            let d = qs[k].axis as int;
            let n = mesh.normals@[4 * k + m].as_ints();
            let id = mesh.voxel_ids@[4 * k + m];
            &&& coord(n, (d + 1) % 3) == 0
            &&& coord(n, (d + 2) % 3) == 0
            &&& coord(n, d) == 1 || coord(n, d) == -1
            &&& coord(n, d) == 1 ==> solid_point(chunk, below) && !solid_point(chunk, above) && id
                == chunk[cell_index(below.0, below.1, below.2)].0
            &&& coord(n, d) == -1 ==> solid_point(chunk, above) && !solid_point(chunk, below) && id
                == chunk[cell_index(above.0, above.1, above.2)].0
        }),
{
    lemma_vertex_of_quad(k, m);
    let d = qs[k].axis as int;
    let p = qs[k].plane as int;
    assert(qs[k].axis < 3);
    assert(face_at(chunk, d, p, c) == Some((qs[k].rect.voxel, qs[k].rect.backface)));
    assert(axis_point(d, p - 1, col_of(c), row_of(c)) == below);
    assert(axis_point(d, p, col_of(c), row_of(c)) == above);
    assert(mesh.normals@[4 * k + m].as_ints() == face_normal(d, qs[k].rect.backface));
    assert(mesh.voxel_ids@[4 * k + m] == qs[k].rect.voxel.0);
}

/// Every quad of a greedy mesh winds counter-clockwise seen from its front:
/// with its first vertex v0, the cross product of the edges to v1 and to v3
/// is the vertex normal scaled by the quad's area w * h.
pub proof fn lemma_quad_winding(mesh: MeshData, qs: Seq<Quad>, k: int)
    requires
        mesh_renders(mesh, qs),
        0 <= k < qs.len(),
        qs[k].axis < 3,
    ensures
        ({
            let r = qs[k].rect;
            let v0 = mesh.positions@[4 * k].as_ints();
            let v1 = mesh.positions@[4 * k + 1].as_ints();
            let v3 = mesh.positions@[4 * k + 3].as_ints();
            let n = mesh.normals@[4 * k].as_ints();
            let a = r.w * r.h;
            cross(sub3(v1, v0), sub3(v3, v0)) == (a * n.0, a * n.1, a * n.2)
        }),
{
    lemma_vertex_of_quad(k, 0);
    lemma_vertex_of_quad(k, 1);
    lemma_vertex_of_quad(k, 3);
    let r = qs[k].rect;
    let d = qs[k].axis as int;
    let w = r.w as int;
    let h = r.h as int;
    let v0 = mesh.positions@[4 * k].as_ints();
    let v1 = mesh.positions@[4 * k + 1].as_ints();
    let v3 = mesh.positions@[4 * k + 3].as_ints();
    let n = mesh.normals@[4 * k].as_ints();
    let du = axis_point(d, 0, w, 0);
    let dv = axis_point(d, 0, 0, h);
    assert(n == face_normal(d, r.backface));
    if r.backface {
        assert(sub3(v1, v0) == dv);
        assert(sub3(v3, v0) == du);
    } else {
        assert(sub3(v1, v0) == du);
        assert(sub3(v3, v0) == dv);
    }
    assert(w * h == h * w) by (nonlinear_arith);
    assert(cross(du, dv) == (w * h * coord(face_normal(d, false), 0), w * h * coord(face_normal(d, false), 1), w * h * coord(face_normal(d, false), 2))) by {
        assert(0 * h == 0 && w * 0 == 0 && h * 0 == 0 && 0 * w == 0 && 0 * 0 == 0) by (nonlinear_arith);
    }
    assert(cross(dv, du) == (-(w * h) * coord(face_normal(d, false), 0), -(w * h) * coord(face_normal(d, false), 1), -(w * h) * coord(face_normal(d, false), 2))) by {
        assert(0 * h == 0 && w * 0 == 0 && h * 0 == 0 && 0 * w == 0 && 0 * 0 == 0) by (nonlinear_arith);
        assert(h * w == w * h) by (nonlinear_arith);
    }
    assert(w * h * 1 == w * h && w * h * 0 == 0 && w * h * -1 == -(w * h) && -(w * h) * 1 == -(w * h) && -(w * h) * 0 == 0) by (nonlinear_arith);
}

/// Every quad of a greedy mesh is drawn as two triangles over its own four
/// vertices, v0 v1 v2 and v0 v2 v3, so both triangles wind as the quad does.
pub proof fn lemma_quad_triangles(mesh: MeshData, qs: Seq<Quad>, k: int)
    requires
        mesh_renders(mesh, qs),
        0 <= k < qs.len(),
    ensures
        mesh.indices@[6 * k] == 4 * k,
        mesh.indices@[6 * k + 1] == 4 * k + 1,
        mesh.indices@[6 * k + 2] == 4 * k + 2,
        mesh.indices@[6 * k + 3] == 4 * k,
        mesh.indices@[6 * k + 4] == 4 * k + 2,
        mesh.indices@[6 * k + 5] == 4 * k + 3,
{
    vstd::arithmetic::div_mod::lemma_fundamental_div_mod_converse(6 * k, 6, k, 0);
    vstd::arithmetic::div_mod::lemma_fundamental_div_mod_converse(6 * k + 1, 6, k, 1);
    vstd::arithmetic::div_mod::lemma_fundamental_div_mod_converse(6 * k + 2, 6, k, 2);
    vstd::arithmetic::div_mod::lemma_fundamental_div_mod_converse(6 * k + 3, 6, k, 3);
    vstd::arithmetic::div_mod::lemma_fundamental_div_mod_converse(6 * k + 4, 6, k, 4);
    vstd::arithmetic::div_mod::lemma_fundamental_div_mod_converse(6 * k + 5, 6, k, 5);
    assert(mesh.indices@[6 * k] == 4 * ((6 * k) / 6) + index_pattern((6 * k) % 6));
    assert(mesh.indices@[6 * k + 1] == 4 * ((6 * k + 1) / 6) + index_pattern((6 * k + 1) % 6));
    assert(mesh.indices@[6 * k + 2] == 4 * ((6 * k + 2) / 6) + index_pattern((6 * k + 2) % 6));
    assert(mesh.indices@[6 * k + 3] == 4 * ((6 * k + 3) / 6) + index_pattern((6 * k + 3) % 6));
    assert(mesh.indices@[6 * k + 4] == 4 * ((6 * k + 4) / 6) + index_pattern((6 * k + 4) % 6));
    assert(mesh.indices@[6 * k + 5] == 4 * ((6 * k + 5) / 6) + index_pattern((6 * k + 5) % 6));
}

} // verus!
