use vstd::prelude::*;

use crate::coord::Coord3;

verus! {

/// Distance between two integers.
pub open spec fn abs_diff(s: int, e: int) -> int {
    if e >= s {
        e - s
    } else {
        s - e
    }
}

/// Largest of three integers.
pub open spec fn max3(a: int, b: int, c: int) -> int {
    if a >= b && a >= c {
        a
    } else if b >= c {
        b
    } else {
        c
    }
}

/// Number of steps of the voxel line from `start` to `end`: the largest
/// per-axis distance.
pub open spec fn line_steps(start: Coord3, end: Coord3) -> int {
    max3(
        abs_diff(start.x as int, end.x as int),
        abs_diff(start.y as int, end.y as int),
        abs_diff(start.z as int, end.z as int),
    )
}

/// One coordinate of the k-th point of an n-step line from `s` to `e`: the
/// exact value s + k*(e-s)/n rounded to the nearest integer, halves rounded
/// away from `s`.
pub open spec fn line_coord(s: int, e: int, k: int, n: int) -> int {
    if n == 0 {
        s
    } else if e >= s {
        s + (2 * k * (e - s) + n) / (2 * n)
    } else {
        s - (2 * k * (s - e) + n) / (2 * n)
    }
}

/// The k-th point of the voxel line from `start` to `end`.
pub open spec fn line_point(start: Coord3, end: Coord3, k: int) -> (int, int, int) {
    let n = line_steps(start, end);
    (
        line_coord(start.x as int, end.x as int, k, n),
        line_coord(start.y as int, end.y as int, k, n),
        line_coord(start.z as int, end.z as int, k, n),
    )
}

/// Per-axis distances small enough that doubling them fits in an `i32`.
pub open spec fn line_input_ok(start: Coord3, end: Coord3) -> bool {
    &&& abs_diff(start.x as int, end.x as int) <= i32::MAX / 2
    &&& abs_diff(start.y as int, end.y as int) <= i32::MAX / 2
    &&& abs_diff(start.z as int, end.z as int) <= i32::MAX / 2
}

proof fn lemma_floor_div(x: int, d: int, c: int)
    requires
        d > 0,
        c * d <= x < c * d + d,
    ensures
        x / d == c,
{
    vstd::arithmetic::div_mod::lemma_fundamental_div_mod_converse(x, d, c, x - c * d);
}

proof fn lemma_floor_bounds(x: int, d: int)
    requires
        d > 0,
    ensures
        (x / d) * d <= x < (x / d) * d + d,
{
    vstd::arithmetic::div_mod::lemma_fundamental_div_mod(x, d);
    vstd::arithmetic::div_mod::lemma_mod_bound(x, d);
    vstd::arithmetic::mul::lemma_mul_is_commutative(x / d, d);
}

/// Rounded count of minor-axis moves after k of n steps over distance d.
pub open spec fn minor_moves(k: int, d: int, n: int) -> int {
    (2 * k * d + n) / (2 * n)
}

/// The decision variable and the minor coordinate agree with step k.
pub open spec fn minor_ok(cur: int, s: int, e: int, p: int, k: int, n: int) -> bool {
    let d = abs_diff(s, e);
    let c = minor_moves(k, d, n);
    &&& cur == (if e >= s { s + c } else { s - c })
    &&& p == 2 * (k + 1) * d - n - 2 * n * c
}

proof fn lemma_minor_step(k: int, d: int, n: int)
    requires
        0 <= d <= n,
        n > 0,
        0 <= k,
    ensures
        ({
            let c = minor_moves(k, d, n);
            let p = 2 * (k + 1) * d - n - 2 * n * c;
            &&& 2 * d - 2 * n <= p < 2 * d
            &&& minor_moves(k + 1, d, n) == c + (if p >= 0 { 1int } else { 0int })
            &&& c >= 0
        }),
{
    let x = 2 * k * d + n;
    let c = x / (2 * n);
    lemma_floor_bounds(x, 2 * n);
    assert(c * (2 * n) == 2 * n * c) by (nonlinear_arith);
    assert(2 * (k + 1) * d == 2 * k * d + 2 * d) by (nonlinear_arith);
    assert(c >= 0) by (nonlinear_arith)
        requires
            c * (2 * n) <= x < c * (2 * n) + 2 * n,
            x >= 0,
            n > 0,
    ;
    let p = 2 * (k + 1) * d - n - 2 * n * c;
    let x1 = 2 * (k + 1) * d + n;
    if p >= 0 {
        assert((c + 1) * (2 * n) == c * (2 * n) + 2 * n) by (nonlinear_arith);
        lemma_floor_div(x1, 2 * n, c + 1);
    } else {
        lemma_floor_div(x1, 2 * n, c);
    }
}

proof fn lemma_minor_bounded(k: int, d: int, n: int)
    requires
        0 <= d <= n,
        n > 0,
        0 <= k <= n,
    ensures
        minor_moves(0, d, n) == 0,
        0 <= minor_moves(k, d, n) <= d,
        minor_moves(n, d, n) == d,
        minor_moves(k, n, n) == k,
{
    let x = 2 * k * d + n;
    lemma_floor_bounds(x, 2 * n);
    assert(2 * k * d <= 2 * n * d) by (nonlinear_arith)
        requires
            0 <= k <= n,
            0 <= d,
    ;
    let c = x / (2 * n);
    assert(c * (2 * n) == 2 * n * c) by (nonlinear_arith);
    assert(0 <= c <= d) by (nonlinear_arith)
        requires
            c * (2 * n) <= x < c * (2 * n) + 2 * n,
            0 <= x <= 2 * n * d + n,
            n > 0,
    ;
    assert(d * (2 * n) == 2 * n * d) by (nonlinear_arith);
    lemma_floor_div(2 * n * d + n, 2 * n, d);
    assert(k * (2 * n) == 2 * k * n) by (nonlinear_arith);
    lemma_floor_div(2 * k * n + n, 2 * n, k);
    assert(2 * 0 * d == 0) by (nonlinear_arith);
    lemma_floor_div(n, 2 * n, 0);
}

/// One minor-axis step of the line walk: the decision variable chooses
/// whether the coordinate moves, and the invariant carries to step k+1.
proof fn lemma_minor_advance(s: int, e: int, cur: int, p: int, k: int, n: int)
    requires
        0 <= k < n,
        abs_diff(s, e) <= n,
        minor_ok(cur, s, e, p, k, n),
    ensures
        2 * abs_diff(s, e) - 2 * n <= p < 2 * abs_diff(s, e),
        p >= 0 ==> minor_ok(
            cur + (if e > s { 1int } else { -1int }),
            s,
            e,
            p - 2 * n + 2 * abs_diff(s, e),
            k + 1,
            n,
        ),
        p < 0 ==> minor_ok(cur, s, e, p + 2 * abs_diff(s, e), k + 1, n),
        p >= 0 ==> (if e >= s {
            s <= cur + 1 <= e
        } else {
            e <= cur - 1 <= s
        }),
        (if e >= s {
            s <= cur <= e
        } else {
            e <= cur <= s
        }),
{
    let d = abs_diff(s, e);
    lemma_minor_step(k, d, n);
    lemma_minor_bounded(k, d, n);
    lemma_minor_bounded(k + 1, d, n);
    let c = minor_moves(k, d, n);
    assert(2 * (k + 2) * d == 2 * (k + 1) * d + 2 * d) by (nonlinear_arith);
    assert(2 * n * (c + 1) == 2 * n * c + 2 * n) by (nonlinear_arith);
    if p >= 0 {
        assert(minor_moves(k + 1, d, n) == c + 1);
        assert(d > 0);
    } else {
        assert(minor_moves(k + 1, d, n) == c);
    }
}

/// The major-axis coordinate after k steps.
proof fn lemma_major(s: int, e: int, k: int, n: int)
    requires
        abs_diff(s, e) == n,
        0 <= k <= n,
        n > 0,
    ensures
        line_coord(s, e, k, n) == (if e > s { s + k } else { s - k }),
{
    lemma_minor_bounded(k, n, n);
}

/// All points of the voxel line from `start` to `end` (both included): one
/// point per step along the axis of largest distance, the other coordinates
/// following the exact line rounded to the nearest voxel.
pub fn line_voxels(start: Coord3, end: Coord3) -> (points: Vec<Coord3>)
    requires
        line_input_ok(start, end),
    ensures
        points@.len() == line_steps(start, end) + 1,
        forall|k: int|
            0 <= k <= line_steps(start, end) ==> (#[trigger] points@[k]).as_ints() == line_point(
                start,
                end,
                k,
            ),
{
    let mut points: Vec<Coord3> = Vec::new();

    let (mut x, mut y, mut z) = (start.x, start.y, start.z);
    let (x1, y1, z1) = (end.x, end.y, end.z);

    let dx = if x1 >= x { x1 - x } else { x - x1 };
    let dy = if y1 >= y { y1 - y } else { y - y1 };
    let dz = if z1 >= z { z1 - z } else { z - z1 };

    let sx: i32 = if x1 > x { 1 } else { -1 };
    let sy: i32 = if y1 > y { 1 } else { -1 };
    let sz: i32 = if z1 > z { 1 } else { -1 };

    let ghost n = line_steps(start, end);
    let ghost (x0, y0, z0) = (start.x as int, start.y as int, start.z as int);

    if dx >= dy && dx >= dz {
        let mut p1: i32 = 2 * dy - dx;
        let mut p2: i32 = 2 * dz - dx;
        proof {
            if n > 0 {
                lemma_minor_bounded(0, dy as int, n);
                lemma_minor_bounded(0, dz as int, n);
                lemma_floor_div(n, 2 * n, 0);
            }
        }
        while x != x1
            invariant
                n == dx,
                dy <= dx,
                dz <= dx,
                dx <= i32::MAX / 2,
                x1 == end.x && y1 == end.y && z1 == end.z,
                n == line_steps(start, end),
                x0 == start.x && y0 == start.y && z0 == start.z,
                dx == abs_diff(x0, x1 as int),
                dy == abs_diff(y0, y1 as int),
                dz == abs_diff(z0, z1 as int),
                sy == (if y1 > y0 { 1int } else { -1int }),
                sz == (if z1 > z0 { 1int } else { -1int }),
                sx == (if x1 > x0 { 1int } else { -1int }),
                0 <= points@.len() <= n,
                n > 0 ==> x == line_coord(x0, x1 as int, points@.len() as int, n),
                n == 0 ==> x == x1,
                n > 0 ==> minor_ok(y as int, y0, y1 as int, p1 as int, points@.len() as int, n),
                n > 0 ==> minor_ok(z as int, z0, z1 as int, p2 as int, points@.len() as int, n),
                forall|i: int|
                    0 <= i < points@.len() ==> (#[trigger] points@[i]).as_ints() == line_point(
                        start,
                        end,
                        i,
                    ),
            decreases n - points@.len(),
        {
            let ghost k = points@.len() as int;
            proof {
                lemma_major(x0, x1 as int, k, n);
                if k == n {
                    lemma_major(x0, x1 as int, n, n);
                }
                lemma_minor_advance(y0, y1 as int, y as int, p1 as int, k, n);
                lemma_minor_advance(z0, z1 as int, z as int, p2 as int, k, n);
                lemma_major(x0, x1 as int, k + 1, n);
            }
            points.push(Coord3::new(x, y, z));
            if p1 >= 0 {
                y += sy;
                p1 -= 2 * dx;
            }
            if p2 >= 0 {
                z += sz;
                p2 -= 2 * dx;
            }
            p1 += 2 * dy;
            p2 += 2 * dz;
            x += sx;
        }
        proof {
            if n > 0 {
                let k = points@.len() as int;
                lemma_major(x0, x1 as int, k, n);
            }
        }
    } else if dy >= dx && dy >= dz {
        let mut p1: i32 = 2 * dx - dy;
        let mut p2: i32 = 2 * dz - dy;
        proof {
            lemma_minor_bounded(0, dx as int, n);
            lemma_minor_bounded(0, dz as int, n);
            lemma_floor_div(n, 2 * n, 0);
        }
        while y != y1
            invariant
                n == dy,
                n > 0,
                dx <= dy,
                dz <= dy,
                dy <= i32::MAX / 2,
                x1 == end.x && y1 == end.y && z1 == end.z,
                n == line_steps(start, end),
                x0 == start.x && y0 == start.y && z0 == start.z,
                dx == abs_diff(x0, x1 as int),
                dy == abs_diff(y0, y1 as int),
                dz == abs_diff(z0, z1 as int),
                sy == (if y1 > y0 { 1int } else { -1int }),
                sz == (if z1 > z0 { 1int } else { -1int }),
                sx == (if x1 > x0 { 1int } else { -1int }),
                0 <= points@.len() <= n,
                y == line_coord(y0, y1 as int, points@.len() as int, n),
                minor_ok(x as int, x0, x1 as int, p1 as int, points@.len() as int, n),
                minor_ok(z as int, z0, z1 as int, p2 as int, points@.len() as int, n),
                forall|i: int|
                    0 <= i < points@.len() ==> (#[trigger] points@[i]).as_ints() == line_point(
                        start,
                        end,
                        i,
                    ),
            decreases n - points@.len(),
        {
            let ghost k = points@.len() as int;
            proof {
                lemma_major(y0, y1 as int, k, n);
                if k == n {
                    lemma_major(y0, y1 as int, n, n);
                }
                lemma_minor_advance(x0, x1 as int, x as int, p1 as int, k, n);
                lemma_minor_advance(z0, z1 as int, z as int, p2 as int, k, n);
                lemma_major(y0, y1 as int, k + 1, n);
            }
            points.push(Coord3::new(x, y, z));
            if p1 >= 0 {
                x += sx;
                p1 -= 2 * dy;
            }
            if p2 >= 0 {
                z += sz;
                p2 -= 2 * dy;
            }
            p1 += 2 * dx;
            p2 += 2 * dz;
            y += sy;
        }
        proof {
            let k = points@.len() as int;
            lemma_major(y0, y1 as int, k, n);
        }
    } else {
        let mut p1: i32 = 2 * dy - dz;
        let mut p2: i32 = 2 * dx - dz;
        proof {
            lemma_minor_bounded(0, dx as int, n);
            lemma_minor_bounded(0, dy as int, n);
            lemma_floor_div(n, 2 * n, 0);
        }
        while z != z1
            invariant
                n == dz,
                n > 0,
                dx <= dz,
                dy <= dz,
                dz <= i32::MAX / 2,
                x1 == end.x && y1 == end.y && z1 == end.z,
                n == line_steps(start, end),
                x0 == start.x && y0 == start.y && z0 == start.z,
                dx == abs_diff(x0, x1 as int),
                dy == abs_diff(y0, y1 as int),
                dz == abs_diff(z0, z1 as int),
                sy == (if y1 > y0 { 1int } else { -1int }),
                sz == (if z1 > z0 { 1int } else { -1int }),
                sx == (if x1 > x0 { 1int } else { -1int }),
                0 <= points@.len() <= n,
                z == line_coord(z0, z1 as int, points@.len() as int, n),
                minor_ok(y as int, y0, y1 as int, p1 as int, points@.len() as int, n),
                minor_ok(x as int, x0, x1 as int, p2 as int, points@.len() as int, n),
                forall|i: int|
                    0 <= i < points@.len() ==> (#[trigger] points@[i]).as_ints() == line_point(
                        start,
                        end,
                        i,
                    ),
            decreases n - points@.len(),
        {
            let ghost k = points@.len() as int;
            proof {
                lemma_major(z0, z1 as int, k, n);
                if k == n {
                    lemma_major(z0, z1 as int, n, n);
                }
                lemma_minor_advance(y0, y1 as int, y as int, p1 as int, k, n);
                lemma_minor_advance(x0, x1 as int, x as int, p2 as int, k, n);
                lemma_major(z0, z1 as int, k + 1, n);
            }
            points.push(Coord3::new(x, y, z));
            if p1 >= 0 {
                y += sy;
                p1 -= 2 * dz;
            }
            if p2 >= 0 {
                x += sx;
                p2 -= 2 * dz;
            }
            p1 += 2 * dy;
            p2 += 2 * dx;
            z += sz;
        }
        proof {
            let k = points@.len() as int;
            lemma_major(z0, z1 as int, k, n);
        }
    }

    proof {
        let n = line_steps(start, end);
        if n > 0 {
            lemma_minor_bounded(n, abs_diff(x0, end.x as int), n);
            lemma_minor_bounded(n, abs_diff(y0, end.y as int), n);
            lemma_minor_bounded(n, abs_diff(z0, end.z as int), n);
        }
    }
    points.push(Coord3::new(x1, y1, z1));
    points
}

/// Difference between consecutive values of one line coordinate.
proof fn lemma_coord_step(s: int, e: int, k: int, n: int)
    requires
        abs_diff(s, e) <= n,
        0 <= k < n,
    ensures
        ({
            let delta = line_coord(s, e, k + 1, n) - line_coord(s, e, k, n);
            &&& -1 <= delta <= 1
            &&& abs_diff(s, e) == n ==> delta == (if e > s { 1int } else { -1int })
        }),
{
    lemma_minor_step(k, abs_diff(s, e), n);
    if abs_diff(s, e) == n {
        lemma_major(s, e, k, n);
        lemma_major(s, e, k + 1, n);
    }
}

/// The voxel line runs from `start` to `end`: its first point is `start`
/// and its last point is `end`.
pub proof fn lemma_line_endpoints(start: Coord3, end: Coord3)
    ensures
        line_point(start, end, 0) == start.as_ints(),
        line_point(start, end, line_steps(start, end)) == end.as_ints(),
{
    let n = line_steps(start, end);
    if n > 0 {
        lemma_minor_bounded(0, abs_diff(start.x as int, end.x as int), n);
        lemma_minor_bounded(0, abs_diff(start.y as int, end.y as int), n);
        lemma_minor_bounded(0, abs_diff(start.z as int, end.z as int), n);
        lemma_minor_bounded(n, abs_diff(start.x as int, end.x as int), n);
        lemma_minor_bounded(n, abs_diff(start.y as int, end.y as int), n);
        lemma_minor_bounded(n, abs_diff(start.z as int, end.z as int), n);
    }
}

/// The voxel line has no gaps: consecutive points differ by at most one in
/// every coordinate, and the coordinate of largest distance advances by
/// exactly one towards `end` at every step.
pub proof fn lemma_line_connected(start: Coord3, end: Coord3, k: int)
    requires
        0 <= k < line_steps(start, end),
    ensures
        ({
            let a = line_point(start, end, k);
            let b = line_point(start, end, k + 1);
            &&& -1 <= b.0 - a.0 <= 1
            &&& -1 <= b.1 - a.1 <= 1
            &&& -1 <= b.2 - a.2 <= 1
            &&& a != b
        }),
{
    let n = line_steps(start, end);
    lemma_coord_step(start.x as int, end.x as int, k, n);
    lemma_coord_step(start.y as int, end.y as int, k, n);
    lemma_coord_step(start.z as int, end.z as int, k, n);
}

} // verus!
