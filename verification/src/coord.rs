use vstd::prelude::*;

verus! {

/// An integer point or direction in voxel space.
#[derive(Clone, Copy, Debug, PartialEq, Eq, Structural, Hash)]
pub struct Coord3 {
    pub x: i32,
    pub y: i32,
    pub z: i32,
}

impl Coord3 {
    /// The point (x, y, z).
    pub fn new(x: i32, y: i32, z: i32) -> (c: Coord3)
        ensures
            c.x == x && c.y == y && c.z == z,
    {
        Coord3 { x, y, z }
    }

    /// The coordinates as mathematical integers.
    pub open spec fn as_ints(self) -> (int, int, int) {
        (self.x as int, self.y as int, self.z as int)
    }
}

/// Coordinate `a` (0 = x, 1 = y, 2 = z) of the point `q`.
pub open spec fn coord(q: (int, int, int), a: int) -> int {
    if a == 0 {
        q.0
    } else if a == 1 {
        q.1
    } else {
        q.2
    }
}

/// The point whose coordinate along axis `d` is `a`, along axis (d+1)%3 is
/// `b` and along axis (d+2)%3 is `c`.
pub open spec fn axis_point(d: int, a: int, b: int, c: int) -> (int, int, int) {
    if d == 0 {
        (a, b, c)
    } else if d == 1 {
        (c, a, b)
    } else {
        (b, c, a)
    }
}

/// Executable form of `axis_point`.
pub fn make_axis_point(d: usize, a: i32, b: i32, c: i32) -> (p: Coord3)
    requires
        d < 3,
    ensures
        p.as_ints() == axis_point(d as int, a as int, b as int, c as int),
{
    if d == 0 {
        Coord3 { x: a, y: b, z: c }
    } else if d == 1 {
        Coord3 { x: c, y: a, z: b }
    } else {
        Coord3 { x: b, y: c, z: a }
    }
}

} // verus!
