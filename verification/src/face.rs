use vstd::prelude::*;

use crate::coord::{coord, Coord3};

verus! {

/// One of the six axis-aligned faces of a voxel.
#[derive(Debug, Clone, Copy, PartialEq, Eq, Structural)]
pub enum Face {
    PosX,
    NegX,
    PosY,
    NegY,
    PosZ,
    NegZ,
}

/// The outward unit normal of face `f`.
pub open spec fn spec_normal(f: Face) -> (int, int, int) {
    match f {
        Face::PosX => (1, 0, 0),
        Face::NegX => (-1, 0, 0),
        Face::PosY => (0, 1, 0),
        Face::NegY => (0, -1, 0),
        Face::PosZ => (0, 0, 1),
        Face::NegZ => (0, 0, -1),
    }
}

/// The axis (0 = x, 1 = y, 2 = z) that face `f` is perpendicular to.
pub open spec fn spec_locked_axis(f: Face) -> int {
    match f {
        Face::PosX | Face::NegX => 0,
        Face::PosY | Face::NegY => 1,
        Face::PosZ | Face::NegZ => 2,
    }
}

impl Face {
    /// The face whose outward normal is `n`; `None` unless `n` is a unit
    /// axis vector.
    pub fn from_normal(n: Coord3) -> (f: Option<Face>)
        ensures
            f matches Some(face) ==> spec_normal(face) == n.as_ints(),
            f is None <==> forall|face: Face| spec_normal(face) != n.as_ints(),
    {
        let r = if n.x == 1 && n.y == 0 && n.z == 0 {
            Some(Face::PosX)
        } else if n.x == -1 && n.y == 0 && n.z == 0 {
            Some(Face::NegX)
        } else if n.x == 0 && n.y == 1 && n.z == 0 {
            Some(Face::PosY)
        } else if n.x == 0 && n.y == -1 && n.z == 0 {
            Some(Face::NegY)
        } else if n.x == 0 && n.y == 0 && n.z == 1 {
            Some(Face::PosZ)
        } else if n.x == 0 && n.y == 0 && n.z == -1 {
            Some(Face::NegZ)
        } else {
            None
        };
        proof {
            if let Some(face) = r {
                assert(spec_normal(face) == n.as_ints());
            }
            if r is None {
                assert forall|face: Face| spec_normal(face) != n.as_ints() by {
                    match face {
                        Face::PosX => {},
                        Face::NegX => {},
                        Face::PosY => {},
                        Face::NegY => {},
                        Face::PosZ => {},
                        Face::NegZ => {},
                    }
                }
            }
        }
        r
    }

    /// The outward unit normal of this face.
    pub fn normal(self) -> (n: Coord3)
        ensures
            n.as_ints() == spec_normal(self),
    {
        match self {
            Face::PosX => Coord3::new(1, 0, 0),
            Face::NegX => Coord3::new(-1, 0, 0),
            Face::PosY => Coord3::new(0, 1, 0),
            Face::NegY => Coord3::new(0, -1, 0),
            Face::PosZ => Coord3::new(0, 0, 1),
            Face::NegZ => Coord3::new(0, 0, -1),
        }
    }

    /// The axis this face is perpendicular to.
    pub fn locked_axis(self) -> (a: usize)
        ensures
            a as int == spec_locked_axis(self),
    {
        match self {
            Face::PosX | Face::NegX => 0,
            Face::PosY | Face::NegY => 1,
            Face::PosZ | Face::NegZ => 2,
        }
    }

    /// The two axes spanning this face's plane, in increasing order.
    pub fn in_plane_axes(self) -> (r: (usize, usize))
        ensures
            r.0 < r.1 < 3,
            r.0 as int != spec_locked_axis(self),
            r.1 as int != spec_locked_axis(self),
    {
        match self.locked_axis() {
            0 => (1, 2),
            1 => (0, 2),
            _ => (0, 1),
        }
    }
}

/// Turning a face into its normal and back gives the same face.
pub proof fn lemma_normal_roundtrip(f: Face, n: Coord3)
    requires
        n.as_ints() == spec_normal(f),
    ensures
        forall|g: Face| spec_normal(g) == n.as_ints() ==> g == f,
{
}

/// The normal of a face is a unit vector along the face's locked axis.
pub proof fn lemma_normal_on_locked_axis(f: Face)
    ensures
        ({
            let n = spec_normal(f);
            let a = spec_locked_axis(f);
            &&& (a == 0 ==> (n.0 == 1 || n.0 == -1) && n.1 == 0 && n.2 == 0)
            &&& (a == 1 ==> n.0 == 0 && (n.1 == 1 || n.1 == -1) && n.2 == 0)
            &&& (a == 2 ==> n.0 == 0 && n.1 == 0 && (n.2 == 1 || n.2 == -1))
        }),
{
}

/// Each face's normal points the way its name says: along the face's own
/// axis (PosX/NegX: x, PosY/NegY: y, PosZ/NegZ: z), +1 for the Pos faces
/// and -1 for the Neg faces, and 0 on the other two axes.
pub proof fn lemma_normal_direction(f: Face)
    ensures
        ({
            let n = spec_normal(f);
            let axis: int = if f is PosX || f is NegX {
                0
            } else if f is PosY || f is NegY {
                1
            } else {
                2
            };
            let sign: int = if f is PosX || f is PosY || f is PosZ {
                1
            } else {
                -1
            };
            &&& spec_locked_axis(f) == axis
            &&& coord(n, axis) == sign
            &&& coord(n, (axis + 1) % 3) == 0
            &&& coord(n, (axis + 2) % 3) == 0
        }),
{
}

} // verus!
