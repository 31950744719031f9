use vstd::prelude::*;

verus! {

/// A single voxel: a material id, where id 0 means "air".
#[derive(Debug, Clone, Copy, PartialEq, Eq, Structural, Hash)]
pub struct Voxel(pub u16);

impl Voxel {
    /// Material id of the empty (air) voxel.
    pub const EMPTY_ID: u16 = 0;

    /// The empty (air) voxel.
    pub fn empty() -> (v: Voxel)
        ensures
            v.0 == 0,
    {
        Voxel(Self::EMPTY_ID)
    }

    /// Whether this voxel is air.
    pub open spec fn spec_is_empty(self) -> bool {
        self.0 == 0
    }

    /// A voxel of material `id`.
    pub fn new(id: u16) -> (v: Voxel)
        ensures
            v.0 == id,
    {
        Voxel(id)
    }

    /// True if this voxel is air.
    pub fn is_empty(&self) -> (b: bool)
        ensures
            b == self.spec_is_empty(),
    {
        self.0 == Self::EMPTY_ID
    }
}

impl Default for Voxel {
    fn default() -> (v: Voxel)
        ensures
            v.0 == 0,
    {
        Voxel(0)
    }
}

} // verus!
