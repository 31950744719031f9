use vstd::prelude::*;

use crate::coord::Coord3;

verus! {

/// An indexed triangle mesh over integer voxel-space coordinates: four
/// vertices and six indices (two triangles) per quad.
#[derive(Debug, Clone)]
pub struct MeshData {
    pub positions: Vec<Coord3>,
    pub normals: Vec<Coord3>,
    pub voxel_ids: Vec<u16>,
    pub indices: Vec<u32>,
}

impl MeshData {
    /// A mesh with no vertices and no indices.
    pub fn new() -> (m: MeshData)
        ensures
            m.positions@.len() == 0,
            m.normals@.len() == 0,
            m.voxel_ids@.len() == 0,
            m.indices@.len() == 0,
    {
        MeshData { positions: Vec::new(), normals: Vec::new(), voxel_ids: Vec::new(), indices: Vec::new() }
    }

    /// Number of quads (six indices each).
    pub fn quad_count(&self) -> (n: usize)
        ensures
            n == self.indices@.len() / 6,
    {
        self.indices.len() / 6
    }

    /// Number of triangles (three indices each).
    pub fn triangle_count(&self) -> (n: usize)
        ensures
            n == self.indices@.len() / 3,
    {
        self.indices.len() / 3
    }
}

impl Default for MeshData {
    fn default() -> (m: MeshData)
        ensures
            m.positions@.len() == 0,
            m.normals@.len() == 0,
            m.voxel_ids@.len() == 0,
            m.indices@.len() == 0,
    {
        MeshData::new()
    }
}

} // verus!
