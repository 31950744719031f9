//! Voxel storage, meshing, editing and file-format logic of the voxel engine.

pub mod coord;
pub mod voxel;
pub mod chunk;
pub mod mesh;
pub mod mesher;
pub mod brush;
pub mod face;
pub mod world;
pub mod persistence;
pub mod raycast;
pub mod gltf;
pub mod gltf_import;
pub mod obj;
pub mod editor;

pub use chunk::{Chunk, CHUNK_SIZE, CHUNK_VOLUME};
pub use coord::Coord3;
pub use mesh::MeshData;
pub use voxel::Voxel;
