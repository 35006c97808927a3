//! Chunk meshing.

pub mod binary_greedy;
pub mod material;
pub mod mesh_chunks;
pub mod queue;
