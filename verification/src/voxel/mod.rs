//! The voxel world and everything that reads or writes it.

pub mod ass_mesh;
pub mod brush;
pub mod chunk;
pub mod voxel;

pub use chunk::Scalar;
pub use voxel::Voxel;
pub mod voxel_aabb;
pub use voxel_aabb::VoxelAabb;
pub mod grid;
pub mod ground;
pub mod mesh;
pub mod nested;
pub mod simulation;
pub mod update_order;
pub mod voxel_grid;
pub mod voxels;
pub use voxels::Voxels;
