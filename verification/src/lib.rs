//! Voxel world logic: voxel definitions, chunk storage, the chunked voxel
//! world, integer boxes, falling-sand simulation steps, meshing, the choice
//! of camera and the layout of fences.

pub mod camera;
pub mod map;
pub mod math;
pub mod proc_mesh;
pub mod voxel;
