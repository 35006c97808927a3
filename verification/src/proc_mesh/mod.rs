//! Procedural meshes: the integer layout of fences.

pub mod fence;
