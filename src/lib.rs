//! Sparse voxel octree packing and greedy page meshing.
//!
//! The library turns a dense voxel source into a pointer-free pre-order buffer
//! (`octree`) and turns 8x8x8 voxel pages into render quads (`mesher`).
use vstd::prelude::*;

pub mod types;
pub mod bbox;
pub mod face;
pub mod grid;
pub mod builder;
pub mod octree;
pub mod page;
pub mod mesher;
pub mod event_manager;
