//! Core of a streaming voxel world: sparse per-chunk voxel storage, face
//! opacity summaries, a breadth-first visibility walk over the chunk grid,
//! and the chunk lifecycle registry with its eviction policy.

pub mod chunk;
pub mod generator;
pub mod octree;
pub mod registry;
pub mod util;
pub mod visibility;
pub mod voxel;
