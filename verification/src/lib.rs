//! Core of a streaming voxel world: a toroidal coordinate system, a block
//! catalog with a guaranteed air fallback, dense voxel chunks with procedural
//! terrain banding, an octree that drives level-of-detail near an observer,
//! a streamer that reconciles desired regions against resident chunks, and a
//! face-culling mesher.

pub mod block;
pub mod chunk;
pub mod chunk_manager;
pub mod meshing;
pub mod octree;
pub mod position;
