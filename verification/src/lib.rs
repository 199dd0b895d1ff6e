//! Voxel shapes on an exact integer grid, and the queries that work on any
//! voxel storage.
pub mod math;
pub mod geometry;
pub mod voxel_state;
pub mod voxel_query;
pub mod point_voxels;
pub mod voxels;
