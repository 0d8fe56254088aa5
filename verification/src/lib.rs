//! Decoding of the terrain held in a hierarchical game-data archive, and its
//! conversion into voxel chunks.
//!
//! [`esm`] walks the archive's nested groups and records and extracts the
//! heightfield of every terrain unit; [`world_gen`] turns one heightfield into
//! sixteen chunks of packed block data.
pub mod esm;
pub mod world_gen;
