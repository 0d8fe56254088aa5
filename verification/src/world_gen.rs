//! The voxelizer: from one heightfield to sixteen chunks of packed blocks.
use vstd::prelude::*;

pub mod block_state;
pub mod chunk;
pub mod region;
pub mod terrain;

pub use block_state::{Block, BlockState};
pub use chunk::{Biomes, Chunk, Section};
pub use terrain::{parse_land, LandChunks};

verus! {

/// Why a palette, a heightfield or a chunk was refused.
#[derive(Debug, Clone, Copy, PartialEq, Eq)]
pub enum WorldGenError {
    /// A palette holds sixteen block types or more.
    PaletteTooLong,
    /// A heightfield does not hold 1089 samples.
    SampleCount,
    /// The chunk coordinates of a terrain unit do not fit their type.
    CellOutOfRange,
    /// A column reaches beyond the highest section that a chunk can hold.
    TooHigh,
    /// The stored offset of a heightfield is no number, or so far from zero
    /// that the heights of its samples cannot be held.
    OffsetOutOfReach,
}

} // verus!
