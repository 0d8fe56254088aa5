//! The archive decoder: headers, byte budgets, payloads and the tree walker.
use vstd::prelude::*;

pub mod cell;
pub mod header;
pub mod ieee;
pub mod land;
pub mod layout;
pub mod payload;
pub mod reader;
pub mod stream;
pub mod tags;

pub use cell::Cell;
pub use header::{DataHeader, FieldHeader, GroupHeader, RecordHeader};
pub use land::Land;
pub use reader::{spend, ESMReader, Subblock, Worldspace};
pub use stream::ByteReader;

verus! {

/// The two supported layouts of the archive. They differ in the width of the
/// record and group headers and in a few field shapes.
#[derive(Debug, Clone, Copy, PartialEq, Eq, PartialOrd, Ord)]
pub enum DataVersion {
    Skyrim,
    Oblivion,
}

/// What a decoding run is configured with.
#[derive(Debug, Clone, Copy, PartialEq, Eq)]
pub struct ESMInfo {
    version: DataVersion,
}

impl ESMInfo {
    /// The configuration for an archive of the given layout.
    pub fn new(version: DataVersion) -> (info: Self)
        ensures
            info.version() == version,
    {
        ESMInfo { version }
    }

    /// The layout of the archive.
    pub closed spec fn spec_version(&self) -> DataVersion {
        self.version
    }

    /// The layout of the archive.
    #[verifier::when_used_as_spec(spec_version)]
    pub fn version(&self) -> (v: DataVersion)
        ensures
            v == self.version(),
    {
        self.version
    }
}

/// Why decoding stopped.
#[derive(Debug, Clone, Copy, PartialEq, Eq)]
pub enum EsmError {
    /// The stream ended before the bytes of a header or payload.
    Truncated,
    /// A tag or an identifier is not the one required at this place.
    Mismatch,
    /// A byte budget would have become negative.
    Budget,
    /// A compressed payload is malformed, or not of its declared length.
    Decompress,
    /// A terrain unit holds no coordinate field.
    MissingCoordinates,
    /// A heightfield record holds no heightfield field.
    MissingHeightfield,
}

} // verus!
