//! The failures that the conversions report.

use vstd::prelude::*;

verus! {

/// Why a conversion was refused.
#[derive(Clone, Copy, Debug, PartialEq, Eq, Structural)]
pub enum GeohashError {
    /// Longitude or latitude lies outside the legal range.
    InvalidCoordinate,
    /// The requested geohash length is zero or beyond the supported maximum.
    InvalidLength,
    /// The geohash holds a character outside the base-32 alphabet.
    InvalidGeohashCharacter,
    /// The geohash to decode is empty.
    EmptyInput,
    /// The longitude and latitude sequences of a batch differ in length.
    LengthMismatch,
    /// An explicit thread count of zero was given.
    InvalidThreadCount,
    /// The worker pool could not be built.
    ThreadPoolCreationFailed,
}

/// Why a batch was refused: the failure, and the position of the input
/// element that caused it, where one element did.
#[derive(Clone, Copy, Debug, PartialEq, Eq)]
pub struct BatchError {
    pub error: GeohashError,
    pub position: Option<usize>,
}

impl BatchError {
    /// A failure of the batch as a whole.
    pub open spec fn whole(error: GeohashError) -> BatchError {
        BatchError { error, position: None }
    }
}

} // verus!
