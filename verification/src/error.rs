//! The errors with which the library's operations reject an input.

use vstd::prelude::*;

verus! {

/// Why an operation refused its input. No operation returns a partial result
/// together with an error.
#[derive(Clone, Copy, Debug, PartialEq, Eq, Structural)]
pub enum Error {
    /// The operation needs at least one point.
    EmptyInput,
    /// A component of the partition triple is zero.
    InvalidPartition,
    /// The point does not lie inside the bounds used for indexing.
    OutOfBounds,
    /// Two frames that must have the same number of points do not.
    ShapeMismatch,
    /// The resolution controller was queried without metadata, or for a frame
    /// the metadata does not describe.
    MissingMetadata,
}

impl Error {
    /// A short human-readable description of the error.
    pub fn describe(&self) -> (text: &'static str)
        ensures
            text@ == match *self {
                Error::EmptyInput => "empty input"@,
                Error::InvalidPartition => "invalid partition"@,
                Error::OutOfBounds => "point out of bounds"@,
                Error::ShapeMismatch => "shape mismatch"@,
                Error::MissingMetadata => "missing metadata"@,
            },
    {
        match self {
            Error::EmptyInput => "empty input",
            Error::InvalidPartition => "invalid partition",
            Error::OutOfBounds => "point out of bounds",
            Error::ShapeMismatch => "shape mismatch",
            Error::MissingMetadata => "missing metadata",
        }
    }
}

} // verus!
