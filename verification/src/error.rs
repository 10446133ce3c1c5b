//! The ways in which a conversion is refused.

use vstd::prelude::*;

verus! {

/// The decoded buffer does not have the length of the image it is said to hold.
#[derive(Clone, Copy, Debug, PartialEq, Eq, Structural)]
pub enum BufferLengthError {
    /// The length is no multiple of three, so the buffer is not made of RGB triples.
    Format,
    /// The buffer is made of triples, but not of width times height of them.
    DimensionMismatch,
}

/// Why no array text was produced.
#[derive(Clone, Copy, Debug, PartialEq, Eq, Structural)]
pub enum ConvertError {
    /// The buffer has the wrong length.
    BufferLength(BufferLengthError),
    /// Packing was asked for, and the row does not divide into groups of eight pixels.
    CompactDivisibility,
}

impl ConvertError {
    /// A short description that names the stage which failed.
    pub fn message(&self) -> (text: &'static str)
        ensures
            text@ == (match *self {
                ConvertError::BufferLength(BufferLengthError::Format) =>
                    "decoded buffer: length is not a multiple of 3"@,
                ConvertError::BufferLength(BufferLengthError::DimensionMismatch) =>
                    "decoded buffer: length is not width * height * 3"@,
                ConvertError::CompactDivisibility =>
                    "packing: width is not a multiple of 8"@,
            }),
    {
        match self {
            ConvertError::BufferLength(BufferLengthError::Format) =>
                "decoded buffer: length is not a multiple of 3",
            ConvertError::BufferLength(BufferLengthError::DimensionMismatch) =>
                "decoded buffer: length is not width * height * 3",
            ConvertError::CompactDivisibility => "packing: width is not a multiple of 8",
        }
    }
}

} // verus!
