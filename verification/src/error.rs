//! The ways in which decoding, encoding and model edits can fail.
use vstd::prelude::*;

verus! {

/// A buffer that cannot be decoded.
#[derive(Clone, Copy, Debug, PartialEq, Eq, Structural)]
pub enum DecodeError {
    /// A field does not lie inside the addressable part of the buffer, or a
    /// declared length is negative.
    Truncated,
    /// A string field does not hold UTF-8 text.
    InvalidText,
    /// The requested occurrence of a chunk tag was not found before the end
    /// of the buffer.
    ChunkNotFound,
    /// An attribute that must hold decimal numbers holds something else.
    InvalidNumber,
    /// A voxel carries the reserved colour index 0.
    InvalidColorIndex,
    /// A voxel lies outside the model that holds it.
    VoxelOutOfBounds,
}

/// A value that a model, a voxel or the palette does not accept.
#[derive(Clone, Copy, Debug, PartialEq, Eq, Structural)]
pub enum DomainError {
    /// A model dimension exceeds the largest axis size.
    SizeTooLarge,
    /// Colour index 0 is reserved.
    ZeroColorIndex,
    /// A voxel position lies outside the model it is added to.
    OutOfBounds,
}

/// State that has no encoding.
#[derive(Clone, Copy, Debug, PartialEq, Eq, Structural)]
pub enum EncodeError {
    /// A declared size would not fit the four-byte size fields of the format.
    TooLarge,
}

} // verus!
