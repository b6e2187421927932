//! The closed taxonomy of failure conditions.
//!
//! Every operation of this crate reports its failures through this one
//! enumeration. All conditions are terminal for the operation that raised
//! them: nothing is retried or logged at this layer, and the caller decides
//! any recovery policy.
//!
//! The writer path raises only `InvalidTensorView`, `ValidationOverflow` and
//! (defensively) `JsonError`; the remaining variants are the shared
//! vocabulary for a reader of the container format.

use vstd::prelude::*;
use crate::dtype::Dtype;

verus! {

/// A failure condition of the serialization or validation engine.
#[derive(Debug, Clone, PartialEq, Eq)]
pub enum SafeTensorError {
    /// The header bytes are not valid UTF-8.
    InvalidHeader,
    /// The header's first byte is not the expected opening brace.
    InvalidHeaderStart,
    /// The header is valid UTF-8 but not well-formed JSON of the expected
    /// schema.
    InvalidHeaderDeserialization,
    /// The declared header length exceeds the accepted maximum.
    HeaderTooLarge,
    /// The container is smaller than the 8-byte length prefix.
    HeaderTooSmall,
    /// The declared header length is inconsistent with the container.
    InvalidHeaderLength,
    /// A referenced tensor name has no corresponding entry.
    TensorNotFound,
    /// Shape, dtype and offsets are individually well-typed but jointly
    /// inconsistent.
    TensorInvalidInfo,
    /// Declared data offsets fall outside the payload segment or are
    /// non-monotonic.
    InvalidOffset,
    /// A wrapped failure of the underlying byte transport.
    IoError,
    /// A wrapped failure of the JSON codec.
    JsonError,
    /// A byte buffer's length does not match what the paired dtype and shape
    /// require; carries the dtype, the shape, and the actual byte length.
    InvalidTensorView(Dtype, Vec<usize>, usize),
    /// The declared offsets do not fully and exactly cover the payload
    /// segment.
    MetadataIncompleteBuffer,
    /// Arithmetic overflow while computing element counts or cumulative
    /// offsets.
    ValidationOverflow,
    /// A sub-byte-width access crosses a byte boundary that standard slicing
    /// cannot represent.
    MisalignedSlice,
}

} // verus!
