//! The validation error taxonomy shared by both record variants.
//!
//! `check` on a record reports the first violated invariant, in this fixed
//! order: missing id, non-ASCII sequence, non-ASCII quality, length mismatch.
//! A fully empty record (every field empty or absent) is valid.

use vstd::prelude::*;

verus! {

/// The invariant a record violates, as reported by `check`.
#[derive(Clone, Copy, Debug, PartialEq, Eq, Structural)]
pub enum ValidationError {
    /// The record is not empty, yet its id is.
    MissingId,
    /// The sequence holds a byte outside the ASCII range.
    NonAsciiSequence,
    /// The quality holds a byte outside the ASCII range.
    NonAsciiQuality,
    /// Sequence and quality differ in length.
    LengthMismatch,
}

} // verus!
