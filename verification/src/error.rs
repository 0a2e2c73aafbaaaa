//! The error type shared by every fallible codec operation.

use vstd::prelude::*;

verus! {

/// What a fallible codec operation can report.  Each bounds variant
/// carries the attempted offset or length, the cursor position at the
/// time of the attempt, and the buffer length that would have been
/// crossed.
#[derive(Debug, PartialEq, Eq)]
pub enum Error {
    /// A free-form contextual message, for failures not covered by a
    /// structured variant (a string terminator that was never found).
    String(String),
    /// A run of 16-bit units did not decode as UTF-16 text.
    FromUtf16Error,
    /// Too few bytes remained for a fixed-width read.
    TryFromSliceError,
    /// Moving the cursor (offset, position, bound) would cross the bound.
    TryOffsetError(usize, usize, usize),
    /// Storing a primitive (name, position, bound) would cross the bound.
    TryStoreError(&'static str, usize, usize),
    /// Storing a run of (byte length, position, bound) would cross the
    /// bound.
    TryStoreSliceError(usize, usize, usize),
}

} // verus!
