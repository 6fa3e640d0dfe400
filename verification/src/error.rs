//! Decode-time errors of the layout engine.

use vstd::prelude::*;

verus! {

/// Error raised by byte-scanning and view accessors.
///
/// Malformed input is always surfaced as one of these typed errors, never as
/// a panic.
#[derive(Clone, Copy, Debug, PartialEq, Eq, Structural)]
pub enum LayoutError {
    /// The buffer ends before a declared length is satisfied.
    TruncatedInput,
    /// A tag byte (union discriminant or presence flag) matches no known
    /// variant.
    InvalidDiscriminant,
    /// An in-place overwrite was attempted with a payload whose encoded size
    /// differs from the size of the bytes it would replace.
    SizeMismatch,
}

} // verus!
