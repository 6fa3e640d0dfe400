//! A variable-length binary layout engine.
//!
//! The crate computes, without materializing values, how many bytes a value
//! occupies — either as a live in-memory instance or as already-encoded
//! bytes — and exposes typed, lazily-evaluating views into a shared byte
//! buffer at the correct offset for a given logical field, including fields
//! that exist only conditionally (tagged-union variants) or whose size
//! depends on runtime content (length-prefixed sequences).
//!
//! The encoding is fixed: scalars in little-endian widths, sequences as a
//! 4-byte little-endian element count followed by the concatenated element
//! encodings, optional values as a one-byte presence flag followed by the
//! payload when present, and tagged unions as a one-byte discriminant
//! followed by the active variant's fields in declared order.

pub mod error;
pub mod layout;
pub mod value;
pub mod scan;
pub mod decode;
pub mod laws;
pub mod view;
pub mod view_mut;
pub mod offsets;
pub mod ts_gen;
