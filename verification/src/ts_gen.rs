//! Generated-client support: a build context for collected declarations
//! and the rendering of the scalar wrapper types.

pub mod context;
pub mod types;
