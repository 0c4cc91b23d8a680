//! Shared helpers.

pub mod encoding;
pub mod json;
pub mod ratio;
pub mod sanitize;
pub mod text;
