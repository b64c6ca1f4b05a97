//! The outside crates, each behind a few functions with stated results.
pub mod delimited;
pub mod encoding;
pub mod json;
pub mod mime;
pub mod picture;
pub mod tars;
pub mod zips;
