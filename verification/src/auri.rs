//! URI and path helpers.

pub mod path;
pub mod query;
