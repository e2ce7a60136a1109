//! HTML DOM abstraction with run-time checking of the element
//! structure, backed by an arena allocator.

pub mod types;
pub mod meta;
pub mod stillvec;
pub mod allocator;
pub mod pool;
pub mod check;
pub mod print;
pub mod slice_ops;
pub mod flat;
pub mod strutil;
pub mod util;
pub mod more_vec;
pub mod meta_static;
