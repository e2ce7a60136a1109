//! Small general-purpose helpers.

pub mod u24;
pub mod slice;
pub mod myasstr;
pub mod time_guard;
pub mod debugstr;
pub mod order;
