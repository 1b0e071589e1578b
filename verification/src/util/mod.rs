//! Helpers to walk the log and to measure the input.
pub mod edit_map;
pub mod skip;
pub mod slice;
