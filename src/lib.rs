//! An in-memory store of numeric vectors under string keys, the text command
//! language that drives it, and the exact k-nearest selection it answers with.
//!
//! Vector elements are IEEE-754 binary32 values held as their bit patterns
//! (`u32`), so the store keeps and returns every value exactly as given.

pub mod select;
pub mod store;
pub mod number;
pub mod command;
pub mod session;
