//! A small task-list library: an in-memory store of to-do items together
//! with a verified JSON codec for persisting the whole collection to a file.
//!
//! The store keeps tasks in insertion order and assigns each new task an id
//! strictly greater than every id already present. The codec writes the
//! collection as a pretty-printed JSON array and reads such an array back;
//! the two directions are proved to round-trip.

pub mod encode;
pub mod json;
pub mod ops;
pub mod parse;
pub mod roundtrip;
pub mod store;
pub mod todo;
