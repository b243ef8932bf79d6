//! A bounded associative cache with least-recently-used eviction.
//!
//! The cache stores up to a fixed number of key-value pairs. Every
//! insertion and every successful read refresh a key's recency; when an
//! insertion would exceed the capacity, the least-recently-used entry is
//! evicted. All operations are specified against a sequence model that
//! pairs each stored key with its value in recency order.

pub mod cache;
pub mod laws;
pub mod operation;
pub mod text;
