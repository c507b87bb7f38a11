//! Persistence layer of a small sequencer node: a storage facade over
//! interchangeable backends (durable and in-memory), with a verified
//! binary codec for the records it stores and exact contracts for every
//! operation.

pub mod felt;
pub mod codec;
pub mod entities;
pub mod error;
pub mod kv;
pub mod keys;
pub mod store;
pub mod laws;
pub mod hex;
