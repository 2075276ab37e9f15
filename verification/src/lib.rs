//! A store-and-forward mailbox engine.
//!
//! Callers deposit opaque messages under a caller-chosen recipient key;
//! other callers retrieve all undelivered messages for a set of keys.
//! Retrieval never deletes: deletion happens only on explicit
//! acknowledgment, giving at-least-once delivery with client-controlled
//! consumption.

pub mod ack;
pub mod errors;
pub mod keys;
pub mod laws;
pub mod limits;
pub mod poll;
pub mod push;
pub mod record;
pub mod registry;
pub mod store;
