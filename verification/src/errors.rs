//! The error taxonomy of the mailbox engine.
//!
//! `Storage` carries an error of the underlying storage engine and is always
//! surfaced to the caller; `DataCorruption` reports a stored value that no
//! longer decodes (the owning request fails rather than silently dropping a
//! message); `PayloadTooLarge` reports an input rejected by the size limits.

use vstd::prelude::*;

verus! {

/// Declares the storage engine's error type so that it can be carried
/// through the library unmodified in kind.
#[verifier::external_type_specification]
#[verifier::external_body]
pub struct ExFjallError(fjall::Error);

/// An error surfaced by a mailbox operation.
#[derive(Debug)]
pub enum AppError {
    /// The underlying storage engine failed; retryable by the client.
    Storage(fjall::Error),
    /// A stored value failed to decode.
    DataCorruption,
    /// An input exceeded `limit` bytes; `actual` is its length.
    PayloadTooLarge { limit: usize, actual: usize },
    /// A write was rejected because its storage key is already taken:
    /// overwriting would lose the stored message.
    SequenceCollision,
}

impl AppError {
    /// True on the storage-failure variant.
    pub fn is_storage(&self) -> (r: bool)
        ensures
            r == (self is Storage),
    {
        match self {
            AppError::Storage(_) => true,
            _ => false,
        }
    }

    /// A short human-readable description of the error kind.
    pub fn describe(&self) -> (r: &'static str)
    {
        match self {
            AppError::Storage(_) => "storage engine error",
            AppError::DataCorruption => "stored record failed to decode",
            AppError::PayloadTooLarge { .. } => "payload too large",
            AppError::SequenceCollision => "storage key already taken",
        }
    }
}

} // verus!
