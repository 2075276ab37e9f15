//! Transport-facing size limits.
//!
//! Inputs are validated before they reach the storage contract: a deposit
//! whose recipient key or payload exceeds its bound is rejected outright
//! with the offending length, and nothing is stored.

use vstd::prelude::*;

use crate::errors::AppError;

verus! {

/// The largest admissible recipient key, in bytes.
pub const MAX_MESSAGE_ID_BYTES: usize = 100;

/// The largest admissible message payload, in bytes.
pub const MAX_MESSAGE_BYTES: usize = 2048;

/// Checks a deposit against the size limits: accepts exactly the inputs
/// within both bounds, and names the limit and the offending length
/// otherwise (an oversized recipient key is reported first).
pub fn validate_put(message_id: &Vec<u8>, message: &Vec<u8>) -> (r: Result<(), AppError>)
    ensures
        r is Ok <==> (message_id@.len() <= MAX_MESSAGE_ID_BYTES && message@.len()
            <= MAX_MESSAGE_BYTES),
        message_id@.len() > MAX_MESSAGE_ID_BYTES ==> (r matches Err(e) && e matches
            AppError::PayloadTooLarge { limit, actual } && limit == MAX_MESSAGE_ID_BYTES && actual
            == message_id@.len()),
        message_id@.len() <= MAX_MESSAGE_ID_BYTES && message@.len() > MAX_MESSAGE_BYTES ==> (
        r matches Err(e) && e matches AppError::PayloadTooLarge { limit, actual } && limit
            == MAX_MESSAGE_BYTES && actual == message@.len()),
{
    if message_id.len() > MAX_MESSAGE_ID_BYTES {
        return Err(AppError::PayloadTooLarge { limit: MAX_MESSAGE_ID_BYTES, actual: message_id.len() });
    }
    if message.len() > MAX_MESSAGE_BYTES {
        return Err(AppError::PayloadTooLarge { limit: MAX_MESSAGE_BYTES, actual: message.len() });
    }
    Ok(())
}

/// A deposit that passes validation also fits the storage engine's own
/// key and value limits, so a validated put is never rejected below.
pub proof fn lemma_validated_fits_engine(id_len: nat, payload_len: nat)
    requires
        id_len <= MAX_MESSAGE_ID_BYTES,
        payload_len <= MAX_MESSAGE_BYTES,
    ensures
        id_len + 8 <= 65535,
        payload_len + 8 <= 0xFFFF_FFFF,
{
}

} // verus!
