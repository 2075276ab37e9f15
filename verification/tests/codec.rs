//! Tests of the storage-key and stored-value codecs and the size limits.

use mailbox::errors::AppError;
use mailbox::keys::make_storage_key;
use mailbox::limits::{validate_put, MAX_MESSAGE_BYTES, MAX_MESSAGE_ID_BYTES};
use mailbox::record::{decode_record, encode_record};

#[test]
fn storage_key_is_recipient_then_big_endian_timestamp() {
    let recipient = b"room-1".to_vec();
    let key = make_storage_key(&recipient, 0x0102030405060708);
    let mut expected = b"room-1".to_vec();
    expected.extend_from_slice(&[1, 2, 3, 4, 5, 6, 7, 8]);
    assert_eq!(key, expected);
}

#[test]
fn storage_key_of_empty_recipient_is_timestamp_alone() {
    let key = make_storage_key(&Vec::new(), 42);
    assert_eq!(key, vec![0, 0, 0, 0, 0, 0, 0, 42]);
}

#[test]
fn record_round_trip() {
    let payload = b"hello".to_vec();
    let encoded = encode_record(&payload, 42);
    assert_eq!(encoded[..8], [0, 0, 0, 0, 0, 0, 0, 42]);
    assert_eq!(&encoded[8..], b"hello");
    let decoded = decode_record(&encoded).expect("a fresh encoding must decode");
    assert_eq!(decoded.0, payload);
    assert_eq!(decoded.1, 42);
}

#[test]
fn record_round_trip_empty_payload() {
    let encoded = encode_record(&Vec::new(), u64::MAX);
    assert_eq!(encoded, vec![255u8; 8]);
    let decoded = decode_record(&encoded).expect("an empty payload still decodes");
    assert!(decoded.0.is_empty());
    assert_eq!(decoded.1, u64::MAX);
}

#[test]
fn short_value_does_not_decode() {
    assert!(decode_record(&vec![1, 2, 3, 4, 5, 6, 7]).is_none());
    assert!(decode_record(&Vec::new()).is_none());
}

#[test]
fn validate_put_accepts_inputs_at_the_limits() {
    let id = vec![b'a'; MAX_MESSAGE_ID_BYTES];
    let message = vec![b'b'; MAX_MESSAGE_BYTES];
    assert!(validate_put(&id, &message).is_ok());
}

#[test]
fn validate_put_rejects_oversized_recipient_key() {
    let id = vec![b'a'; MAX_MESSAGE_ID_BYTES + 1];
    let message = b"ok".to_vec();
    match validate_put(&id, &message) {
        Err(AppError::PayloadTooLarge { limit, actual }) => {
            assert_eq!(limit, MAX_MESSAGE_ID_BYTES);
            assert_eq!(actual, MAX_MESSAGE_ID_BYTES + 1);
        }
        _ => panic!("an oversized recipient key must be rejected"),
    }
}

#[test]
fn validate_put_rejects_oversized_payload() {
    let id = b"room-1".to_vec();
    let message = vec![b'b'; MAX_MESSAGE_BYTES + 1];
    match validate_put(&id, &message) {
        Err(AppError::PayloadTooLarge { limit, actual }) => {
            assert_eq!(limit, MAX_MESSAGE_BYTES);
            assert_eq!(actual, MAX_MESSAGE_BYTES + 1);
        }
        _ => panic!("an oversized payload must be rejected"),
    }
}

#[test]
fn error_kinds_describe_themselves() {
    let e = AppError::PayloadTooLarge { limit: 1, actual: 2 };
    assert!(!e.is_storage());
    assert_eq!(e.describe(), "payload too large");
    assert_eq!(AppError::DataCorruption.describe(), "stored record failed to decode");
    assert_eq!(AppError::SequenceCollision.describe(), "storage key already taken");
}
