//! End-to-end tests of the message store against the real storage engine.
//!
//! Each test opens its own keyspace under a scratch directory and drains
//! the mailboxes it uses before depositing, so reruns against a surviving
//! directory start from the same state.

use mailbox::ack::{ack, AckEntry};
use mailbox::errors::AppError;
use mailbox::poll::poll_once;
use mailbox::store::MessageStore;

fn open_store(name: &str) -> MessageStore {
    let path = format!("/tmp/mailbox_test_{}", name);
    MessageStore::open(&path).expect("the test keyspace must open")
}

/// Acknowledges everything currently stored for the given keys.
fn drain(store: &mut MessageStore, ids: &Vec<Vec<u8>>) {
    let found = poll_once(store, ids).expect("drain scan");
    let acks: Vec<AckEntry> = found
        .into_iter()
        .map(|f| AckEntry { message_id: f.message_id, stored_at: f.stored_at })
        .collect();
    ack(store, &acks).expect("drain ack");
}

#[test]
fn put_then_get_returns_the_message() {
    let mut store = open_store("put_get");
    let room = b"room-1".to_vec();
    drain(&mut store, &vec![room.clone()]);
    store.put(&room, &b"hello".to_vec(), 1_000).expect("put");
    let found = poll_once(&store, &vec![room.clone()]).expect("poll");
    assert_eq!(found.len(), 1);
    assert_eq!(found[0].message_id, room);
    assert_eq!(found[0].payload, b"hello".to_vec());
    assert_eq!(found[0].stored_at, 1_000);
}

#[test]
fn get_does_not_delete_and_ack_does() {
    let mut store = open_store("ack_cycle");
    let room = b"room-a".to_vec();
    drain(&mut store, &vec![room.clone()]);
    store.put(&room, &b"hello".to_vec(), 2_000).expect("put");

    let ids = vec![room.clone()];
    let first = poll_once(&store, &ids).expect("first poll");
    let second = poll_once(&store, &ids).expect("second poll");
    assert_eq!(first.len(), 1);
    assert_eq!(second.len(), 1);
    assert_eq!(first[0].payload, second[0].payload);
    assert_eq!(first[0].stored_at, second[0].stored_at);

    let entry = AckEntry { message_id: room.clone(), stored_at: first[0].stored_at };
    ack(&mut store, &vec![entry]).expect("ack");
    let after = poll_once(&store, &ids).expect("poll after ack");
    assert!(after.is_empty());

    let again = AckEntry { message_id: room.clone(), stored_at: first[0].stored_at };
    ack(&mut store, &vec![again]).expect("a repeated ack is a no-op returning success");
    assert!(poll_once(&store, &ids).expect("poll").is_empty());
}

#[test]
fn ack_removes_exactly_the_identified_message() {
    let mut store = open_store("ack_exact");
    let room = b"room-b".to_vec();
    drain(&mut store, &vec![room.clone()]);
    store.put(&room, &b"first".to_vec(), 10).expect("put");
    store.put(&room, &b"second".to_vec(), 20).expect("put");

    let entry = AckEntry { message_id: room.clone(), stored_at: 10 };
    ack(&mut store, &vec![entry]).expect("ack");

    let found = poll_once(&store, &vec![room.clone()]).expect("poll");
    assert_eq!(found.len(), 1);
    assert_eq!(found[0].payload, b"second".to_vec());
    assert_eq!(found[0].stored_at, 20);

    let rest = AckEntry { message_id: room, stored_at: 20 };
    ack(&mut store, &vec![rest]).expect("ack");
}

#[test]
fn empty_ack_batch_is_a_no_op() {
    let mut store = open_store("ack_empty");
    ack(&mut store, &Vec::new()).expect("an empty batch succeeds");
}

#[test]
fn messages_come_back_in_insertion_order() {
    let mut store = open_store("ordering");
    let room = b"room-c".to_vec();
    drain(&mut store, &vec![room.clone()]);
    store.put(&room, &b"one".to_vec(), 100).expect("put");
    store.put(&room, &b"two".to_vec(), 200).expect("put");
    store.put(&room, &b"three".to_vec(), 300).expect("put");

    let found = poll_once(&store, &vec![room.clone()]).expect("poll");
    assert_eq!(found.len(), 3);
    assert_eq!(found[0].stored_at, 100);
    assert_eq!(found[1].stored_at, 200);
    assert_eq!(found[2].stored_at, 300);
    assert_eq!(found[0].payload, b"one".to_vec());
    assert_eq!(found[2].payload, b"three".to_vec());
    drain(&mut store, &vec![room]);
}

#[test]
fn keys_are_independent() {
    let mut store = open_store("independent");
    let k1 = b"alpha".to_vec();
    let k2 = b"bravo".to_vec();
    drain(&mut store, &vec![k1.clone(), k2.clone()]);
    store.put(&k1, &b"for alpha".to_vec(), 7).expect("put");

    assert!(poll_once(&store, &vec![k2.clone()]).expect("poll").is_empty());

    let both = poll_once(&store, &vec![k1.clone(), k2.clone()]).expect("poll");
    assert_eq!(both.len(), 1);
    assert_eq!(both[0].message_id, k1);
    assert_eq!(both[0].payload, b"for alpha".to_vec());
    drain(&mut store, &vec![k1]);
}

#[test]
fn retrieval_matches_by_prefix() {
    let mut store = open_store("prefix");
    let full = b"room-42".to_vec();
    drain(&mut store, &vec![full.clone()]);
    store.put(&full, &b"hi".to_vec(), 5).expect("put");

    let found = poll_once(&store, &vec![b"room-".to_vec()]).expect("poll");
    assert_eq!(found.len(), 1);
    assert_eq!(found[0].message_id, b"room-".to_vec());
    assert_eq!(found[0].payload, b"hi".to_vec());
    drain(&mut store, &vec![full]);
}

#[test]
fn colliding_write_is_rejected_and_loses_nothing() {
    let mut store = open_store("collision");
    let room = b"room-d".to_vec();
    drain(&mut store, &vec![room.clone()]);
    store.put(&room, &b"kept".to_vec(), 77).expect("put");
    match store.put(&room, &b"intruder".to_vec(), 77) {
        Err(AppError::SequenceCollision) => {}
        _ => panic!("a write whose storage key is taken must be rejected"),
    }

    let found = poll_once(&store, &vec![room.clone()]).expect("poll");
    assert_eq!(found.len(), 1);
    assert_eq!(found[0].payload, b"kept".to_vec());
    drain(&mut store, &vec![room]);
}

#[test]
fn rapid_deposits_never_lose_messages() {
    let mut store = open_store("rapid");
    let room = b"room-h".to_vec();
    drain(&mut store, &vec![room.clone()]);

    let t1 = store.deposit(&room, &b"first".to_vec()).expect("deposit");
    let t2 = store.deposit(&room, &b"second".to_vec()).expect("deposit");
    assert_ne!(t1, t2, "each deposit gets a fresh timestamp");

    let found = poll_once(&store, &vec![room.clone()]).expect("poll");
    assert_eq!(found.len(), 2);
    let payloads: Vec<&[u8]> = found.iter().map(|f| f.payload.as_slice()).collect();
    assert!(payloads.contains(&b"first".as_slice()));
    assert!(payloads.contains(&b"second".as_slice()));
    drain(&mut store, &vec![room]);
}

#[test]
fn put_now_uses_the_wall_clock() {
    let mut store = open_store("put_now");
    let room = b"room-e".to_vec();
    drain(&mut store, &vec![room.clone()]);

    let t = store.put_now(&room, &b"timed".to_vec()).expect("put_now");
    assert!(t > 1_600_000_000_000, "the clock reads a plausible epoch time");
    let found = poll_once(&store, &vec![room.clone()]).expect("poll");
    assert_eq!(found.len(), 1);
    assert_eq!(found[0].stored_at, t);
    assert_eq!(found[0].payload, b"timed".to_vec());
    drain(&mut store, &vec![room]);
}

#[test]
fn delete_is_a_no_op_on_missing_messages() {
    let mut store = open_store("delete_single");
    let room = b"room-f".to_vec();
    store.put(&room, &b"gone soon".to_vec(), 9).expect("put");
    store.delete(&room, 9).expect("delete");
    assert!(poll_once(&store, &vec![room.clone()]).expect("poll").is_empty());
    store.delete(&room, 9).expect("deleting an absent message succeeds");
    store.delete(&b"never-stored".to_vec(), 1).expect("deleting an absent key succeeds");
}

#[test]
fn deposit_rejects_oversized_input_and_stores_nothing() {
    let mut store = open_store("deposit");
    let room = b"room-g".to_vec();
    drain(&mut store, &vec![room.clone()]);

    let oversized = vec![b'x'; 2049];
    match store.deposit(&room, &oversized) {
        Err(AppError::PayloadTooLarge { limit, actual }) => {
            assert_eq!(limit, 2048);
            assert_eq!(actual, 2049);
        }
        _ => panic!("an oversized deposit must be rejected"),
    }
    assert!(poll_once(&store, &vec![room.clone()]).expect("poll").is_empty());

    let t = store.deposit(&room, &b"fits".to_vec()).expect("deposit");
    let found = poll_once(&store, &vec![room.clone()]).expect("poll");
    assert_eq!(found.len(), 1);
    assert_eq!(found[0].stored_at, t);
    assert_eq!(found[0].payload, b"fits".to_vec());
    drain(&mut store, &vec![room]);
}

#[test]
fn subscriptions_store_fetch_and_remove() {
    let mut store = open_store("subscriptions");
    let k1 = b"user-1".to_vec();
    let k2 = b"user-2".to_vec();
    let blob = b"{\"endpoint\":\"https://push.example\"}".to_vec();

    store.save_subscription(&vec![k1.clone(), k2.clone()], &blob).expect("save");
    assert_eq!(store.fetch_subscription(&k1).expect("fetch"), Some(blob.clone()));
    assert_eq!(store.fetch_subscription(&k2).expect("fetch"), Some(blob.clone()));

    store.remove_subscription(&k1).expect("remove");
    assert_eq!(store.fetch_subscription(&k1).expect("fetch"), None);
    assert_eq!(store.fetch_subscription(&k2).expect("fetch"), Some(blob));

    store.remove_subscription(&k2).expect("remove");
    store.remove_subscription(&k2).expect("removing an absent subscription succeeds");
    assert_eq!(store.fetch_subscription(&b"user-3".to_vec()).expect("fetch"), None);
}
