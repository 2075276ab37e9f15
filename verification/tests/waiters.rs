//! Tests of the waiter registry and the long-poll decision logic.

use mailbox::poll::{after_wait, poll_decision, NextStep, PollVerdict, WakeReason};
use mailbox::registry::WaiterRegistry;

#[test]
fn subscriber_is_woken_by_a_later_notification() {
    let mut reg = WaiterRegistry::new();
    let key = b"room-1".to_vec();
    let handle = reg.subscribe(&key);
    assert!(!reg.was_woken(&handle));
    reg.notify(&key);
    assert!(reg.was_woken(&handle));
}

#[test]
fn notification_for_another_key_does_not_wake() {
    let mut reg = WaiterRegistry::new();
    let k1 = b"room-1".to_vec();
    let k2 = b"room-2".to_vec();
    let h1 = reg.subscribe(&k1);
    let h2 = reg.subscribe(&k2);
    reg.notify(&k1);
    assert!(reg.was_woken(&h1));
    assert!(!reg.was_woken(&h2));
}

#[test]
fn notification_before_subscription_is_never_observed() {
    let mut reg = WaiterRegistry::new();
    let key = b"room-1".to_vec();
    let early = reg.subscribe(&key);
    reg.notify(&key);
    let late = reg.subscribe(&key);
    assert!(reg.was_woken(&early));
    assert!(!reg.was_woken(&late));
}

#[test]
fn notification_with_no_holder_is_a_silent_no_op() {
    let mut reg = WaiterRegistry::new();
    let key = b"room-1".to_vec();
    reg.notify(&key);
    let handle = reg.subscribe(&key);
    assert!(!reg.was_woken(&handle));
    let second = reg.subscribe(&key);
    reg.unsubscribe(&handle);
    reg.unsubscribe(&second);
    reg.notify(&key);
    let third = reg.subscribe(&key);
    assert!(!reg.was_woken(&third));
}

#[test]
fn two_waiters_on_one_key_are_both_woken() {
    let mut reg = WaiterRegistry::new();
    let key = b"room-1".to_vec();
    let h1 = reg.subscribe(&key);
    let h2 = reg.subscribe(&key);
    reg.notify(&key);
    assert!(reg.was_woken(&h1));
    assert!(reg.was_woken(&h2));
}

#[test]
fn found_messages_are_delivered_even_past_the_deadline() {
    assert!(matches!(poll_decision(3, 10_000, 5_000, 300), PollVerdict::Deliver));
    assert!(matches!(poll_decision(1, 0, 5_000, 300), PollVerdict::Deliver));
}

#[test]
fn empty_poll_expires_exactly_at_the_deadline() {
    assert!(matches!(poll_decision(0, 5_000, 5_000, 300), PollVerdict::Expire));
    assert!(matches!(poll_decision(0, 5_001, 5_000, 300), PollVerdict::Expire));
}

#[test]
fn empty_poll_waits_for_interval_or_remaining_time() {
    match poll_decision(0, 1_000, 5_000, 300) {
        PollVerdict::Wait { duration_ms } => assert_eq!(duration_ms, 300),
        _ => panic!("an empty poll before the deadline must wait"),
    }
    match poll_decision(0, 4_900, 5_000, 300) {
        PollVerdict::Wait { duration_ms } => assert_eq!(duration_ms, 100),
        _ => panic!("the wait never overshoots the deadline"),
    }
}

#[test]
fn wake_reasons_drive_the_state_machine() {
    assert!(matches!(after_wait(&WakeReason::Notified), NextStep::Repoll));
    assert!(matches!(after_wait(&WakeReason::IntervalElapsed), NextStep::Repoll));
    assert!(matches!(after_wait(&WakeReason::DeadlineReached), NextStep::GiveUp));
    assert!(matches!(after_wait(&WakeReason::Cancelled), NextStep::Abandon));
}
