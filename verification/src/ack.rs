//! The acknowledgment processor.
//!
//! Applies a batch of (recipient key, stored-at) deletions to the message
//! store inside one transaction: the whole batch succeeds together or fails
//! together, so a client can never believe a subset succeeded when the
//! transaction rolled back. Acknowledging a message that is already gone is
//! a no-op, which makes acknowledgment idempotent.

use vstd::prelude::*;

use crate::errors::AppError;
use crate::keys::{lemma_storage_key_injective, make_storage_key, storage_key};
use crate::store::{key_seq_set, MessageStore, MAX_ENGINE_KEY_BYTES};

verus! {

/// One acknowledgment: the recipient key and the `stored_at` identity of
/// the message the client consumed.
pub struct AckEntry {
    /// The recipient key the message was stored under.
    pub message_id: Vec<u8>,
    /// The insertion timestamp returned when the message was delivered.
    pub stored_at: u64,
}

/// The storage keys identified by a batch of acknowledgments.
pub open spec fn ack_key_set(acks: Seq<AckEntry>) -> Set<Seq<u8>> {
    Set::new(
        |k: Seq<u8>|
            exists|i: int|
                0 <= i < acks.len() && k == storage_key(
                    (#[trigger] acks[i]).message_id@,
                    acks[i].stored_at,
                ),
    )
}

/// Deletes the acknowledged messages in one transaction. An empty batch is
/// a no-op returning success. On success exactly the identified storage
/// keys are gone, present or not; on failure the store is unchanged and no
/// partial acknowledgment took place.
pub fn ack(store: &mut MessageStore, acks: &Vec<AckEntry>) -> (r: Result<(), AppError>)
    requires
        forall|i: int|
            0 <= i < acks@.len() ==> (#[trigger] acks@[i]).message_id@.len() + 8 <= MAX_ENGINE_KEY_BYTES,
    ensures
        final(store).subs_view() == old(store).subs_view(),
        acks@.len() == 0 ==> r is Ok,
        match r {
            Ok(u) => final(store).messages_view() == old(store).messages_view().remove_keys(
                ack_key_set(acks@),
            ),
            Err(e) => e is Storage && final(store).messages_view() == old(store).messages_view(),
        },
{
    if acks.len() == 0 {
        proof {
            assert(old(store).messages_view().remove_keys(ack_key_set(acks@))
                =~= old(store).messages_view());
        }
        return Ok(());
    }
    let mut ks: Vec<Vec<u8>> = Vec::new();
    let mut i: usize = 0;
    while i < acks.len()
        invariant
            i <= acks@.len(),
            ks@.len() == i,
            forall|j: int|
                0 <= j < acks@.len() ==> (#[trigger] acks@[j]).message_id@.len() + 8 <= MAX_ENGINE_KEY_BYTES,
            forall|j: int|
                0 <= j < i ==> (#[trigger] ks@[j])@ == storage_key(
                    acks@[j].message_id@,
                    acks@[j].stored_at,
                ),
        decreases acks@.len() - i,
    {
        let k = make_storage_key(&acks[i].message_id, acks[i].stored_at);
        ks.push(k);
        i += 1;
    }
    proof {
        assert forall|k: Seq<u8>| key_seq_set(ks@).contains(k) implies ack_key_set(
            acks@,
        ).contains(k) by {
            let j = choose|j: int| 0 <= j < ks@.len() && (#[trigger] ks@[j])@ == k;
            assert(0 <= j < acks@.len() && k == storage_key(
                acks@[j].message_id@,
                acks@[j].stored_at,
            ));
        }
        assert forall|k: Seq<u8>| ack_key_set(acks@).contains(k) implies key_seq_set(
            ks@,
        ).contains(k) by {
            let j = choose|j: int|
                0 <= j < acks@.len() && k == storage_key(
                    (#[trigger] acks@[j]).message_id@,
                    acks@[j].stored_at,
                );
            assert(0 <= j < ks@.len() && (ks@[j])@ == k);
        }
        assert(key_seq_set(ks@) =~= ack_key_set(acks@));
    }
    store.delete_batch(&ks)
}

/// Acknowledgment is exact: a message whose (recipient key, stored-at)
/// identity is not in the batch survives it with its stored value intact.
pub proof fn lemma_ack_keeps_others(
    m: Map<Seq<u8>, Seq<u8>>,
    acks: Seq<AckEntry>,
    other_id: Seq<u8>,
    other_at: u64,
)
    requires
        m.contains_key(storage_key(other_id, other_at)),
        forall|i: int|
            0 <= i < acks.len() ==> !((#[trigger] acks[i]).message_id@ == other_id
                && acks[i].stored_at == other_at),
    ensures
        m.remove_keys(ack_key_set(acks)).contains_key(storage_key(other_id, other_at)),
        m.remove_keys(ack_key_set(acks))[storage_key(other_id, other_at)] == m[storage_key(
            other_id,
            other_at,
        )],
{
    let k = storage_key(other_id, other_at);
    assert(!ack_key_set(acks).contains(k)) by {
        if ack_key_set(acks).contains(k) {
            let i = choose|i: int|
                0 <= i < acks.len() && k == storage_key(
                    (#[trigger] acks[i]).message_id@,
                    acks[i].stored_at,
                );
            lemma_storage_key_injective(
                other_id,
                other_at,
                acks[i].message_id@,
                acks[i].stored_at,
            );
        }
    }
}

/// Every acknowledged identity is gone afterwards.
pub proof fn lemma_ack_removes_identified(m: Map<Seq<u8>, Seq<u8>>, acks: Seq<AckEntry>, i: int)
    requires
        0 <= i < acks.len(),
    ensures
        !m.remove_keys(ack_key_set(acks)).contains_key(
            storage_key(acks[i].message_id@, acks[i].stored_at),
        ),
{
    assert(ack_key_set(acks).contains(storage_key(acks[i].message_id@, acks[i].stored_at)));
}

/// Acknowledgment is idempotent: repeating a batch removal is a no-op.
pub proof fn lemma_ack_idempotent(m: Map<Seq<u8>, Seq<u8>>, acks: Seq<AckEntry>)
    ensures
        m.remove_keys(ack_key_set(acks)).remove_keys(ack_key_set(acks)) == m.remove_keys(
            ack_key_set(acks),
        ),
{
    assert(m.remove_keys(ack_key_set(acks)).remove_keys(ack_key_set(acks)) =~= m.remove_keys(
        ack_key_set(acks),
    ));
}

} // verus!
