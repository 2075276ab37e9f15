//! The transactional message store.
//!
//! `MessageStore` wraps the storage engine's transactional keyspace and its
//! two partitions: `messages`, keyed by `recipient_key || be64(stored_at)`,
//! and `subscriptions`, keyed by the recipient key alone. Every operation is
//! specified against the visible contents of the two partitions, each modeled
//! as a map from key bytes to value bytes.

use vstd::prelude::*;

use crate::errors::AppError;
use crate::keys::{has_prefix, lex_lt, make_storage_key, storage_key};
use crate::record::{decode_record, encode_record, encode_record_spec, record_decodes};

verus! {

/// The storage engine's largest admissible key length in bytes.
pub const MAX_ENGINE_KEY_BYTES: usize = 65535;

/// Declares the storage engine's transactional keyspace.
#[verifier::external_type_specification]
#[verifier::external_body]
pub struct ExTxKeyspace(fjall::TransactionalKeyspace);

/// Declares the storage engine's partition handle.
#[verifier::external_type_specification]
#[verifier::external_body]
pub struct ExTxPartition(fjall::TransactionalPartitionHandle);

/// The visible contents of one partition: a map from key bytes to value bytes.
pub uninterp spec fn partition_entries(p: fjall::TransactionalPartitionHandle) -> Map<Seq<u8>, Seq<u8>>;

/// The set of byte strings held by a list of keys.
pub open spec fn key_seq_set(ks: Seq<Vec<u8>>) -> Set<Seq<u8>> {
    Set::new(|k: Seq<u8>| exists|i: int| 0 <= i < ks.len() && #[trigger] ks[i]@ == k)
}

/// Some stored value under prefix `p` in `m` fails to decode.
pub open spec fn prefix_has_corrupt(m: Map<Seq<u8>, Seq<u8>>, p: Seq<u8>) -> bool {
    exists|k: Seq<u8>|
        #[trigger] m.contains_key(k) && has_prefix(k, p) && !record_decodes(m[k])
}

/// One decoded message returned by a prefix scan.
pub struct ScanItem {
    /// The full storage key the message lives under.
    pub full_key: Vec<u8>,
    /// The opaque message payload.
    pub payload: Vec<u8>,
    /// The insertion timestamp, which is also the acknowledgment identity.
    pub stored_at: u64,
}

/// What a completed prefix scan reports: exactly the entries of `m` whose
/// key starts with `p`, each decoded, in strictly ascending key order.
pub open spec fn scan_reports(items: Seq<ScanItem>, m: Map<Seq<u8>, Seq<u8>>, p: Seq<u8>) -> bool {
    &&& forall|j: int|
        0 <= j < items.len() ==> {
            &&& has_prefix((#[trigger] items[j]).full_key@, p)
            &&& m.contains_key(items[j].full_key@)
            &&& m[items[j].full_key@] == encode_record_spec(items[j].payload@, items[j].stored_at)
        }
    &&& forall|k: Seq<u8>|
        #[trigger] m.contains_key(k) && has_prefix(k, p) ==> exists|j: int|
            0 <= j < items.len() && (#[trigger] items[j]).full_key@ == k
    &&& forall|j1: int, j2: int|
        0 <= j1 < j2 < items.len() ==> lex_lt(
            (#[trigger] items[j1]).full_key@,
            (#[trigger] items[j2]).full_key@,
        )
}

/// Copies a byte vector.
pub fn copy_bytes(v: &Vec<u8>) -> (r: Vec<u8>)
    ensures
        r@ == v@,
{
    let mut out: Vec<u8> = Vec::new();
    let mut i: usize = 0;
    while i < v.len()
        invariant
            i <= v@.len(),
            out@ == v@.subrange(0, i as int),
        decreases v@.len() - i,
    {
        out.push(v[i]);
        i += 1;
        assert(out@ =~= v@.subrange(0, i as int));
    }
    assert(out@ =~= v@);
    out
}

/// The transactional wrapper around the storage engine, holding the handles
/// of the `messages` and `subscriptions` partitions.
pub struct MessageStore {
    keyspace: fjall::TransactionalKeyspace,
    messages: fjall::TransactionalPartitionHandle,
    subscriptions: fjall::TransactionalPartitionHandle,
}

impl MessageStore {
    /// The visible messages: full storage key to stored value bytes.
    pub closed spec fn messages_view(self) -> Map<Seq<u8>, Seq<u8>> {
        partition_entries(self.messages)
    }

    /// The visible subscriptions: recipient key to opaque subscription blob.
    pub closed spec fn subs_view(self) -> Map<Seq<u8>, Seq<u8>> {
        partition_entries(self.subscriptions)
    }

    /// Relies on fjall's `Config::open_transactional`: opens (creating it
    /// if missing) the transactional keyspace rooted at `path`. Nothing is
    /// assumed about the contents found there.
    #[verifier::external_body]
    fn open_keyspace_raw(path: &str) -> (r: Result<fjall::TransactionalKeyspace, fjall::Error>)
    {
        fjall::Config::new(path).open_transactional()
    }

    /// Relies on fjall's `TxKeyspace::open_partition`: opens (creating it if
    /// missing) the named partition with default options. The engine panics
    /// on an invalid partition name, so only the two names this store uses
    /// are admitted.
    #[verifier::external_body]
    fn open_partition_raw(ks: &fjall::TransactionalKeyspace, name: &str) -> (r: Result<
        fjall::TransactionalPartitionHandle,
        fjall::Error,
    >)
        requires
            name@ == "messages"@ || name@ == "subscriptions"@,
    {
        ks.open_partition(name, fjall::PartitionCreateOptions::default())
    }

    /// Opens the store rooted at `path`, creating it if missing, with its
    /// two partitions. Each path must be open in at most one store at a
    /// time: two stores on one path would share one underlying directory
    /// while each reasons as if it were alone.
    pub fn open(path: &str) -> (r: Result<MessageStore, AppError>)
        ensures
            match r {
                Ok(s) => true,
                Err(e) => e is Storage,
            },
    {
        let keyspace = match Self::open_keyspace_raw(path) {
            Ok(k) => k,
            Err(e) => {
                return Err(AppError::Storage(e));
            },
        };
        let messages = match Self::open_partition_raw(&keyspace, "messages") {
            Ok(p) => p,
            Err(e) => {
                return Err(AppError::Storage(e));
            },
        };
        let subscriptions = match Self::open_partition_raw(&keyspace, "subscriptions") {
            Ok(p) => p,
            Err(e) => {
                return Err(AppError::Storage(e));
            },
        };
        Ok(MessageStore { keyspace, messages, subscriptions })
    }

    /// Relies on fjall's `TransactionalPartitionHandle::insert`: atomically
    /// persists one pair in the `messages` partition, visible to subsequent
    /// reads; the engine admits keys of 1 to 65535 bytes and values of at
    /// most `u32::MAX` bytes. The write runs as one transaction whose
    /// commit errors only before applying anything, so on error the
    /// partition is unchanged. The `subscriptions` partition is untouched.
    #[verifier::external_body]
    fn raw_insert(&mut self, key: &Vec<u8>, value: &Vec<u8>) -> (r: Result<(), fjall::Error>)
        requires
            1 <= key@.len() <= MAX_ENGINE_KEY_BYTES,
            value@.len() <= 0xFFFF_FFFF,
        ensures
            partition_entries(final(self).subscriptions) == partition_entries(
                old(self).subscriptions,
            ),
            match r {
                Ok(u) => partition_entries(final(self).messages) == partition_entries(
                    old(self).messages,
                ).insert(key@, value@),
                Err(e) => partition_entries(final(self).messages) == partition_entries(
                    old(self).messages,
                ),
            },
    {
        self.messages.insert(key.as_slice(), value.as_slice())
    }

    /// Relies on fjall's `TxKeyspace::read_tx` and `ReadTransaction::prefix`:
    /// one snapshot iteration over every entry of the `messages` partition
    /// whose key starts with `prefix`, in ascending byte order of the full
    /// key; a mid-scan engine error aborts the whole read.
    #[verifier::external_body]
    fn raw_scan_prefix(&self, prefix: &Vec<u8>) -> (r: Result<Vec<(Vec<u8>, Vec<u8>)>, fjall::Error>)
        ensures
            match r {
                Ok(pairs) => {
                    &&& forall|j: int|
                        0 <= j < pairs@.len() ==> {
                            &&& has_prefix((#[trigger] pairs@[j]).0@, prefix@)
                            &&& self.messages_view().contains_key(pairs@[j].0@)
                            &&& self.messages_view()[pairs@[j].0@] == pairs@[j].1@
                        }
                    &&& forall|k: Seq<u8>|
                        #[trigger] self.messages_view().contains_key(k) && has_prefix(k, prefix@)
                            ==> exists|j: int|
                            0 <= j < pairs@.len() && (#[trigger] pairs@[j]).0@ == k
                    &&& forall|j1: int, j2: int|
                        0 <= j1 < j2 < pairs@.len() ==> lex_lt(
                            (#[trigger] pairs@[j1]).0@,
                            (#[trigger] pairs@[j2]).0@,
                        )
                },
                Err(_) => true,
            },
    {
        let tx = self.keyspace.read_tx();
        let mut out: Vec<(Vec<u8>, Vec<u8>)> = Vec::new();
        for item in tx.prefix(&self.messages, prefix.as_slice()) {
            let (k, v) = item?;
            out.push((k.to_vec(), v.to_vec()));
        }
        Ok(out)
    }

    /// Relies on fjall's `TxKeyspace::write_tx`, `WriteTransaction::remove`
    /// and `WriteTransaction::commit`: removes the given keys from the
    /// `messages` partition in one transaction; the commit applies every
    /// removal, or, on error, none (the transaction is atomic). Removing an
    /// absent key is a no-op. The `subscriptions` partition is untouched.
    #[verifier::external_body]
    fn raw_delete_batch(&mut self, ks: &Vec<Vec<u8>>) -> (r: Result<(), fjall::Error>)
        requires
            forall|i: int| 0 <= i < ks@.len() ==> 1 <= (#[trigger] ks@[i])@.len() <= MAX_ENGINE_KEY_BYTES,
        ensures
            partition_entries(final(self).subscriptions) == partition_entries(
                old(self).subscriptions,
            ),
            match r {
                Ok(u) => partition_entries(final(self).messages) == partition_entries(
                    old(self).messages,
                ).remove_keys(key_seq_set(ks@)),
                Err(_) => partition_entries(final(self).messages) == partition_entries(
                    old(self).messages,
                ),
            },
    {
        let mut tx = self.keyspace.write_tx();
        for k in ks.iter() {
            tx.remove(&self.messages, k.as_slice());
        }
        tx.commit()
    }

    /// Relies on fjall's `TransactionalPartitionHandle::insert` on the
    /// `subscriptions` partition; same engine limits and same transactional
    /// write as for messages, so on error the partition is unchanged. The
    /// `messages` partition is untouched.
    #[verifier::external_body]
    fn raw_sub_insert(&mut self, key: &Vec<u8>, value: &Vec<u8>) -> (r: Result<(), fjall::Error>)
        requires
            1 <= key@.len() <= MAX_ENGINE_KEY_BYTES,
            value@.len() <= 0xFFFF_FFFF,
        ensures
            partition_entries(final(self).messages) == partition_entries(old(self).messages),
            match r {
                Ok(u) => partition_entries(final(self).subscriptions) == partition_entries(
                    old(self).subscriptions,
                ).insert(key@, value@),
                Err(e) => partition_entries(final(self).subscriptions) == partition_entries(
                    old(self).subscriptions,
                ),
            },
    {
        self.subscriptions.insert(key.as_slice(), value.as_slice())
    }

    /// Relies on fjall's `TransactionalPartitionHandle::get`: reads the value
    /// stored under `key` in the `subscriptions` partition, if any.
    #[verifier::external_body]
    fn raw_sub_get(&self, key: &Vec<u8>) -> (r: Result<Option<Vec<u8>>, fjall::Error>)
        ensures
            match r {
                Ok(o) => match o {
                    Option::Some(v) => self.subs_view().contains_key(key@)
                        && self.subs_view()[key@] == v@,
                    Option::None => !self.subs_view().contains_key(key@),
                },
                Err(_) => true,
            },
    {
        Ok(self.subscriptions.get(key.as_slice())?.map(|v| v.to_vec()))
    }

    /// Relies on fjall's `TransactionalPartitionHandle::remove` on the
    /// `subscriptions` partition: deletes the entry under `key`; removing an
    /// absent key is a no-op. The removal runs as one transaction whose
    /// commit errors only before applying anything, so on error the
    /// partition is unchanged. The `messages` partition is untouched.
    #[verifier::external_body]
    fn raw_sub_remove(&mut self, key: &Vec<u8>) -> (r: Result<(), fjall::Error>)
        requires
            1 <= key@.len() <= MAX_ENGINE_KEY_BYTES,
        ensures
            partition_entries(final(self).messages) == partition_entries(old(self).messages),
            match r {
                Ok(u) => partition_entries(final(self).subscriptions) == partition_entries(
                    old(self).subscriptions,
                ).remove(key@),
                Err(e) => partition_entries(final(self).subscriptions) == partition_entries(
                    old(self).subscriptions,
                ),
            },
    {
        self.subscriptions.remove(key.as_slice())
    }

    /// Whether a message is stored under exactly this full storage key.
    fn message_key_present(&self, full_key: &Vec<u8>) -> (r: Result<bool, AppError>)
        ensures
            match r {
                Ok(b) => b == self.messages_view().contains_key(full_key@),
                Err(e) => e is Storage,
            },
    {
        let pairs = match self.raw_scan_prefix(full_key) {
            Ok(p) => p,
            Err(e) => {
                return Err(AppError::Storage(e));
            },
        };
        let mut i: usize = 0;
        while i < pairs.len()
            invariant
                i <= pairs@.len(),
                forall|j: int|
                    0 <= j < pairs@.len() ==> self.messages_view().contains_key(
                        (#[trigger] pairs@[j]).0@,
                    ),
                forall|k: Seq<u8>|
                    #[trigger] self.messages_view().contains_key(k) && has_prefix(k, full_key@)
                        ==> exists|j: int|
                        0 <= j < pairs@.len() && (#[trigger] pairs@[j]).0@ == k,
                forall|j: int| 0 <= j < i ==> (#[trigger] pairs@[j]).0@ != full_key@,
            decreases pairs@.len() - i,
        {
            if crate::keys::bytes_eq(&pairs[i].0, full_key) {
                return Ok(true);
            }
            i += 1;
        }
        proof {
            assert(has_prefix(full_key@, full_key@)) by {
                assert(full_key@.subrange(0, full_key@.len() as int) =~= full_key@);
            }
            if self.messages_view().contains_key(full_key@) {
                let j = choose|j: int|
                    0 <= j < pairs@.len() && (#[trigger] pairs@[j]).0@ == full_key@;
                assert(false);
            }
        }
        Ok(false)
    }

    /// Stores `payload` for `recipient` under timestamp `stored_at`. The
    /// storage key must be fresh: a write whose `(recipient, stored_at)`
    /// identity is already taken is rejected, so no stored message is ever
    /// lost to a colliding write. On success the message is fully persisted
    /// and visible to scans under the key `recipient || be64(stored_at)`;
    /// on any error nothing changes.
    pub fn put(&mut self, recipient: &Vec<u8>, payload: &Vec<u8>, stored_at: u64) -> (r: Result<
        (),
        AppError,
    >)
        requires
            recipient@.len() + 8 <= MAX_ENGINE_KEY_BYTES,
            payload@.len() + 8 <= 0xFFFF_FFFF,
        ensures
            final(self).subs_view() == old(self).subs_view(),
            match r {
                Ok(u) => {
                    &&& !old(self).messages_view().contains_key(
                        storage_key(recipient@, stored_at),
                    )
                    &&& final(self).messages_view() == old(self).messages_view().insert(
                        storage_key(recipient@, stored_at),
                        encode_record_spec(payload@, stored_at),
                    )
                },
                Err(e) => {
                    &&& final(self).messages_view() == old(self).messages_view()
                    &&& (e is Storage || (e is SequenceCollision
                        && old(self).messages_view().contains_key(
                        storage_key(recipient@, stored_at),
                    )))
                },
            },
    {
        let key = make_storage_key(recipient, stored_at);
        match self.message_key_present(&key) {
            Err(e) => {
                return Err(e);
            },
            Ok(true) => {
                return Err(AppError::SequenceCollision);
            },
            Ok(false) => {},
        }
        let value = encode_record(payload, stored_at);
        match self.raw_insert(&key, &value) {
            Ok(u) => Ok(u),
            Err(e) => Err(AppError::Storage(e)),
        }
    }

    /// Relies on chrono's `Utc::now`: the current wall-clock time in
    /// milliseconds since the Unix epoch.
    #[verifier::external_body]
    fn now_millis_raw() -> (r: i64) {
        chrono::Utc::now().timestamp_millis()
    }

    /// Reads the wall clock and stores `payload` under the first free
    /// timestamp at or after it: rapid writes to one recipient within one
    /// millisecond get strictly increasing timestamps instead of colliding,
    /// so no stored message is ever lost. On success the returned timestamp
    /// names a key that was free before the call and is the message's
    /// acknowledgment identity; on any error nothing changes (the
    /// `SequenceCollision` case, every candidate timestamp taken, cannot
    /// arise until the very top of the timestamp range is occupied).
    pub fn put_now(&mut self, recipient: &Vec<u8>, payload: &Vec<u8>) -> (r: Result<u64, AppError>)
        requires
            recipient@.len() + 8 <= MAX_ENGINE_KEY_BYTES,
            payload@.len() + 8 <= 0xFFFF_FFFF,
        ensures
            final(self).subs_view() == old(self).subs_view(),
            match r {
                Ok(t) => {
                    &&& !old(self).messages_view().contains_key(storage_key(recipient@, t))
                    &&& final(self).messages_view() == old(self).messages_view().insert(
                        storage_key(recipient@, t),
                        encode_record_spec(payload@, t),
                    )
                },
                Err(e) => {
                    &&& final(self).messages_view() == old(self).messages_view()
                    &&& (e is Storage || (e is SequenceCollision
                        && old(self).messages_view().contains_key(
                        storage_key(recipient@, u64::MAX),
                    )))
                },
            },
    {
        let now = Self::now_millis_raw();
        let mut t: u64 = if now >= 0 {
            now as u64
        } else {
            0
        };
        loop
            invariant
                recipient@.len() + 8 <= MAX_ENGINE_KEY_BYTES,
                payload@.len() + 8 <= 0xFFFF_FFFF,
                self.messages_view() == old(self).messages_view(),
                self.subs_view() == old(self).subs_view(),
            decreases u64::MAX - t,
        {
            let key = make_storage_key(recipient, t);
            match self.message_key_present(&key) {
                Err(e) => {
                    return Err(e);
                },
                Ok(true) => {
                    if t == u64::MAX {
                        return Err(AppError::SequenceCollision);
                    }
                    t = t + 1;
                },
                Ok(false) => {
                    return match self.put(recipient, payload, t) {
                        Ok(u) => Ok(t),
                        Err(e) => Err(e),
                    };
                },
            }
        }
    }

    /// The deposit operation as the transport hands it over: checks the
    /// size limits, then stores the message under the first free timestamp
    /// at or after the wall clock. Exactly the oversized inputs are
    /// rejected as too large; a rejected or failed deposit stores nothing
    /// and loses nothing; on success the returned timestamp names a key
    /// that was free before the call and is the message's acknowledgment
    /// identity.
    pub fn deposit(&mut self, message_id: &Vec<u8>, message: &Vec<u8>) -> (r: Result<u64, AppError>)
        ensures
            final(self).subs_view() == old(self).subs_view(),
            match r {
                Ok(t) => {
                    &&& message_id@.len() <= crate::limits::MAX_MESSAGE_ID_BYTES
                    &&& message@.len() <= crate::limits::MAX_MESSAGE_BYTES
                    &&& !old(self).messages_view().contains_key(storage_key(message_id@, t))
                    &&& final(self).messages_view() == old(self).messages_view().insert(
                        storage_key(message_id@, t),
                        encode_record_spec(message@, t),
                    )
                },
                Err(e) => {
                    &&& final(self).messages_view() == old(self).messages_view()
                    &&& (e matches AppError::PayloadTooLarge { limit, actual } || e is Storage
                        || e is SequenceCollision)
                    &&& (e is SequenceCollision ==> old(self).messages_view().contains_key(
                        storage_key(message_id@, u64::MAX),
                    ))
                },
            },
            (message_id@.len() > crate::limits::MAX_MESSAGE_ID_BYTES || message@.len()
                > crate::limits::MAX_MESSAGE_BYTES) ==> (r matches Err(e) && e matches
                AppError::PayloadTooLarge { limit, actual }),
            (r matches Err(e) && e matches AppError::PayloadTooLarge { limit, actual }) ==> (
            message_id@.len() > crate::limits::MAX_MESSAGE_ID_BYTES || message@.len()
                > crate::limits::MAX_MESSAGE_BYTES),
    {
        match crate::limits::validate_put(message_id, message) {
            Ok(u) => {},
            Err(e) => {
                return Err(e);
            },
        }
        proof {
            crate::limits::lemma_validated_fits_engine(message_id@.len(), message@.len());
        }
        self.put_now(message_id, message)
    }

    /// One transactional pass over the mailbox of `prefix`: every stored
    /// message whose key starts with `prefix`, decoded, in ascending key
    /// order. Retrieval never deletes. A stored value that fails to decode
    /// aborts the whole read with `DataCorruption`; an engine error aborts it
    /// with `Storage` (no partial results either way).
    pub fn scan_prefix(&self, prefix: &Vec<u8>) -> (r: Result<Vec<ScanItem>, AppError>)
        ensures
            match r {
                Ok(items) => scan_reports(items@, self.messages_view(), prefix@),
                Err(e) => {
                    ||| e is Storage
                    ||| (e is DataCorruption && prefix_has_corrupt(self.messages_view(), prefix@))
                },
            },
    {
        let pairs = match self.raw_scan_prefix(prefix) {
            Ok(p) => p,
            Err(e) => {
                return Err(AppError::Storage(e));
            },
        };
        let mut items: Vec<ScanItem> = Vec::new();
        let mut i: usize = 0;
        while i < pairs.len()
            invariant
                i <= pairs@.len(),
                items@.len() == i,
                forall|j: int|
                    0 <= j < pairs@.len() ==> {
                        &&& has_prefix((#[trigger] pairs@[j]).0@, prefix@)
                        &&& self.messages_view().contains_key(pairs@[j].0@)
                        &&& self.messages_view()[pairs@[j].0@] == pairs@[j].1@
                    },
                forall|j: int|
                    0 <= j < i ==> (#[trigger] items@[j]).full_key@ == pairs@[j].0@,
                forall|j: int|
                    0 <= j < i ==> self.messages_view()[(#[trigger] items@[j]).full_key@]
                        == encode_record_spec(items@[j].payload@, items@[j].stored_at),
            decreases pairs@.len() - i,
        {
            let full_key = copy_bytes(&pairs[i].0);
            match decode_record(&pairs[i].1) {
                Option::Some(pt) => {
                    let (payload, stored_at) = pt;
                    items.push(ScanItem { full_key, payload, stored_at });
                },
                Option::None => {
                    assert(self.messages_view().contains_key(pairs@[i as int].0@)
                        && has_prefix(pairs@[i as int].0@, prefix@)
                        && !record_decodes(self.messages_view()[pairs@[i as int].0@]));
                    return Err(AppError::DataCorruption);
                },
            }
            i += 1;
        }
        assert(scan_reports(items@, self.messages_view(), prefix@)) by {
            assert(forall|k: Seq<u8>|
                #[trigger] self.messages_view().contains_key(k) && has_prefix(k, prefix@)
                    ==> exists|j: int|
                    0 <= j < items@.len() && (#[trigger] items@[j]).full_key@ == k) by {
                assert forall|k: Seq<u8>|
                    #[trigger] self.messages_view().contains_key(k) && has_prefix(k, prefix@)
                        implies exists|j: int|
                    0 <= j < items@.len() && (#[trigger] items@[j]).full_key@ == k by {
                    let j = choose|j: int|
                        0 <= j < pairs@.len() && (#[trigger] pairs@[j]).0@ == k;
                    assert(items@[j].full_key@ == k);
                }
            }
        }
        Ok(items)
    }

    /// Deletes the given storage keys in one atomic transaction: on success
    /// exactly those messages are gone; on failure none are. Deleting keys
    /// that are absent (already acknowledged, or never stored) succeeds and
    /// leaves the rest untouched.
    pub fn delete_batch(&mut self, ks: &Vec<Vec<u8>>) -> (r: Result<(), AppError>)
        requires
            forall|i: int| 0 <= i < ks@.len() ==> 1 <= (#[trigger] ks@[i])@.len() <= MAX_ENGINE_KEY_BYTES,
        ensures
            final(self).subs_view() == old(self).subs_view(),
            match r {
                Ok(u) => final(self).messages_view() == old(self).messages_view().remove_keys(
                    key_seq_set(ks@),
                ),
                Err(e) => e is Storage && final(self).messages_view() == old(self).messages_view(),
            },
    {
        match self.raw_delete_batch(ks) {
            Ok(u) => Ok(u),
            Err(e) => Err(AppError::Storage(e)),
        }
    }

    /// Deletes the one message identified by `(recipient, stored_at)`;
    /// deleting a message that is not there is a no-op, not an error.
    pub fn delete(&mut self, recipient: &Vec<u8>, stored_at: u64) -> (r: Result<(), AppError>)
        requires
            recipient@.len() + 8 <= MAX_ENGINE_KEY_BYTES,
        ensures
            final(self).subs_view() == old(self).subs_view(),
            match r {
                Ok(u) => final(self).messages_view() == old(self).messages_view().remove(
                    storage_key(recipient@, stored_at),
                ),
                Err(e) => e is Storage && final(self).messages_view() == old(self).messages_view(),
            },
    {
        let mut ks: Vec<Vec<u8>> = Vec::new();
        ks.push(make_storage_key(recipient, stored_at));
        let r = self.delete_batch(&ks);
        proof {
            let sk = storage_key(recipient@, stored_at);
            assert(ks@[0]@ == sk);
            assert forall|k: Seq<u8>| key_seq_set(ks@).contains(k) implies k == sk by {
                let i = choose|i: int| 0 <= i < ks@.len() && #[trigger] ks@[i]@ == k;
            }
            assert(old(self).messages_view().remove_keys(key_seq_set(ks@)) =~= old(self).messages_view().remove(sk));
        }
        r
    }

    /// Stores one opaque subscription blob under each of the given recipient
    /// keys, overwriting earlier blobs. The writes are applied one by one:
    /// on error, each listed recipient holds either the new blob (those
    /// before the failing write) or exactly what it held before, and
    /// everything unlisted is untouched.
    pub fn save_subscription(&mut self, recipients: &Vec<Vec<u8>>, blob: &Vec<u8>) -> (r: Result<
        (),
        AppError,
    >)
        requires
            forall|i: int|
                0 <= i < recipients@.len() ==> 1 <= (#[trigger] recipients@[i])@.len() <= MAX_ENGINE_KEY_BYTES,
            blob@.len() <= 0xFFFF_FFFF,
        ensures
            final(self).messages_view() == old(self).messages_view(),
            match r {
                Ok(u) => {
                    &&& forall|i: int|
                        0 <= i < recipients@.len() ==> final(self).subs_view().contains_key(
                            (#[trigger] recipients@[i])@,
                        ) && final(self).subs_view()[recipients@[i]@] == blob@
                    &&& forall|k: Seq<u8>|
                        !(#[trigger] key_seq_set(recipients@).contains(k)) ==> {
                            &&& (final(self).subs_view().contains_key(k) <==> old(self).subs_view().contains_key(k))
                            &&& (old(self).subs_view().contains_key(k) ==> final(self).subs_view()[k] == old(self).subs_view()[k])
                        }
                },
                Err(e) => {
                    &&& e is Storage
                    &&& forall|k: Seq<u8>|
                        !(#[trigger] key_seq_set(recipients@).contains(k)) ==> {
                            &&& (final(self).subs_view().contains_key(k) <==> old(self).subs_view().contains_key(k))
                            &&& (old(self).subs_view().contains_key(k) ==> final(self).subs_view()[k] == old(self).subs_view()[k])
                        }
                    &&& forall|j: int|
                        0 <= j < recipients@.len() ==> {
                            ||| (final(self).subs_view().contains_key((#[trigger] recipients@[j])@)
                                && final(self).subs_view()[recipients@[j]@] == blob@)
                            ||| ((final(self).subs_view().contains_key(recipients@[j]@) <==> old(self).subs_view().contains_key(recipients@[j]@))
                                && (old(self).subs_view().contains_key(recipients@[j]@) ==> final(self).subs_view()[recipients@[j]@] == old(self).subs_view()[recipients@[j]@]))
                        }
                },
            },
    {
        let mut i: usize = 0;
        while i < recipients.len()
            invariant
                i <= recipients@.len(),
                forall|j: int|
                    0 <= j < recipients@.len() ==> 1 <= (#[trigger] recipients@[j])@.len() <= MAX_ENGINE_KEY_BYTES,
                blob@.len() <= 0xFFFF_FFFF,
                self.messages_view() == old(self).messages_view(),
                forall|j: int|
                    0 <= j < i ==> self.subs_view().contains_key((#[trigger] recipients@[j])@)
                        && self.subs_view()[recipients@[j]@] == blob@,
                forall|k: Seq<u8>|
                    !(#[trigger] key_seq_set(recipients@).contains(k)) ==> {
                        &&& (self.subs_view().contains_key(k) <==> old(self).subs_view().contains_key(k))
                        &&& (old(self).subs_view().contains_key(k) ==> self.subs_view()[k] == old(self).subs_view()[k])
                    },
                forall|j: int|
                    0 <= j < recipients@.len() ==> {
                        ||| (self.subs_view().contains_key((#[trigger] recipients@[j])@)
                            && self.subs_view()[recipients@[j]@] == blob@)
                        ||| ((self.subs_view().contains_key(recipients@[j]@) <==> old(self).subs_view().contains_key(recipients@[j]@))
                            && (old(self).subs_view().contains_key(recipients@[j]@) ==> self.subs_view()[recipients@[j]@] == old(self).subs_view()[recipients@[j]@]))
                    },
            decreases recipients@.len() - i,
        {
            match self.raw_sub_insert(&recipients[i], blob) {
                Ok(u) => {},
                Err(e) => {
                    return Err(AppError::Storage(e));
                },
            }
            proof {
                assert(key_seq_set(recipients@).contains(recipients@[i as int]@));
            }
            i += 1;
        }
        Ok(())
    }

    /// Reads the subscription blob stored for `recipient`, if any.
    pub fn fetch_subscription(&self, recipient: &Vec<u8>) -> (r: Result<Option<Vec<u8>>, AppError>)
        ensures
            match r {
                Ok(o) => match o {
                    Option::Some(v) => self.subs_view().contains_key(recipient@)
                        && self.subs_view()[recipient@] == v@,
                    Option::None => !self.subs_view().contains_key(recipient@),
                },
                Err(e) => e is Storage,
            },
    {
        match self.raw_sub_get(recipient) {
            Ok(o) => Ok(o),
            Err(e) => Err(AppError::Storage(e)),
        }
    }

    /// Deletes the subscription stored for `recipient`; deleting an absent
    /// subscription is a no-op.
    pub fn remove_subscription(&mut self, recipient: &Vec<u8>) -> (r: Result<(), AppError>)
        requires
            1 <= recipient@.len() <= MAX_ENGINE_KEY_BYTES,
        ensures
            final(self).messages_view() == old(self).messages_view(),
            match r {
                Ok(u) => final(self).subs_view() == old(self).subs_view().remove(recipient@),
                Err(e) => e is Storage && final(self).subs_view() == old(self).subs_view(),
            },
    {
        match self.raw_sub_remove(recipient) {
            Ok(u) => Ok(u),
            Err(e) => Err(AppError::Storage(e)),
        }
    }
}

} // verus!
