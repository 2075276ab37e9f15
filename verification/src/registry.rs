//! The waiter registry.
//!
//! Maps a recipient key to a broadcastable wake signal shared by every
//! blocked read on that key. A subscriber takes a handle carrying the
//! signal's current epoch; a notification wakes the current holders by
//! advancing the epoch, and a handle reports woken exactly when the epoch
//! has moved past the one it saw. A notification for a key with no current
//! holder is a silent no-op: correctness never depends on its delivery,
//! because the long-poll loop always falls back to scanning the store.

use vstd::prelude::*;

verus! {

struct RegistryEntry {
    key_bytes: Vec<u8>,
    holders: usize,
    epoch: u64,
}

/// The wake signal a blocked read holds for one recipient key.
pub struct WaiterHandle {
    /// The recipient key the handle is subscribed to.
    pub recipient: Vec<u8>,
    /// The signal epoch observed at subscription time.
    pub seen_epoch: u64,
}

/// The registry of wake signals, shared by all in-flight reads.
pub struct WaiterRegistry {
    entries: Vec<RegistryEntry>,
}

/// The index of the first entry for `k`, or `-1` if there is none.
spec fn reg_find(s: Seq<RegistryEntry>, k: Seq<u8>) -> int
    decreases s.len(),
{
    if s.len() == 0 {
        -1
    } else if s[0].key_bytes@ == k {
        0
    } else if reg_find(s.skip(1), k) < 0 {
        -1
    } else {
        reg_find(s.skip(1), k) + 1
    }
}

proof fn lemma_reg_find_in_range(s: Seq<RegistryEntry>, k: Seq<u8>)
    ensures
        reg_find(s, k) >= 0 ==> reg_find(s, k) < s.len() && s[reg_find(s, k)].key_bytes@ == k,
    decreases s.len(),
{
    if s.len() > 0 && s[0].key_bytes@ != k {
        lemma_reg_find_in_range(s.skip(1), k);
    }
}

proof fn lemma_reg_find_first(s: Seq<RegistryEntry>, k: Seq<u8>, i: int)
    requires
        0 <= i < s.len(),
        s[i].key_bytes@ == k,
        forall|j: int| 0 <= j < i ==> (#[trigger] s[j]).key_bytes@ != k,
    ensures
        reg_find(s, k) == i,
    decreases i,
{
    if i > 0 {
        lemma_reg_find_first(s.skip(1), k, i - 1);
    }
}

proof fn lemma_reg_find_absent(s: Seq<RegistryEntry>, k: Seq<u8>)
    requires
        forall|j: int| 0 <= j < s.len() ==> (#[trigger] s[j]).key_bytes@ != k,
    ensures
        reg_find(s, k) == -1,
    decreases s.len(),
{
    if s.len() > 0 {
        lemma_reg_find_absent(s.skip(1), k);
    }
}

proof fn lemma_reg_find_update_same_key(s: Seq<RegistryEntry>, i: int, e: RegistryEntry, k: Seq<u8>)
    requires
        0 <= i < s.len(),
        e.key_bytes@ == s[i].key_bytes@,
    ensures
        reg_find(s.update(i, e), k) == reg_find(s, k),
    decreases s.len(),
{
    if i == 0 {
        if s[0].key_bytes@ != k {
            assert(s.update(0, e).skip(1) =~= s.skip(1));
        }
    } else {
        lemma_reg_find_update_same_key(s.skip(1), i - 1, e, k);
        assert(s.update(i, e).skip(1) =~= s.skip(1).update(i - 1, e));
    }
}

proof fn lemma_reg_find_push(s: Seq<RegistryEntry>, e: RegistryEntry, k: Seq<u8>)
    ensures
        reg_find(s.push(e), k) == if reg_find(s, k) >= 0 {
            reg_find(s, k)
        } else if e.key_bytes@ == k {
            s.len() as int
        } else {
            -1
        },
    decreases s.len(),
{
    let sp = s.push(e);
    if s.len() == 0 {
        assert(sp[0] == e);
        if e.key_bytes@ != k {
            assert(sp.skip(1) =~= Seq::<RegistryEntry>::empty());
            assert(reg_find(sp.skip(1), k) == -1);
        }
    } else {
        assert(sp[0] == s[0]);
        assert(sp.skip(1) =~= s.skip(1).push(e));
        lemma_reg_find_push(s.skip(1), e, k);
        assert(reg_find(sp.skip(1), k) == reg_find(s.skip(1).push(e), k));
    }
}

impl WaiterRegistry {
    /// A signal for `k` exists (live or not currently held).
    pub closed spec fn has_waiter(self, k: Seq<u8>) -> bool {
        reg_find(self.entries@, k) >= 0
    }

    /// The current epoch of the signal for `k`.
    pub closed spec fn epoch_of(self, k: Seq<u8>) -> u64
        recommends
            self.has_waiter(k),
    {
        self.entries@[reg_find(self.entries@, k)].epoch
    }

    /// How many in-flight reads currently hold the signal for `k`.
    pub closed spec fn holders_of(self, k: Seq<u8>) -> usize
        recommends
            self.has_waiter(k),
    {
        self.entries@[reg_find(self.entries@, k)].holders
    }

    /// An empty registry: no key has a signal yet.
    pub fn new() -> (r: WaiterRegistry)
        ensures
            forall|k: Seq<u8>| !r.has_waiter(k),
    {
        let r = WaiterRegistry { entries: Vec::new() };
        proof {
            assert forall|k: Seq<u8>| !r.has_waiter(k) by {
                lemma_reg_find_absent(r.entries@, k);
            }
        }
        r
    }

    /// The index of the entry for `key`, if any.
    fn find_entry(&self, key: &Vec<u8>) -> (r: Option<usize>)
        ensures
            match r {
                Option::Some(i) => i < self.entries@.len()
                    && self.entries@[i as int].key_bytes@ == key@
                    && reg_find(self.entries@, key@) == i,
                Option::None => reg_find(self.entries@, key@) == -1,
            },
    {
        let mut i: usize = 0;
        while i < self.entries.len()
            invariant
                i <= self.entries@.len(),
                forall|j: int| 0 <= j < i ==> (#[trigger] self.entries@[j]).key_bytes@ != key@,
            decreases self.entries@.len() - i,
        {
            if crate::keys::bytes_eq(&self.entries[i].key_bytes, key) {
                proof {
                    lemma_reg_find_first(self.entries@, key@, i as int);
                }
                return Some(i);
            }
            i += 1;
        }
        proof {
            lemma_reg_find_absent(self.entries@, key@);
        }
        None
    }

    /// Takes a handle on the wake signal for `key`, creating the signal if
    /// none exists, and recording the signal's current epoch in the handle:
    /// only notifications after this point are observed through it.
    pub fn subscribe(&mut self, key: &Vec<u8>) -> (h: WaiterHandle)
        ensures
            h.recipient@ == key@,
            final(self).has_waiter(key@),
            h.seen_epoch == final(self).epoch_of(key@),
            old(self).has_waiter(key@) ==> {
                &&& final(self).epoch_of(key@) == old(self).epoch_of(key@)
                &&& final(self).holders_of(key@) == if old(self).holders_of(key@) < usize::MAX {
                    (old(self).holders_of(key@) + 1) as usize
                } else {
                    usize::MAX
                }
            },
            !old(self).has_waiter(key@) ==> final(self).epoch_of(key@) == 0 && final(self).holders_of(key@) == 1,
            forall|k2: Seq<u8>|
                k2 != key@ ==> (final(self).has_waiter(k2) <==> old(self).has_waiter(k2)) && (old(self).has_waiter(k2) ==> final(self).epoch_of(k2) == old(self).epoch_of(k2) && final(self).holders_of(k2) == old(self).holders_of(k2)),
    {
        match self.find_entry(key) {
            Some(i) => {
                let cur_holders = self.entries[i].holders;
                let cur_epoch = self.entries[i].epoch;
                let new_holders: usize = if cur_holders < usize::MAX {
                    cur_holders + 1
                } else {
                    usize::MAX
                };
                let e = RegistryEntry {
                    key_bytes: crate::store::copy_bytes(&self.entries[i].key_bytes),
                    holders: new_holders,
                    epoch: cur_epoch,
                };
                proof {
                    assert forall|k2: Seq<u8>| #[trigger] reg_find(
                        old(self).entries@.update(i as int, e),
                        k2,
                    ) == reg_find(old(self).entries@, k2) by {
                        lemma_reg_find_update_same_key(old(self).entries@, i as int, e, k2);
                    }
                    assert forall|k2: Seq<u8>|
                        reg_find(old(self).entries@, k2) >= 0 && k2 != old(
                            self,
                        ).entries@[i as int].key_bytes@ implies old(self).entries@.update(
                        i as int,
                        e,
                    )[reg_find(old(self).entries@, k2)] == old(self).entries@[reg_find(
                        old(self).entries@,
                        k2,
                    )] by {
                        lemma_reg_find_in_range(old(self).entries@, k2);
                    }
                }
                self.entries.set(i, e);
                WaiterHandle { recipient: crate::store::copy_bytes(key), seen_epoch: cur_epoch }
            },
            None => {
                let e = RegistryEntry {
                    key_bytes: crate::store::copy_bytes(key),
                    holders: 1,
                    epoch: 0,
                };
                proof {
                    assert forall|k2: Seq<u8>| #[trigger] reg_find(
                        old(self).entries@.push(e),
                        k2,
                    ) == if reg_find(old(self).entries@, k2) >= 0 {
                        reg_find(old(self).entries@, k2)
                    } else if k2 == key@ {
                        old(self).entries@.len() as int
                    } else {
                        -1
                    } by {
                        lemma_reg_find_push(old(self).entries@, e, k2);
                    }
                    assert forall|k2: Seq<u8>| reg_find(old(self).entries@, k2) >= 0 implies
                        old(self).entries@.push(e)[reg_find(old(self).entries@, k2)]
                        == old(self).entries@[reg_find(old(self).entries@, k2)] by {
                        lemma_reg_find_in_range(old(self).entries@, k2);
                    }
                }
                self.entries.push(e);
                WaiterHandle { recipient: crate::store::copy_bytes(key), seen_epoch: 0 }
            },
        }
    }

    /// Wakes every current holder of the signal for `key` by advancing its
    /// epoch. With no signal, or no current holder, the notification is a
    /// silent no-op. Signals for other keys are never touched.
    pub fn notify(&mut self, key: &Vec<u8>)
        ensures
            final(self).has_waiter(key@) <==> old(self).has_waiter(key@),
            old(self).has_waiter(key@) ==> {
                &&& final(self).holders_of(key@) == old(self).holders_of(key@)
                &&& final(self).epoch_of(key@) == if old(self).holders_of(key@) > 0 && old(self).epoch_of(key@) < u64::MAX {
                    (old(self).epoch_of(key@) + 1) as u64
                } else {
                    old(self).epoch_of(key@)
                }
            },
            forall|k2: Seq<u8>|
                k2 != key@ ==> (final(self).has_waiter(k2) <==> old(self).has_waiter(k2)) && (old(self).has_waiter(k2) ==> final(self).epoch_of(k2) == old(self).epoch_of(k2) && final(self).holders_of(k2) == old(self).holders_of(k2)),
    {
        match self.find_entry(key) {
            Some(i) => {
                let cur_holders = self.entries[i].holders;
                let cur_epoch = self.entries[i].epoch;
                let new_epoch: u64 = if cur_holders > 0 && cur_epoch < u64::MAX {
                    cur_epoch + 1
                } else {
                    cur_epoch
                };
                let e = RegistryEntry {
                    key_bytes: crate::store::copy_bytes(&self.entries[i].key_bytes),
                    holders: cur_holders,
                    epoch: new_epoch,
                };
                proof {
                    assert forall|k2: Seq<u8>| #[trigger] reg_find(
                        old(self).entries@.update(i as int, e),
                        k2,
                    ) == reg_find(old(self).entries@, k2) by {
                        lemma_reg_find_update_same_key(old(self).entries@, i as int, e, k2);
                    }
                    assert forall|k2: Seq<u8>|
                        reg_find(old(self).entries@, k2) >= 0 && k2 != old(
                            self,
                        ).entries@[i as int].key_bytes@ implies old(self).entries@.update(
                        i as int,
                        e,
                    )[reg_find(old(self).entries@, k2)] == old(self).entries@[reg_find(
                        old(self).entries@,
                        k2,
                    )] by {
                        lemma_reg_find_in_range(old(self).entries@, k2);
                    }
                }
                self.entries.set(i, e);
            },
            None => {},
        }
    }

    /// Releases one hold on the signal for the handle's key. The signal's
    /// entry stays, with its epoch, so a handle can never be woken by a
    /// notification that preceded its subscription.
    pub fn unsubscribe(&mut self, h: &WaiterHandle)
        ensures
            final(self).has_waiter(h.recipient@) <==> old(self).has_waiter(h.recipient@),
            old(self).has_waiter(h.recipient@) ==> {
                &&& final(self).epoch_of(h.recipient@) == old(self).epoch_of(h.recipient@)
                &&& final(self).holders_of(h.recipient@) == if old(self).holders_of(h.recipient@)
                    > 0 {
                    (old(self).holders_of(h.recipient@) - 1) as usize
                } else {
                    0
                }
            },
            forall|k2: Seq<u8>|
                k2 != h.recipient@ ==> (final(self).has_waiter(k2) <==> old(self).has_waiter(k2))
                    && (old(self).has_waiter(k2) ==> final(self).epoch_of(k2) == old(self).epoch_of(k2) && final(self).holders_of(k2) == old(self).holders_of(k2)),
    {
        match self.find_entry(&h.recipient) {
            Some(i) => {
                let cur_holders = self.entries[i].holders;
                let cur_epoch = self.entries[i].epoch;
                let new_holders: usize = if cur_holders > 0 {
                    cur_holders - 1
                } else {
                    0
                };
                let e = RegistryEntry {
                    key_bytes: crate::store::copy_bytes(&self.entries[i].key_bytes),
                    holders: new_holders,
                    epoch: cur_epoch,
                };
                proof {
                    assert forall|k2: Seq<u8>| #[trigger] reg_find(
                        old(self).entries@.update(i as int, e),
                        k2,
                    ) == reg_find(old(self).entries@, k2) by {
                        lemma_reg_find_update_same_key(old(self).entries@, i as int, e, k2);
                    }
                    assert forall|k2: Seq<u8>|
                        reg_find(old(self).entries@, k2) >= 0 && k2 != old(
                            self,
                        ).entries@[i as int].key_bytes@ implies old(self).entries@.update(
                        i as int,
                        e,
                    )[reg_find(old(self).entries@, k2)] == old(self).entries@[reg_find(
                        old(self).entries@,
                        k2,
                    )] by {
                        lemma_reg_find_in_range(old(self).entries@, k2);
                    }
                }
                self.entries.set(i, e);
            },
            None => {},
        }
    }

    /// True exactly when a notification for the handle's key has fired since
    /// the handle was taken.
    pub fn was_woken(&self, h: &WaiterHandle) -> (r: bool)
        ensures
            r == (self.has_waiter(h.recipient@) && self.epoch_of(h.recipient@) > h.seen_epoch),
    {
        match self.find_entry(&h.recipient) {
            Some(i) => self.entries[i].epoch > h.seen_epoch,
            None => false,
        }
    }
}

/// A wake is never lost: if a handle for key `k` was taken no later than a
/// notification that found a live holder, the handle reports woken in the
/// state the notification produced.
pub proof fn lemma_notify_wakes(
    before: WaiterRegistry,
    after: WaiterRegistry,
    h: WaiterHandle,
    k: Seq<u8>,
)
    requires
        h.recipient@ == k,
        before.has_waiter(k),
        before.holders_of(k) >= 1,
        before.epoch_of(k) < u64::MAX,
        h.seen_epoch <= before.epoch_of(k),
        after.has_waiter(k),
        after.epoch_of(k) == before.epoch_of(k) + 1,
    ensures
        after.has_waiter(h.recipient@) && after.epoch_of(h.recipient@) > h.seen_epoch,
{
}

/// Keys are independent: a notification for one key never changes what a
/// handle for a different key observes.
pub proof fn lemma_notify_other_key_invisible(
    before: WaiterRegistry,
    after: WaiterRegistry,
    h: WaiterHandle,
    notified: Seq<u8>,
)
    requires
        h.recipient@ != notified,
        before.has_waiter(h.recipient@) ==> after.has_waiter(h.recipient@) && after.epoch_of(
            h.recipient@,
        ) == before.epoch_of(h.recipient@),
        !before.has_waiter(h.recipient@) ==> !after.has_waiter(h.recipient@),
    ensures
        (after.has_waiter(h.recipient@) && after.epoch_of(h.recipient@) > h.seen_epoch) == (
        before.has_waiter(h.recipient@) && before.epoch_of(h.recipient@) > h.seen_epoch),
{
}

} // verus!
