//! The library's delivery guarantees, stated and proved over the contracts
//! of the store, the polling pass and the acknowledgment processor.

use vstd::prelude::*;

use crate::keys::{
    has_prefix, lemma_lex_lt_asymm, lemma_lex_lt_irrefl, lemma_storage_key_has_prefix,
    storage_key,
};
use crate::poll::{polled, polled_with, seg_converts, FoundMessage};
use crate::record::{encode_record_spec, lemma_encode_record_injective};
use crate::store::{scan_reports, ScanItem};

verus! {

/// An element of a member sequence appears in the flattened sequence.
proof fn lemma_flatten_elem<A>(segs: Seq<Seq<A>>, i: int, j: int)
    requires
        0 <= i < segs.len(),
        0 <= j < segs[i].len(),
    ensures
        exists|n: int|
            0 <= n < segs.flatten().len() && #[trigger] segs.flatten()[n] == segs[i][j],
    decreases i,
{
    if i == 0 {
        assert(segs.flatten() == segs.first() + segs.drop_first().flatten());
        assert(segs.flatten()[j] == segs[0][j]);
    } else {
        lemma_flatten_elem(segs.drop_first(), i - 1, j);
        let n0 = choose|n: int|
            0 <= n < segs.drop_first().flatten().len() && #[trigger] segs.drop_first().flatten()[n]
                == segs.drop_first()[i - 1][j];
        assert(segs.flatten() == segs.first() + segs.drop_first().flatten());
        assert(segs.flatten()[segs.first().len() + n0] == segs.drop_first().flatten()[n0]);
        assert(segs.drop_first()[i - 1] == segs[i]);
    }
}

/// Every element of a flattened sequence comes from some member sequence.
proof fn lemma_flatten_index<A>(segs: Seq<Seq<A>>, n: int)
    requires
        0 <= n < segs.flatten().len(),
    ensures
        exists|i: int, j: int|
            0 <= i < segs.len() && 0 <= j < segs[i].len() && segs.flatten()[n] == #[trigger] segs[i][j],
    decreases segs.len(),
{
    assert(segs.len() > 0);
    assert(segs.flatten() == segs.first() + segs.drop_first().flatten());
    if n < segs.first().len() {
        assert(segs.flatten()[n] == segs[0][n]);
    } else {
        let n0 = n - segs.first().len();
        lemma_flatten_index(segs.drop_first(), n0);
        let (i0, j0) = choose|i: int, j: int|
            0 <= i < segs.drop_first().len() && 0 <= j < segs.drop_first()[i].len()
                && segs.drop_first().flatten()[n0] == #[trigger] segs.drop_first()[i][j];
        assert(segs.drop_first()[i0] == segs[i0 + 1]);
        assert(segs.flatten()[n] == segs.drop_first().flatten()[n0]);
        assert(segs.flatten()[n] == segs[i0 + 1][j0]);
    }
}

/// Nothing is invented: every message a polling pass delivers carries one
/// of the requested keys and decodes a value actually stored under a key
/// of that mailbox.
pub proof fn lemma_poll_sound(
    r: Seq<FoundMessage>,
    m: Map<Seq<u8>, Seq<u8>>,
    ids: Seq<Seq<u8>>,
    n: int,
)
    requires
        polled(r, m, ids),
        0 <= n < r.len(),
    ensures
        exists|i: int, k: Seq<u8>|
            #![trigger ids[i], m.contains_key(k)]
            {
                &&& 0 <= i < ids.len()
                &&& r[n].message_id@ == ids[i]
                &&& m.contains_key(k)
                &&& has_prefix(k, ids[i])
                &&& m[k] == encode_record_spec(r[n].payload@, r[n].stored_at)
            },
{
    let (segs, scans) = choose|segs: Seq<Seq<FoundMessage>>, scans: Seq<Seq<ScanItem>>|
        #[trigger] polled_with(r, m, ids, segs, scans);
    lemma_flatten_index(segs, n);
    let (i, j) = choose|i: int, j: int|
        0 <= i < segs.len() && 0 <= j < segs[i].len() && segs.flatten()[n] == #[trigger] segs[i][j];
    assert(scan_reports(scans[i], m, ids[i]));
    assert(seg_converts(ids[i], scans[i], segs[i]));
    let k = scans[i][j].full_key@;
    assert(r[n] == segs[i][j]);
    assert(0 <= i < ids.len() && r[n].message_id@ == ids[i] && m.contains_key(k) && has_prefix(
        k,
        ids[i],
    ) && m[k] == encode_record_spec(r[n].payload@, r[n].stored_at));
}

/// No loss: a polling pass delivers every message stored in a requested
/// mailbox — for each stored entry whose key extends a requested key, some
/// delivered message carries that requested key and decodes to exactly the
/// stored value.
pub proof fn lemma_poll_no_loss(
    r: Seq<FoundMessage>,
    m: Map<Seq<u8>, Seq<u8>>,
    ids: Seq<Seq<u8>>,
    i: int,
    k: Seq<u8>,
)
    requires
        polled(r, m, ids),
        0 <= i < ids.len(),
        m.contains_key(k),
        has_prefix(k, ids[i]),
    ensures
        exists|n: int|
            0 <= n < r.len() && (#[trigger] r[n]).message_id@ == ids[i] && m[k]
                == encode_record_spec(r[n].payload@, r[n].stored_at),
{
    let (segs, scans) = choose|segs: Seq<Seq<FoundMessage>>, scans: Seq<Seq<ScanItem>>|
        #[trigger] polled_with(r, m, ids, segs, scans);
    assert(scan_reports(scans[i], m, ids[i]));
    let j = choose|j: int| 0 <= j < scans[i].len() && (#[trigger] scans[i][j]).full_key@ == k;
    assert(seg_converts(ids[i], scans[i], segs[i]));
    lemma_flatten_elem(segs, i, j);
    let n = choose|n: int|
        0 <= n < segs.flatten().len() && #[trigger] segs.flatten()[n] == segs[i][j];
    assert(r[n] == segs[i][j]);
    assert(r[n].message_id@ == ids[i] && m[k] == encode_record_spec(
        r[n].payload@,
        r[n].stored_at,
    ));
}

/// A message just deposited under a requested recipient key is delivered by
/// the next polling pass, payload and timestamp intact. Retrieval never
/// deletes, so this keeps holding until the message is acknowledged.
pub proof fn lemma_put_then_poll_delivers(
    r: Seq<FoundMessage>,
    m: Map<Seq<u8>, Seq<u8>>,
    ids: Seq<Seq<u8>>,
    i: int,
    recipient: Seq<u8>,
    payload: Seq<u8>,
    t: u64,
)
    requires
        polled(r, m.insert(storage_key(recipient, t), encode_record_spec(payload, t)), ids),
        0 <= i < ids.len(),
        ids[i] == recipient,
    ensures
        exists|n: int|
            0 <= n < r.len() && (#[trigger] r[n]).message_id@ == recipient && r[n].payload@
                == payload && r[n].stored_at == t,
{
    let stored = m.insert(storage_key(recipient, t), encode_record_spec(payload, t));
    lemma_storage_key_has_prefix(recipient, t);
    lemma_poll_no_loss(r, stored, ids, i, storage_key(recipient, t));
    let n = choose|n: int|
        0 <= n < r.len() && (#[trigger] r[n]).message_id@ == ids[i] && stored[storage_key(
            recipient,
            t,
        )] == encode_record_spec(r[n].payload@, r[n].stored_at);
    lemma_encode_record_injective(payload, t, r[n].payload@, r[n].stored_at);
    assert(r[n].message_id@ == recipient && r[n].payload@ == payload && r[n].stored_at == t);
}

/// Two messages report the same thing.
pub open spec fn found_like(a: FoundMessage, b: FoundMessage) -> bool {
    a.message_id@ == b.message_id@ && a.payload@ == b.payload@ && a.stored_at == b.stored_at
}

/// A scan's report is pinned by the store contents: any two sequences that
/// both report a scan of `p` against `m` agree item by item.
pub proof fn lemma_scan_deterministic(
    items1: Seq<ScanItem>,
    items2: Seq<ScanItem>,
    m: Map<Seq<u8>, Seq<u8>>,
    p: Seq<u8>,
)
    requires
        scan_reports(items1, m, p),
        scan_reports(items2, m, p),
    ensures
        items1.len() == items2.len(),
        forall|j: int|
            0 <= j < items1.len() ==> {
                &&& (#[trigger] items1[j]).full_key@ == items2[j].full_key@
                &&& items1[j].payload@ == items2[j].payload@
                &&& items1[j].stored_at == items2[j].stored_at
            },
    decreases items1.len(),
{
    if items1.len() == 0 {
        if items2.len() > 0 {
            assert(m.contains_key(items2[0].full_key@) && has_prefix(items2[0].full_key@, p));
            assert(false);
        }
    } else if items2.len() == 0 {
        assert(m.contains_key(items1[0].full_key@) && has_prefix(items1[0].full_key@, p));
        assert(false);
    } else {
        let k1 = items1[0].full_key@;
        let k2 = items2[0].full_key@;
        assert(m.contains_key(k1) && has_prefix(k1, p));
        assert(m.contains_key(k2) && has_prefix(k2, p));
        let j2 = choose|j: int| 0 <= j < items2.len() && (#[trigger] items2[j]).full_key@ == k1;
        let j1 = choose|j: int| 0 <= j < items1.len() && (#[trigger] items1[j]).full_key@ == k2;
        if j1 > 0 && j2 > 0 {
            assert(crate::keys::lex_lt(k1, items1[j1].full_key@));
            assert(crate::keys::lex_lt(k2, items2[j2].full_key@));
            lemma_lex_lt_asymm(k1, k2);
            assert(false);
        }
        assert(k1 == k2);
        lemma_encode_record_injective(
            items1[0].payload@,
            items1[0].stored_at,
            items2[0].payload@,
            items2[0].stored_at,
        );
        let m_rest = m.remove(k1);
        assert(scan_reports(items1.skip(1), m_rest, p)) by {
            lemma_scan_tail(items1, m, p);
        }
        assert(scan_reports(items2.skip(1), m_rest, p)) by {
            lemma_scan_tail(items2, m, p);
        }
        lemma_scan_deterministic(items1.skip(1), items2.skip(1), m_rest, p);
        assert forall|j: int| 0 <= j < items1.len() implies {
            &&& (#[trigger] items1[j]).full_key@ == items2[j].full_key@
            &&& items1[j].payload@ == items2[j].payload@
            &&& items1[j].stored_at == items2[j].stored_at
        } by {
            if j > 0 {
                assert(items1.skip(1)[j - 1] == items1[j]);
                assert(items2.skip(1)[j - 1] == items2[j]);
            }
        }
    }
}

/// Dropping a scan report's first item reports the same scan against the
/// store without that item's entry.
proof fn lemma_scan_tail(items: Seq<ScanItem>, m: Map<Seq<u8>, Seq<u8>>, p: Seq<u8>)
    requires
        scan_reports(items, m, p),
        items.len() > 0,
    ensures
        scan_reports(items.skip(1), m.remove(items[0].full_key@), p),
{
    let k0 = items[0].full_key@;
    let m_rest = m.remove(k0);
    let tail = items.skip(1);
    assert forall|j: int| 0 <= j < tail.len() implies {
        &&& has_prefix((#[trigger] tail[j]).full_key@, p)
        &&& m_rest.contains_key(tail[j].full_key@)
        &&& m_rest[tail[j].full_key@] == encode_record_spec(tail[j].payload@, tail[j].stored_at)
    } by {
        assert(tail[j] == items[j + 1]);
        assert(crate::keys::lex_lt(k0, items[j + 1].full_key@));
        if items[j + 1].full_key@ == k0 {
            lemma_lex_lt_irrefl(k0);
            assert(false);
        }
    }
    assert forall|k: Seq<u8>|
        #[trigger] m_rest.contains_key(k) && has_prefix(k, p) implies exists|j: int|
        0 <= j < tail.len() && (#[trigger] tail[j]).full_key@ == k by {
        assert(m.contains_key(k));
        let j = choose|j: int| 0 <= j < items.len() && (#[trigger] items[j]).full_key@ == k;
        assert(j != 0);
        assert(tail[j - 1] == items[j]);
        assert(tail[j - 1].full_key@ == k);
    }
    assert forall|j1: int, j2: int| 0 <= j1 < j2 < tail.len() implies crate::keys::lex_lt(
        (#[trigger] tail[j1]).full_key@,
        (#[trigger] tail[j2]).full_key@,
    ) by {
        assert(tail[j1] == items[j1 + 1]);
        assert(tail[j2] == items[j2 + 1]);
    }
}

/// Pointwise-agreeing segment lists flatten to pointwise-agreeing results.
proof fn lemma_flatten_like(segs1: Seq<Seq<FoundMessage>>, segs2: Seq<Seq<FoundMessage>>)
    requires
        segs1.len() == segs2.len(),
        forall|i: int| 0 <= i < segs1.len() ==> (#[trigger] segs1[i]).len() == segs2[i].len(),
        forall|i: int, j: int|
            0 <= i < segs1.len() && 0 <= j < segs1[i].len() ==> found_like(
                #[trigger] segs1[i][j],
                segs2[i][j],
            ),
    ensures
        segs1.flatten().len() == segs2.flatten().len(),
        forall|n: int|
            0 <= n < segs1.flatten().len() ==> found_like(
                #[trigger] segs1.flatten()[n],
                segs2.flatten()[n],
            ),
    decreases segs1.len(),
{
    if segs1.len() == 0 {
    } else {
        assert(segs1.flatten() == segs1.first() + segs1.drop_first().flatten());
        assert(segs2.flatten() == segs2.first() + segs2.drop_first().flatten());
        assert forall|i: int, j: int|
            0 <= i < segs1.drop_first().len() && 0 <= j < segs1.drop_first()[i].len()
            implies found_like(
            #[trigger] segs1.drop_first()[i][j],
            segs2.drop_first()[i][j],
        ) by {
            assert(segs1.drop_first()[i] == segs1[i + 1]);
            assert(segs2.drop_first()[i] == segs2[i + 1]);
            assert(found_like(segs1[i + 1][j], segs2[i + 1][j]));
        }
        lemma_flatten_like(segs1.drop_first(), segs2.drop_first());
        assert forall|n: int| 0 <= n < segs1.flatten().len() implies found_like(
            #[trigger] segs1.flatten()[n],
            segs2.flatten()[n],
        ) by {
            if n < segs1.first().len() {
                assert(segs1.flatten()[n] == segs1[0][n]);
                assert(segs2.flatten()[n] == segs2[0][n]);
                assert(found_like(segs1[0][n], segs2[0][n]));
            } else {
                let n0 = n - segs1.first().len();
                assert(segs1.flatten()[n] == segs1.drop_first().flatten()[n0]);
                assert(segs2.flatten()[n] == segs2.drop_first().flatten()[n0]);
            }
        }
    }
}

/// Reads are idempotent: retrieval never deletes, so against unchanged
/// store contents any two polling passes for the same keys deliver the
/// same messages, item by item.
pub proof fn lemma_poll_deterministic(
    r1: Seq<FoundMessage>,
    r2: Seq<FoundMessage>,
    m: Map<Seq<u8>, Seq<u8>>,
    ids: Seq<Seq<u8>>,
)
    requires
        polled(r1, m, ids),
        polled(r2, m, ids),
    ensures
        r1.len() == r2.len(),
        forall|n: int| 0 <= n < r1.len() ==> found_like(#[trigger] r1[n], r2[n]),
{
    let (segs1, scans1) = choose|segs: Seq<Seq<FoundMessage>>, scans: Seq<Seq<ScanItem>>|
        #[trigger] polled_with(r1, m, ids, segs, scans);
    let (segs2, scans2) = choose|segs: Seq<Seq<FoundMessage>>, scans: Seq<Seq<ScanItem>>|
        #[trigger] polled_with(r2, m, ids, segs, scans);
    assert forall|i: int| 0 <= i < segs1.len() implies (#[trigger] segs1[i]).len()
        == segs2[i].len() by {
        lemma_scan_deterministic(scans1[i], scans2[i], m, ids[i]);
    }
    assert forall|i: int, j: int|
        0 <= i < segs1.len() && 0 <= j < segs1[i].len() implies found_like(
        #[trigger] segs1[i][j],
        segs2[i][j],
    ) by {
        lemma_scan_deterministic(scans1[i], scans2[i], m, ids[i]);
        assert(seg_converts(ids[i], scans1[i], segs1[i]));
        assert(seg_converts(ids[i], scans2[i], segs2[i]));
    }
    lemma_flatten_like(segs1, segs2);
}

/// Within one recipient key, a scan delivers messages in insertion order:
/// two delivered items stored under the same recipient appear with their
/// timestamps strictly ascending.
pub proof fn lemma_scan_sorted_by_time(
    items: Seq<ScanItem>,
    m: Map<Seq<u8>, Seq<u8>>,
    p: Seq<u8>,
    j1: int,
    j2: int,
    recipient: Seq<u8>,
)
    requires
        scan_reports(items, m, p),
        0 <= j1 < j2 < items.len(),
        items[j1].full_key@ == storage_key(recipient, items[j1].stored_at),
        items[j2].full_key@ == storage_key(recipient, items[j2].stored_at),
    ensures
        items[j1].stored_at < items[j2].stored_at,
{
    let t1 = items[j1].stored_at;
    let t2 = items[j2].stored_at;
    assert(crate::keys::lex_lt(items[j1].full_key@, items[j2].full_key@));
    if t1 == t2 {
        lemma_lex_lt_irrefl(items[j1].full_key@);
        assert(false);
    } else if t1 > t2 {
        crate::keys::lemma_storage_key_order(recipient, t2, t1);
        lemma_lex_lt_asymm(items[j2].full_key@, items[j1].full_key@);
        assert(false);
    }
}

/// Independent keys: what a scan of one mailbox reports depends only on the
/// stored entries whose key extends that mailbox's key.
pub proof fn lemma_scan_ignores_other_keys(
    items: Seq<ScanItem>,
    m1: Map<Seq<u8>, Seq<u8>>,
    m2: Map<Seq<u8>, Seq<u8>>,
    p: Seq<u8>,
)
    requires
        scan_reports(items, m1, p),
        forall|k: Seq<u8>| #[trigger]
            has_prefix(k, p) ==> (m1.contains_key(k) <==> m2.contains_key(k)),
        forall|k: Seq<u8>| #[trigger]
            has_prefix(k, p) && m1.contains_key(k) ==> m1[k] == m2[k],
    ensures
        scan_reports(items, m2, p),
{
}

/// Independent keys, delivery side: a requested key under which nothing is
/// stored contributes nothing — no delivered message carries it. Results
/// for the other requested keys are unaffected (`lemma_poll_no_loss`).
pub proof fn lemma_empty_mailbox_not_delivered(
    r: Seq<FoundMessage>,
    m: Map<Seq<u8>, Seq<u8>>,
    ids: Seq<Seq<u8>>,
    i: int,
)
    requires
        polled(r, m, ids),
        0 <= i < ids.len(),
        forall|k: Seq<u8>| #[trigger] m.contains_key(k) ==> !has_prefix(k, ids[i]),
    ensures
        forall|n: int| 0 <= n < r.len() ==> (#[trigger] r[n]).message_id@ != ids[i],
{
    assert forall|n: int| 0 <= n < r.len() implies (#[trigger] r[n]).message_id@ != ids[i] by {
        if r[n].message_id@ == ids[i] {
            lemma_poll_sound(r, m, ids, n);
            let (i2, k) = choose|i2: int, k: Seq<u8>|
                #![trigger ids[i2], m.contains_key(k)]
                {
                    &&& 0 <= i2 < ids.len()
                    &&& r[n].message_id@ == ids[i2]
                    &&& m.contains_key(k)
                    &&& has_prefix(k, ids[i2])
                    &&& m[k] == encode_record_spec(r[n].payload@, r[n].stored_at)
                };
            assert(ids[i2] == ids[i]);
            assert(false);
        }
    }
}

/// A deposit for a recipient that does not extend the scanned key is
/// invisible to that scan.
pub proof fn lemma_put_other_recipient_invisible(
    items: Seq<ScanItem>,
    m: Map<Seq<u8>, Seq<u8>>,
    p: Seq<u8>,
    k2: Seq<u8>,
    v2: Seq<u8>,
)
    requires
        scan_reports(items, m, p),
        !has_prefix(k2, p),
    ensures
        scan_reports(items, m.insert(k2, v2), p),
{
    lemma_scan_ignores_other_keys(items, m, m.insert(k2, v2), p);
}

} // verus!
