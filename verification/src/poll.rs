//! The long-poll coordinator.
//!
//! One retrieval request runs as a loop: scan the store for every requested
//! key; if anything was found, deliver it; otherwise wait for the earliest
//! of a wake signal, a bounded poll interval (a safety net against lost
//! notifications), or the overall deadline, and poll again. The scan, not
//! the notification, is the source of truth: the wake signal is purely a
//! latency optimization. The store is always scanned at least once, so a
//! request whose deadline has already passed still sees stored messages.

use vstd::prelude::*;

use crate::errors::AppError;
use crate::keys::has_prefix;
use crate::record::encode_record_spec;
use crate::store::{copy_bytes, prefix_has_corrupt, scan_reports, MessageStore, ScanItem};

verus! {

broadcast use vstd::prelude::Seq::lemma_flatten_push;

/// One message delivered by a retrieval request.
pub struct FoundMessage {
    /// The recipient key the request asked for.
    pub message_id: Vec<u8>,
    /// The opaque message payload.
    pub payload: Vec<u8>,
    /// The insertion timestamp: the message's acknowledgment identity.
    pub stored_at: u64,
}

/// `fs` is the scan batch `items`, re-addressed to the requested key `id`.
pub open spec fn seg_converts(id: Seq<u8>, items: Seq<ScanItem>, fs: Seq<FoundMessage>) -> bool {
    &&& fs.len() == items.len()
    &&& forall|j: int|
        0 <= j < fs.len() ==> {
            &&& (#[trigger] fs[j]).message_id@ == id
            &&& fs[j].payload@ == items[j].payload@
            &&& fs[j].stored_at == items[j].stored_at
        }
}

/// The witnessed form of a completed polling pass: per requested key one
/// scan batch (`scans`) and its conversion (`segs`), concatenated in
/// request order into the delivered sequence `r`.
pub open spec fn polled_with(
    r: Seq<FoundMessage>,
    m: Map<Seq<u8>, Seq<u8>>,
    ids: Seq<Seq<u8>>,
    segs: Seq<Seq<FoundMessage>>,
    scans: Seq<Seq<ScanItem>>,
) -> bool {
    &&& segs.len() == ids.len()
    &&& scans.len() == ids.len()
    &&& r == segs.flatten()
    &&& forall|i: int| 0 <= i < ids.len() ==> scan_reports(#[trigger] scans[i], m, ids[i])
    &&& forall|i: int| 0 <= i < ids.len() ==> seg_converts(ids[i], scans[i], #[trigger] segs[i])
}

/// What a completed polling pass delivers for the requested keys `ids`
/// against store contents `m`.
pub open spec fn polled(r: Seq<FoundMessage>, m: Map<Seq<u8>, Seq<u8>>, ids: Seq<Seq<u8>>) -> bool {
    exists|segs: Seq<Seq<FoundMessage>>, scans: Seq<Seq<ScanItem>>|
        #[trigger] polled_with(r, m, ids, segs, scans)
}

/// Re-addresses one scan batch to the requested key `id`.
fn collect_found(id: &Vec<u8>, items: &Vec<ScanItem>) -> (r: Vec<FoundMessage>)
    ensures
        seg_converts(id@, items@, r@),
{
    let mut out: Vec<FoundMessage> = Vec::new();
    let mut j: usize = 0;
    while j < items.len()
        invariant
            j <= items@.len(),
            out@.len() == j,
            forall|n: int|
                0 <= n < j ==> {
                    &&& (#[trigger] out@[n]).message_id@ == id@
                    &&& out@[n].payload@ == items@[n].payload@
                    &&& out@[n].stored_at == items@[n].stored_at
                },
        decreases items@.len() - j,
    {
        out.push(
            FoundMessage {
                message_id: copy_bytes(id),
                payload: copy_bytes(&items[j].payload),
                stored_at: items[j].stored_at,
            },
        );
        j += 1;
    }
    out
}

/// The Polling state of one retrieval request: one transactional scan per
/// requested key, in request order, with all findings united. Nothing is
/// deleted. A storage error or an undecodable record aborts the whole
/// request with no partial result.
pub fn poll_once(store: &MessageStore, ids: &Vec<Vec<u8>>) -> (r: Result<
    Vec<FoundMessage>,
    AppError,
>)
    ensures
        match r {
            Ok(found) => polled(
                found@,
                store.messages_view(),
                ids@.map_values(|v: Vec<u8>| v@),
            ),
            Err(e) => {
                ||| e is Storage
                ||| (e is DataCorruption && exists|i: int|
                    0 <= i < ids@.len() && prefix_has_corrupt(
                        store.messages_view(),
                        (#[trigger] ids@[i])@,
                    ))
            },
        },
{
    let ghost idsv: Seq<Seq<u8>> = ids@.map_values(|v: Vec<u8>| v@);
    let mut found: Vec<FoundMessage> = Vec::new();
    let ghost mut segs: Seq<Seq<FoundMessage>> = Seq::empty();
    let ghost mut scans: Seq<Seq<ScanItem>> = Seq::empty();
    let mut i: usize = 0;
    while i < ids.len()
        invariant
            i <= ids@.len(),
            idsv == ids@.map_values(|v: Vec<u8>| v@),
            segs.len() == i,
            scans.len() == i,
            found@ == segs.flatten(),
            forall|n: int|
                0 <= n < i ==> scan_reports(#[trigger] scans[n], store.messages_view(), idsv[n]),
            forall|n: int| 0 <= n < i ==> seg_converts(idsv[n], scans[n], #[trigger] segs[n]),
        decreases ids@.len() - i,
    {
        let items = match store.scan_prefix(&ids[i]) {
            Ok(items) => items,
            Err(e) => {
                proof {
                    if e is DataCorruption {
                        assert(prefix_has_corrupt(store.messages_view(), ids@[i as int]@));
                    }
                }
                return Err(e);
            },
        };
        let mut fs = collect_found(&ids[i], &items);
        let ghost fsv = fs@;
        found.append(&mut fs);
        proof {
            segs = segs.push(fsv);
            scans = scans.push(items@);
            assert(found@ == segs.flatten());
        }
        i += 1;
    }
    proof {
        assert(polled_with(found@, store.messages_view(), idsv, segs, scans));
    }
    Ok(found)
}

/// What the coordinator does after one polling pass.
pub enum PollVerdict {
    /// Messages were found: deliver them now, without deleting anything.
    Deliver,
    /// Nothing found and the deadline has passed: deliver an empty result.
    Expire,
    /// Nothing found, deadline not reached: wait at most this many
    /// milliseconds (bounded by the poll interval and by the time left),
    /// then poll again.
    Wait { duration_ms: u64 },
}

/// Decides the coordinator's next move after a polling pass that found
/// `found_count` messages, at wall-clock time `now_ms`, against the
/// request's absolute deadline and the bounded poll interval. Found
/// messages win every tie: a request whose deadline has already passed
/// still delivers what its one scan saw.
pub fn poll_decision(found_count: usize, now_ms: u64, deadline_ms: u64, interval_ms: u64) -> (v:
    PollVerdict)
    ensures
        v is Deliver <==> found_count > 0,
        v is Expire <==> (found_count == 0 && now_ms >= deadline_ms),
        v matches PollVerdict::Wait { duration_ms } ==> {
            &&& found_count == 0
            &&& now_ms < deadline_ms
            &&& now_ms + duration_ms <= deadline_ms
            &&& duration_ms <= interval_ms
            &&& duration_ms == if interval_ms <= (deadline_ms - now_ms) as u64 {
                interval_ms
            } else {
                (deadline_ms - now_ms) as u64
            }
        },
{
    if found_count > 0 {
        PollVerdict::Deliver
    } else if now_ms >= deadline_ms {
        PollVerdict::Expire
    } else {
        let remaining = deadline_ms - now_ms;
        let duration_ms = if interval_ms <= remaining {
            interval_ms
        } else {
            remaining
        };
        PollVerdict::Wait { duration_ms }
    }
}

/// Why a wait in the Waiting state ended.
pub enum WakeReason {
    /// A wake signal for one of the requested keys fired.
    Notified,
    /// The bounded poll interval elapsed.
    IntervalElapsed,
    /// The request's overall deadline was reached.
    DeadlineReached,
    /// The caller went away (client disconnect).
    Cancelled,
}

/// What the coordinator does when a wait ends.
pub enum NextStep {
    /// Scan the store again at once.
    Repoll,
    /// Deliver an empty result: the deadline has passed.
    GiveUp,
    /// Release all held wake handles and return nothing.
    Abandon,
}

/// The Waiting-state transition: a notification or an elapsed interval
/// sends the request back to Polling at once; the deadline ends it with an
/// empty result; cancellation abandons it with no result at all.
pub fn after_wait(reason: &WakeReason) -> (s: NextStep)
    ensures
        s is Repoll <==> (reason is Notified || reason is IntervalElapsed),
        s is GiveUp <==> reason is DeadlineReached,
        s is Abandon <==> reason is Cancelled,
{
    match reason {
        WakeReason::Notified => NextStep::Repoll,
        WakeReason::IntervalElapsed => NextStep::Repoll,
        WakeReason::DeadlineReached => NextStep::GiveUp,
        WakeReason::Cancelled => NextStep::Abandon,
    }
}

} // verus!
