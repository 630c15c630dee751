//! Laws of the reader's decisions: what a push round, an expiry and a flush
//! of the cleanup queue leave behind.

use vstd::prelude::*;
use crate::active::{acknowledge_model, claim_expired_reason_model, release_push_model, AwaitingMap, PendingMap};
use crate::active::AwaitingAck;
use crate::dispatch::{dispatch_model, settled_slot};
use crate::registry::SessionSlot;
use crate::types::Timestamp;
use crate::expired::{kept_entries, queued, ExpiredEntry, ExpiredQueue};
use crate::redis_types::NotificationData;
use crate::types::{ClientId, ExpiredMeta};

verus! {

/// At most once, a push round that went through leaves no session with the
/// notification pending: the primary session (`q == 0`) awaits its
/// acknowledgement, with its category, the time it was sent (`now` if no
/// push was recorded) and its ttl; a session other than the primary that
/// was not awaiting it holds it in neither set afterwards.
pub proof fn law_settled_push_hands_over_to_the_primary(before: SessionSlot, q: int, id: Seq<char>, now: Timestamp)
    requires
        0 <= q,
    ensures
        !settled_slot(before, q, id, now).0.contains_key(id),
        q == 0 && before.active.pending_map().contains_key(id) ==> {
            let m = before.active.pending_map()[id];
            &&& settled_slot(before, q, id, now).1.contains_key(id)
            &&& settled_slot(before, q, id, now).1[id] == (AwaitingAck {
                category: m.data.category,
                sent_at: match m.sent_at {
                    Some(t) => t,
                    None => now,
                },
                ttl: m.data.ttl,
            })
        },
        q != 0 && !before.active.awaiting_map().contains_key(id) ==> !settled_slot(before, q, id, now).1.contains_key(id),
{
}

/// An expired notification that the retry loop settles is pending no more.
pub proof fn law_expired_retry_leaves_nothing_pending(p: PendingMap, a: AwaitingMap, id: Seq<char>)
    ensures
        !acknowledge_model(claim_expired_reason_model(p, id).0, a, id).0.contains_key(id),
{
}

/// An expired notification is never pushed.
pub proof fn law_expired_notification_is_never_pushed(p: PendingMap, n: NotificationData, cap: Option<u32>)
    ensures
        !dispatch_model(p, n, true, cap).4,
{
}

/// A push is only claimed under the cap: after the claim, the count is at
/// most the cap.
pub proof fn law_dispatch_push_stays_under_cap(p: PendingMap, n: NotificationData, cap: Option<u32>)
    ensures
        ({
            let (p3, ct, reason, attempt, pushed) = dispatch_model(p, n, false, cap);
            pushed && cap is Some ==> p3[n.id@].push_count <= cap->0
        }),
{
}

/// A push round that failed gives its claim back: the count is what it was
/// before the dispatch.
pub proof fn law_failed_round_gives_the_push_back(p: PendingMap, n: NotificationData, cap: Option<u32>)
    requires
        p.contains_key(n.id@),
        p[n.id@].push_count < u32::MAX,
    ensures
        ({
            let (p3, ct, reason, attempt, pushed) = dispatch_model(p, n, false, cap);
            pushed ==> release_push_model(p3, n.id@)[n.id@].push_count == p[n.id@].push_count
        }),
{
}

/// Queuing an expired entry twice keeps the first reason.
pub proof fn law_first_expiry_stays_queued(
    q0: ExpiredQueue,
    q1: ExpiredQueue,
    q2: ExpiredQueue,
    k: Seq<char>,
    shard1: u64,
    shard2: u64,
    id: Seq<char>,
    first: ExpiredMeta,
    second: ExpiredMeta,
)
    requires
        queued(q0, q1, k, shard1, id, first, false),
        queued(q1, q2, k, shard2, id, second, false),
        !(q0.shards().contains_key(k) && q0.ids()[k].contains_key(id)),
    ensures
        q2.ids()[k][id] == first,
{
}

/// The cleanup of a delivered entry replaces whatever was queued for it.
pub proof fn law_delivered_cleanup_overwrites(
    q0: ExpiredQueue,
    q1: ExpiredQueue,
    k: Seq<char>,
    shard: u64,
    id: Seq<char>,
    meta: ExpiredMeta,
)
    requires
        queued(q0, q1, k, shard, id, meta, true),
    ensures
        q1.ids()[k][id] == meta,
{
}

/// After a flush, no client in the queue has an entry left to delete.
pub proof fn law_flush_leaves_nothing_to_delete(s: Seq<(ClientId, ExpiredEntry)>)
    ensures
        forall|i: int| 0 <= i < kept_entries(s).len() ==> (#[trigger] kept_entries(s)[i]).1.stream_ids@.len() == 0,
    decreases s.len(),
{
    if s.len() > 0 {
        let d = s.drop_last();
        law_flush_leaves_nothing_to_delete(d);
        assert forall|i: int| 0 <= i < kept_entries(s).len() implies (#[trigger] kept_entries(s)[i]).1.stream_ids@.len() == 0 by {
            if i < kept_entries(d).len() {
                assert(kept_entries(s)[i] == kept_entries(d)[i]);
            }
        }
    }
}

} // verus!
