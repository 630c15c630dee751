//! The reader's decisions on what it read: which sessions learn of a batch,
//! which notification is pushed, retried, dropped as expired or settled after
//! a round of pushes. The reads, the sends and the clock stay with the caller,
//! which hands in what they gave.

use vstd::prelude::*;
use crate::active::{
    acknowledge_model, attempt_label, claim_expired_reason_model, claim_push_model, claim_retry_model,
    claim_total_model, release_push_model, update_model, with_sent, await_ack_model, AwaitingMap,
    AcknowledgedNotification, ActiveNotification, PendingMap,
};
use crate::expired::{push_delivered_cleanup, queued, try_push_expired, ExpiredQueue};
use crate::expired::strings_view;
use crate::redis_types::NotificationData;
use crate::registry::{
    advance_model, claim_model, claim_read_batch, sessions_wf, slots_of, ClientEntry, ReaderMap,
    SessionMap, SessionSlot,
};
use crate::types::{
    CleanupReason, ClientId, DeliveryGuarantee, DeliveryPolicy, ExpiredMeta, ExpiryReason, NotificationId, SessionID, Shard,
    Timestamp,
};

verus! {

/// `new` holds the sessions of `old` in the same order, with the same ids,
/// tokens and channels; only what the sessions owe may differ.
pub open spec fn same_sessions(old: SessionMap, new: SessionMap) -> bool {
    match (old, new) {
        (SessionMap::Single(t1, s1), SessionMap::Single(t2, s2)) => t1 == t2 && s1.channel == s2.channel,
        (SessionMap::Multi(v1), SessionMap::Multi(v2)) => {
            &&& v1@.len() == v2@.len()
            &&& forall|q: int| 0 <= q < v1@.len() ==> #[trigger] v2@[q].0 == v1@[q].0 && v2@[q].1.channel == v1@[q].1.channel
        },
        _ => false,
    }
}

/// `new` is `old` with what the sessions of client `k` owe changed, and
/// nothing else.
pub open spec fn sessions_changed(old: Map<Seq<char>, ClientEntry>, new: Map<Seq<char>, ClientEntry>, k: Seq<char>) -> bool {
    &&& new.dom() == old.dom()
    &&& forall|j: Seq<char>| #[trigger] old.contains_key(j) && j != k ==> new[j] == old[j]
    &&& old.contains_key(k) ==> {
        &&& new[k].shard == old[k].shard
        &&& new[k].last_read_id == old[k].last_read_id
        &&& same_sessions(old[k].sessions, new[k].sessions)
    }
}

/// Whether what a session owes is well formed and, seen as maps, is what
/// another model describes.
pub open spec fn owes(slot: SessionSlot, pending: PendingMap, awaiting: crate::active::AwaitingMap) -> bool {
    &&& slot.active.wf()
    &&& slot.active.pending_map() == pending
    &&& slot.active.awaiting_map() == awaiting
}

/// What a read hands out and the cursor it leaves, by guarantee.
pub open spec fn read_model(policy: DeliveryPolicy, cursor: Seq<char>, ns: Seq<NotificationData>) -> (
    Seq<NotificationData>,
    Seq<char>,
) {
    match policy.guarantee {
        DeliveryGuarantee::AtMostOnce => claim_model(cursor, ns),
        DeliveryGuarantee::AtLeastOnce => (ns, advance_model(cursor, ns)),
    }
}

/// A copy of a batch.
fn clone_batch(ns: &Vec<NotificationData>) -> (r: Vec<NotificationData>)
    ensures
        r@ == ns@,
{
    let r = ns.clone();
    proof {
        assert forall|i: int| 0 <= i < ns@.len() implies r@[i] == ns@[i] by {
            assert(vstd::pervasive::cloned(ns@[i], r@[i]));
        }
        assert(r@ =~= ns@);
    }
    r
}

/// Makes the batch pending in every session.
fn update_slots(sessions: SessionMap, ns: &Vec<NotificationData>) -> (r: SessionMap)
    requires
        sessions_wf(sessions),
    ensures
        sessions_wf(r),
        same_sessions(sessions, r),
        slots_of(r).len() == slots_of(sessions).len(),
        forall|q: int|
            0 <= q < slots_of(r).len() ==> owes(
                #[trigger] slots_of(r)[q],
                update_model(slots_of(sessions)[q].active.pending_map(), ns@),
                slots_of(sessions)[q].active.awaiting_map(),
            ),
{
    match sessions {
        SessionMap::Single(t, mut slot) => {
            proof {
                assert(slots_of(sessions)[0] == slot);
            }
            slot.active.update(clone_batch(ns));
            let r = SessionMap::Single(t, slot);
            proof {
                assert(slots_of(r)[0] == slot);
            }
            r
        },
        SessionMap::Multi(mut v) => {
            let ghost ov = v@;
            proof {
                assert forall|q: int| 0 <= q < ov.len() implies (#[trigger] ov[q]).1.active.wf() by {
                    assert(slots_of(sessions)[q] == ov[q].1);
                }
            }
            let mut j: usize = 0;
            while j < v.len()
                invariant
                    v@.len() == ov.len(),
                    j <= ov.len(),
                    keys_distinct_sessions(ov),
                    forall|q: int| 0 <= q < ov.len() ==> (#[trigger] ov[q]).1.active.wf(),
                    forall|q: int| 0 <= q < ov.len() ==> #[trigger] v@[q].0 == ov[q].0 && v@[q].1.channel == ov[q].1.channel,
                    forall|q: int|
                        0 <= q < j ==> owes(
                            #[trigger] v@[q].1,
                            update_model(ov[q].1.active.pending_map(), ns@),
                            ov[q].1.active.awaiting_map(),
                        ),
                    forall|q: int| j <= q < ov.len() ==> #[trigger] v@[q] == ov[q],
                decreases ov.len() - j,
            {
                v[j].1.active.update(clone_batch(ns));
                j = j + 1;
            }
            let r = SessionMap::Multi(v);
            proof {
                assert forall|q: int| 0 <= q < slots_of(r).len() implies (#[trigger] slots_of(r)[q]).active.wf() by {
                    assert(slots_of(r)[q] == v@[q].1);
                }
                assert forall|a: int, b: int|
                    0 <= a < v@.len() && 0 <= b < v@.len() && a != b implies #[trigger] v@[a].0@ != #[trigger] v@[b].0@ by {
                    assert(v@[a].0 == ov[a].0 && v@[b].0 == ov[b].0);
                }
                assert forall|q: int| 0 <= q < slots_of(r).len() implies owes(
                    #[trigger] slots_of(r)[q],
                    update_model(slots_of(sessions)[q].active.pending_map(), ns@),
                    slots_of(sessions)[q].active.awaiting_map(),
                ) by {
                    assert(slots_of(r)[q] == v@[q].1);
                    assert(slots_of(sessions)[q] == ov[q].1);
                }
            }
            r
        },
    }
}

/// Counting each notification of a batch in the total, in order: the
/// pending map after it, and the category of each one counted.
pub open spec fn claim_totals(m: PendingMap, ns: Seq<NotificationData>) -> (PendingMap, Seq<Seq<char>>)
    decreases ns.len(),
{
    if ns.len() == 0 {
        (m, Seq::empty())
    } else {
        let (m1, c1) = claim_totals(m, ns.drop_last());
        let (m2, b) = claim_total_model(m1, ns.last());
        (m2, if b { c1.push(ns.last().category@) } else { c1 })
    }
}

/// The categories counted when every session, in order, counts the batch.
pub open spec fn counted_over(slots: Seq<SessionSlot>, ns: Seq<NotificationData>) -> Seq<Seq<char>>
    decreases slots.len(),
{
    if slots.len() == 0 {
        Seq::empty()
    } else {
        counted_over(slots.drop_last(), ns) + claim_totals(slots.last().active.pending_map(), ns).1
    }
}

/// Counts each notification of the batch in the session's total, then makes
/// the batch pending; appends the category of each one counted.
fn ingest_into(active: &mut crate::active::ActiveNotification, ns: &Vec<NotificationData>, out: &mut Vec<String>)
    requires
        old(active).wf(),
    ensures
        final(active).wf(),
        final(active).pending_map() == update_model(claim_totals(old(active).pending_map(), ns@).0, ns@),
        final(active).awaiting_map() == old(active).awaiting_map(),
        strings_view(final(out)@) == strings_view(old(out)@) + claim_totals(old(active).pending_map(), ns@).1,
{
    let mut i: usize = 0;
    assert(strings_view(out@) =~= strings_view(old(out)@) + Seq::<Seq<char>>::empty());
    while i < ns.len()
        invariant
            i <= ns@.len(),
            active.wf(),
            active.pending_map() == claim_totals(old(active).pending_map(), ns@.take(i as int)).0,
            active.awaiting_map() == old(active).awaiting_map(),
            strings_view(out@) == strings_view(old(out)@) + claim_totals(old(active).pending_map(), ns@.take(i as int)).1,
        decreases ns.len() - i,
    {
        let ghost t = ns@.take(i + 1);
        assert(t.drop_last() == ns@.take(i as int));
        assert(t.last() == ns@[i as int]);
        let ghost before = out@;
        if active.try_claim_total(&ns[i]) {
            out.push(ns[i].category.clone());
            proof {
                let lhs = strings_view(out@);
                let rhs = strings_view(old(out)@) + claim_totals(old(active).pending_map(), t).1;
                assert(strings_view(before).len() == before.len());
                assert(strings_view(old(out)@).len() == old(out)@.len());
                assert(lhs.len() == before.len() + 1);
                assert forall|j: int| 0 <= j < lhs.len() implies lhs[j] == rhs[j] by {
                    if j < before.len() {
                        assert(lhs[j] == strings_view(before)[j]);
                    }
                }
                assert(lhs =~= rhs);
            }
        }
        i = i + 1;
    }
    assert(ns@.take(ns@.len() as int) == ns@);
    active.update(clone_batch(ns));
}

/// Every session counts and takes in the batch, in order.
fn ingest_slots(sessions: SessionMap, ns: &Vec<NotificationData>) -> (r: (SessionMap, Vec<String>))
    requires
        sessions_wf(sessions),
    ensures
        sessions_wf(r.0),
        same_sessions(sessions, r.0),
        slots_of(r.0).len() == slots_of(sessions).len(),
        forall|q: int|
            0 <= q < slots_of(r.0).len() ==> owes(
                #[trigger] slots_of(r.0)[q],
                update_model(claim_totals(slots_of(sessions)[q].active.pending_map(), ns@).0, ns@),
                slots_of(sessions)[q].active.awaiting_map(),
            ),
        strings_view(r.1@) == counted_over(slots_of(sessions), ns@),
{
    let mut out: Vec<String> = Vec::new();
    match sessions {
        SessionMap::Single(t, mut slot) => {
            proof {
                assert(slots_of(sessions)[0] == slot);
                assert(slots_of(sessions).drop_last().len() == 0);
                assert(strings_view(out@) =~= Seq::<Seq<char>>::empty());
            }
            ingest_into(&mut slot.active, ns, &mut out);
            let r = SessionMap::Single(t, slot);
            proof {
                assert(slots_of(r)[0] == slot);
                let os = slots_of(sessions);
                assert(counted_over(os.drop_last(), ns@) == Seq::<Seq<char>>::empty());
                assert(os.last() == os[0]);
                assert(counted_over(os, ns@) =~= claim_totals(os[0].active.pending_map(), ns@).1);
                assert(strings_view(out@) =~= claim_totals(os[0].active.pending_map(), ns@).1);
            }
            (r, out)
        },
        SessionMap::Multi(mut v) => {
            let ghost ov = v@;
            let ghost os = slots_of(sessions);
            proof {
                assert forall|q: int| 0 <= q < ov.len() implies (#[trigger] ov[q]).1.active.wf() by {
                    assert(os[q] == ov[q].1);
                }
                assert(strings_view(out@) =~= counted_over(os.take(0), ns@));
            }
            let mut j: usize = 0;
            while j < v.len()
                invariant
                    v@.len() == ov.len(),
                    os == ov.map_values(|p: (SessionID, SessionSlot)| p.1),
                    j <= ov.len(),
                    keys_distinct_sessions(ov),
                    forall|q: int| 0 <= q < ov.len() ==> (#[trigger] ov[q]).1.active.wf(),
                    forall|q: int| 0 <= q < ov.len() ==> #[trigger] v@[q].0 == ov[q].0 && v@[q].1.channel == ov[q].1.channel,
                    forall|q: int|
                        0 <= q < j ==> owes(
                            #[trigger] v@[q].1,
                            update_model(claim_totals(ov[q].1.active.pending_map(), ns@).0, ns@),
                            ov[q].1.active.awaiting_map(),
                        ),
                    forall|q: int| j <= q < ov.len() ==> #[trigger] v@[q] == ov[q],
                    strings_view(out@) == counted_over(os.take(j as int), ns@),
                decreases ov.len() - j,
            {
                proof {
                    let t = os.take(j + 1);
                    assert(t.drop_last() == os.take(j as int));
                    assert(t.last() == ov[j as int].1);
                }
                ingest_into(&mut v[j].1.active, ns, &mut out);
                j = j + 1;
            }
            let r = SessionMap::Multi(v);
            proof {
                assert(os.take(os.len() as int) == os);
                assert forall|q: int| 0 <= q < slots_of(r).len() implies (#[trigger] slots_of(r)[q]).active.wf() by {
                    assert(slots_of(r)[q] == v@[q].1);
                }
                assert forall|a: int, b: int|
                    0 <= a < v@.len() && 0 <= b < v@.len() && a != b implies #[trigger] v@[a].0@ != #[trigger] v@[b].0@ by {
                    assert(v@[a].0 == ov[a].0 && v@[b].0 == ov[b].0);
                }
                assert forall|q: int| 0 <= q < slots_of(r).len() implies owes(
                    #[trigger] slots_of(r)[q],
                    update_model(claim_totals(slots_of(sessions)[q].active.pending_map(), ns@).0, ns@),
                    slots_of(sessions)[q].active.awaiting_map(),
                ) by {
                    assert(slots_of(r)[q] == v@[q].1);
                    assert(slots_of(sessions)[q] == ov[q].1);
                }
            }
            (r, out)
        },
    }
}

/// Whether client `k` is registered with at least one session.
pub open spec fn has_sessions(m: Map<Seq<char>, ClientEntry>, k: Seq<char>) -> bool {
    m.contains_key(k) && slots_of(m[k].sessions).len() > 0
}

/// `new` is `old` after a read of client `k`'s stream moved its cursor to
/// `cursor`: its sessions are the same ones, all else is kept.
pub open spec fn read_applied(
    old: Map<Seq<char>, ClientEntry>,
    new: Map<Seq<char>, ClientEntry>,
    k: Seq<char>,
    cursor: Seq<char>,
) -> bool {
    &&& new.dom() == old.dom()
    &&& forall|j: Seq<char>| #[trigger] old.contains_key(j) && j != k ==> new[j] == old[j]
    &&& new[k].shard == old[k].shard
    &&& new[k].last_read_id@ == cursor
    &&& same_sessions(old[k].sessions, new[k].sessions)
    &&& slots_of(new[k].sessions).len() == slots_of(old[k].sessions).len()
}

/// Hands out what a read of the client's stream brought, as
/// `claim_read_batch` claims it, and makes it pending in every session of
/// the client. A client that is not registered, or has no session, gets
/// nothing and nothing changes.
pub fn active_notification_dispatch(
    clients_tx: &mut ReaderMap,
    client_id: &ClientId,
    notifications: Vec<NotificationData>,
    policy: DeliveryPolicy,
) -> (r: Option<Vec<NotificationData>>)
    requires
        old(clients_tx).wf(),
    ensures
        final(clients_tx).wf(),
        !has_sessions(old(clients_tx)@, client_id@) ==> r is None && final(clients_tx)@ == old(clients_tx)@,
        has_sessions(old(clients_tx)@, client_id@) ==> {
            let (c, cursor) = read_model(policy, old(clients_tx)@[client_id@].last_read_id@, notifications@);
            let before = slots_of(old(clients_tx)@[client_id@].sessions);
            &&& r matches Some(v) && v@ == c
            &&& read_applied(old(clients_tx)@, final(clients_tx)@, client_id@, cursor)
            &&& forall|q: int|
                0 <= q < before.len() ==> owes(
                    #[trigger] slots_of(final(clients_tx)@[client_id@].sessions)[q],
                    update_model(before[q].active.pending_map(), c),
                    before[q].active.awaiting_map(),
                )
        },
{
    let i0 = match clients_tx.position(client_id) {
        Some(i) => i,
        None => {
            return None;
        },
    };
    if clients_tx.slot_count(i0) == 0 {
        return None;
    }
    let ghost m0 = clients_tx@;
    let claimed = claim_read_batch(clients_tx, client_id, notifications, policy);
    let ghost m1 = clients_tx@;
    let i = match clients_tx.position(client_id) {
        Some(i) => i,
        None => {
            return None;
        },
    };
    proof {
        clients_tx.lemma_entry(i as int);
    }
    let sessions = clients_tx.replace_sessions(i, SessionMap::Multi(Vec::new()));
    let sessions = update_slots(sessions, &claimed);
    clients_tx.replace_sessions(i, sessions);
    proof {
        assert(m1[client_id@].sessions == m0[client_id@].sessions);
        assert(clients_tx@.dom() =~= m0.dom());
    }
    Some(claimed)
}

/// Takes in what a sweep read of the client's stream: claims it as
/// `claim_read_batch` does, and every session counts each claimed
/// notification in its total, then makes the batch pending. Hands back the
/// category of each count, session after session.
pub fn ingest_backfill(
    clients_tx: &mut ReaderMap,
    client_id: &ClientId,
    notifs: Vec<NotificationData>,
    policy: DeliveryPolicy,
) -> (counted: Vec<String>)
    requires
        old(clients_tx).wf(),
    ensures
        final(clients_tx).wf(),
        !old(clients_tx)@.contains_key(client_id@) ==> counted@.len() == 0 && final(clients_tx)@ == old(clients_tx)@,
        old(clients_tx)@.contains_key(client_id@) ==> {
            let (c, cursor) = read_model(policy, old(clients_tx)@[client_id@].last_read_id@, notifs@);
            let before = slots_of(old(clients_tx)@[client_id@].sessions);
            &&& strings_view(counted@) == counted_over(before, c)
            &&& read_applied(old(clients_tx)@, final(clients_tx)@, client_id@, cursor)
            &&& forall|q: int|
                0 <= q < before.len() ==> owes(
                    #[trigger] slots_of(final(clients_tx)@[client_id@].sessions)[q],
                    update_model(claim_totals(before[q].active.pending_map(), c).0, c),
                    before[q].active.awaiting_map(),
                )
        },
{
    let ghost m0 = clients_tx@;
    let claimed = claim_read_batch(clients_tx, client_id, notifs, policy);
    let ghost m1 = clients_tx@;
    let i = match clients_tx.position(client_id) {
        Some(i) => i,
        None => {
            proof {
                assert(clients_tx@ =~= m0);
            }
            return Vec::new();
        },
    };
    proof {
        clients_tx.lemma_entry(i as int);
    }
    let sessions = clients_tx.replace_sessions(i, SessionMap::Multi(Vec::new()));
    let (sessions, counted) = ingest_slots(sessions, &claimed);
    clients_tx.replace_sessions(i, sessions);
    proof {
        assert(m1[client_id@].sessions == m0[client_id@].sessions);
        assert(clients_tx@.dom() =~= m0.dom());
    }
    counted
}

/// `new` holds the sessions of `old`, with `a` owed by the primary one and
/// the others as they were.
pub open spec fn primary_set(old: SessionMap, new: SessionMap, a: ActiveNotification) -> bool {
    &&& same_sessions(old, new)
    &&& slots_of(new).len() == slots_of(old).len()
    &&& slots_of(new).len() > 0 ==> slots_of(new)[0].active == a
    &&& forall|q: int| 1 <= q < slots_of(new).len() ==> #[trigger] slots_of(new)[q] == slots_of(old)[q]
}

/// What the primary session of client `k` owes.
pub open spec fn primary_of(m: Map<Seq<char>, ClientEntry>, k: Seq<char>) -> ActiveNotification {
    slots_of(m[k].sessions)[0].active
}

/// `new` is `old` with what the primary session of client `k` owes replaced
/// by `a`, and nothing else changed.
pub open spec fn primary_updated(
    old: Map<Seq<char>, ClientEntry>,
    new: Map<Seq<char>, ClientEntry>,
    k: Seq<char>,
    a: ActiveNotification,
) -> bool {
    &&& new.dom() == old.dom()
    &&& forall|j: Seq<char>| #[trigger] old.contains_key(j) && j != k ==> new[j] == old[j]
    &&& new[k].shard == old[k].shard
    &&& new[k].last_read_id == old[k].last_read_id
    &&& primary_set(old[k].sessions, new[k].sessions, a)
}

/// Takes what the primary session owes out of the sessions, leaving it
/// owing nothing.
fn detach_primary(sessions: SessionMap) -> (r: (SessionMap, ActiveNotification))
    requires
        sessions_wf(sessions),
        slots_of(sessions).len() > 0,
    ensures
        sessions_wf(r.0),
        primary_set(sessions, r.0, slots_of(r.0)[0].active),
        r.1 == slots_of(sessions)[0].active,
        r.1.wf(),
{
    let mut a = ActiveNotification::default();
    match sessions {
        SessionMap::Single(t, mut slot) => {
            proof {
                assert(slots_of(sessions)[0] == slot);
            }
            std::mem::swap(&mut a, &mut slot.active);
            let r = SessionMap::Single(t, slot);
            proof {
                assert(slots_of(r)[0] == slot);
            }
            (r, a)
        },
        SessionMap::Multi(mut v) => {
            let ghost ov = v@;
            proof {
                assert(slots_of(sessions)[0] == ov[0].1);
            }
            std::mem::swap(&mut a, &mut v[0].1.active);
            let r = SessionMap::Multi(v);
            proof {
                assert forall|q: int| 0 <= q < slots_of(r).len() implies (#[trigger] slots_of(r)[q]).active.wf() by {
                    assert(slots_of(r)[q] == v@[q].1);
                    if q > 0 {
                        assert(v@[q] == ov[q]);
                        assert(slots_of(sessions)[q] == ov[q].1);
                    }
                }
                assert forall|x: int, y: int|
                    0 <= x < v@.len() && 0 <= y < v@.len() && x != y implies #[trigger] v@[x].0@ != #[trigger] v@[y].0@ by {
                    assert(v@[x].0 == ov[x].0 && v@[y].0 == ov[y].0);
                }
                assert forall|q: int| 1 <= q < slots_of(r).len() implies #[trigger] slots_of(r)[q] == slots_of(sessions)[q] by {
                    assert(slots_of(r)[q] == v@[q].1);
                    assert(slots_of(sessions)[q] == ov[q].1);
                    assert(v@[q] == ov[q]);
                }
            }
            (r, a)
        },
    }
}

/// Puts `a` back as what the primary session owes.
fn attach_primary(sessions: SessionMap, a: ActiveNotification) -> (r: SessionMap)
    requires
        sessions_wf(sessions),
        slots_of(sessions).len() > 0,
        a.wf(),
    ensures
        sessions_wf(r),
        primary_set(sessions, r, a),
{
    let mut a = a;
    match sessions {
        SessionMap::Single(t, mut slot) => {
            std::mem::swap(&mut a, &mut slot.active);
            let r = SessionMap::Single(t, slot);
            proof {
                assert(slots_of(r)[0] == slot);
            }
            r
        },
        SessionMap::Multi(mut v) => {
            let ghost ov = v@;
            std::mem::swap(&mut a, &mut v[0].1.active);
            let r = SessionMap::Multi(v);
            proof {
                assert forall|q: int| 0 <= q < slots_of(r).len() implies (#[trigger] slots_of(r)[q]).active.wf() by {
                    assert(slots_of(r)[q] == v@[q].1);
                    if q > 0 {
                        assert(v@[q] == ov[q]);
                        assert(slots_of(sessions)[q] == ov[q].1);
                    }
                }
                assert forall|x: int, y: int|
                    0 <= x < v@.len() && 0 <= y < v@.len() && x != y implies #[trigger] v@[x].0@ != #[trigger] v@[y].0@ by {
                    assert(v@[x].0 == ov[x].0 && v@[y].0 == ov[y].0);
                }
                assert forall|q: int| 1 <= q < slots_of(r).len() implies #[trigger] slots_of(r)[q] == slots_of(sessions)[q] by {
                    assert(slots_of(r)[q] == v@[q].1);
                    assert(slots_of(sessions)[q] == ov[q].1);
                    assert(v@[q] == ov[q]);
                }
                assert(slots_of(r)[0] == v@[0].1);
            }
            r
        },
    }
}

impl ReaderMap {
    /// Takes what the primary session of the client at position `i` owes out
    /// of the registry; `put_primary` puts it back.
    fn take_primary(&mut self, i: usize) -> (a: ActiveNotification)
        requires
            old(self).wf(),
            i < old(self).entries().len(),
            slots_of(old(self).entries()[i as int].1.sessions).len() > 0,
        ensures
            final(self).wf(),
            final(self).entries().len() == old(self).entries().len(),
            final(self).entries()[i as int].0 == old(self).entries()[i as int].0,
            a.wf(),
            a == primary_of(old(self)@, old(self).entries()[i as int].0@),
            primary_updated(old(self)@, final(self)@, old(self).entries()[i as int].0@, primary_of(final(self)@, old(self).entries()[i as int].0@)),
    {
        proof {
            self.lemma_entry(i as int);
        }
        let sessions = self.replace_sessions(i, SessionMap::Multi(Vec::new()));
        let (sessions, a) = detach_primary(sessions);
        self.replace_sessions(i, sessions);
        proof {
            assert(self@.dom() =~= old(self)@.dom());
        }
        a
    }

    /// Puts `a` back as what the primary session of the client at position
    /// `i` owes.
    fn put_primary(&mut self, i: usize, a: ActiveNotification)
        requires
            old(self).wf(),
            i < old(self).entries().len(),
            slots_of(old(self).entries()[i as int].1.sessions).len() > 0,
            a.wf(),
        ensures
            final(self).wf(),
            primary_updated(old(self)@, final(self)@, old(self).entries()[i as int].0@, a),
    {
        proof {
            self.lemma_entry(i as int);
        }
        let sessions = self.replace_sessions(i, SessionMap::Multi(Vec::new()));
        let sessions = attach_primary(sessions, a);
        self.replace_sessions(i, sessions);
        proof {
            assert(self@.dom() =~= old(self)@.dom());
        }
    }
}

pub proof fn lemma_primary_updated_trans(
    m0: Map<Seq<char>, ClientEntry>,
    m1: Map<Seq<char>, ClientEntry>,
    m2: Map<Seq<char>, ClientEntry>,
    k: Seq<char>,
    x: ActiveNotification,
    a: ActiveNotification,
)
    requires
        m0.contains_key(k),
        primary_updated(m0, m1, k, x),
        primary_updated(m1, m2, k, a),
    ensures
        primary_updated(m0, m2, k, a),
{
    let s0 = m0[k].sessions;
    let s1 = m1[k].sessions;
    let s2 = m2[k].sessions;
    assert(same_sessions(s0, s1));
    assert(same_sessions(s1, s2));
    match (s0, s1, s2) {
        (SessionMap::Multi(v0), SessionMap::Multi(v1), SessionMap::Multi(v2)) => {
            assert forall|q: int| 0 <= q < v0@.len() implies #[trigger] v2@[q].0 == v0@[q].0 && v2@[q].1.channel == v0@[q].1.channel by {
                assert(v1@[q].0 == v0@[q].0 && v1@[q].1.channel == v0@[q].1.channel);
                assert(v2@[q].0 == v1@[q].0 && v2@[q].1.channel == v1@[q].1.channel);
            }
        },
        _ => {},
    }
    assert forall|q: int| 1 <= q < slots_of(s2).len() implies #[trigger] slots_of(s2)[q] == slots_of(s0)[q] by {
        assert(slots_of(s1)[q] == slots_of(s0)[q]);
    }
}

/// With no push cap, a push claim must not overflow the count.
pub open spec fn push_room(m: Map<Seq<char>, ClientEntry>, k: Seq<char>, id: Seq<char>, cap: Option<u32>) -> bool {
    cap is None && has_sessions(m, k) && primary_of(m, k).pending_map().contains_key(id)
        ==> primary_of(m, k).pending_map()[id].push_count < u32::MAX
}

/// What the reader decided on a notification that a read handed out.
#[derive(Debug, PartialEq, Eq)]
pub enum DispatchStep {
    /// It is not pending in the client's primary session, or the client is
    /// gone.
    Skip,
    /// It expired; `reason` is set the first time, when its entry was queued
    /// for deletion.
    Expired { count_total: bool, reason: Option<ExpiryReason> },
    /// Push it; the push is claimed, as attempt `attempt`.
    Push { count_total: bool, attempt: &'static str },
    /// It is live, but no push is left to claim.
    Hold { count_total: bool },
}

/// The dispatch of `n` on the primary session's pending map: its total
/// claim, its expiry claim when expired, its attempt label, and its push
/// claim when live.
pub open spec fn dispatch_model(p: PendingMap, n: NotificationData, expired: bool, cap: Option<u32>) -> (
    PendingMap,
    bool,
    Option<ExpiryReason>,
    Seq<char>,
    bool,
) {
    let (p1, ct) = claim_total_model(p, n);
    let (p2, reason) = if expired {
        claim_expired_reason_model(p1, n.id@)
    } else {
        (p1, None)
    };
    let attempt = attempt_label(p2, n.id@);
    let (p3, pushed) = if expired {
        (p2, false)
    } else {
        claim_push_model(p2, n.id@, cap)
    };
    (p3, ct, reason, attempt, pushed)
}

pub open spec fn expired_meta(n: NotificationData, reason: ExpiryReason) -> ExpiredMeta {
    ExpiredMeta { category: n.category, reason: CleanupReason::Expired(reason) }
}

/// Decides what to do with a notification that a read handed out to a
/// client, on the client's primary session: counts it in the total once;
/// when it has expired (its ttl is before `now`), claims its expiry once and
/// queues its entry for deletion; otherwise claims a push under the policy's
/// cap.
pub fn dispatch_step(
    clients_tx: &mut ReaderMap,
    expired_queue: &mut ExpiredQueue,
    client_id: &ClientId,
    shard: Shard,
    notification: &NotificationData,
    now: Timestamp,
    policy: DeliveryPolicy,
) -> (step: DispatchStep)
    requires
        old(clients_tx).wf(),
        old(expired_queue).wf(),
        push_room(old(clients_tx)@, client_id@, notification.id@, policy.push_cap),
    ensures
        final(clients_tx).wf(),
        final(expired_queue).wf(),
        !has_sessions(old(clients_tx)@, client_id@) || !primary_of(old(clients_tx)@, client_id@).pending_map().contains_key(
            notification.id@,
        ) ==> {
            &&& step == DispatchStep::Skip
            &&& final(clients_tx)@ == old(clients_tx)@
            &&& *final(expired_queue) == *old(expired_queue)
        },
        has_sessions(old(clients_tx)@, client_id@) && primary_of(old(clients_tx)@, client_id@).pending_map().contains_key(
            notification.id@,
        ) ==> {
            let expired = notification.ttl.0 < now.0;
            let before = primary_of(old(clients_tx)@, client_id@);
            let (p, ct, reason, attempt, pushed) = dispatch_model(before.pending_map(), *notification, expired, policy.push_cap);
            &&& primary_updated(old(clients_tx)@, final(clients_tx)@, client_id@, primary_of(final(clients_tx)@, client_id@))
            &&& primary_of(final(clients_tx)@, client_id@).wf()
            &&& primary_of(final(clients_tx)@, client_id@).pending_map() == p
            &&& primary_of(final(clients_tx)@, client_id@).awaiting_map() == before.awaiting_map()
            &&& if expired {
                step == DispatchStep::Expired { count_total: ct, reason }
            } else if pushed {
                step matches DispatchStep::Push { count_total: c, attempt: a } && c == ct && a@ == attempt
            } else {
                step == DispatchStep::Hold { count_total: ct }
            }
            &&& if expired && reason is Some {
                queued(
                    *old(expired_queue),
                    *final(expired_queue),
                    client_id@,
                    shard.0,
                    notification.stream_id@,
                    expired_meta(*notification, reason->0),
                    false,
                )
            } else {
                *final(expired_queue) == *old(expired_queue)
            }
        },
{
    let i = match clients_tx.position(client_id) {
        Some(i) => i,
        None => {
            return DispatchStep::Skip;
        },
    };
    if clients_tx.slot_count(i) == 0 {
        return DispatchStep::Skip;
    }
    proof {
        clients_tx.lemma_entry(i as int);
    }
    if !clients_tx.primary_ref(i).contains(&notification.id) {
        return DispatchStep::Skip;
    }
    let ghost m0 = clients_tx@;
    let mut a = clients_tx.take_primary(i);
    let ghost m1 = clients_tx@;
    let expired = notification.ttl.0 < now.0;
    let count_total = a.try_claim_total(notification);
    let reason = if expired {
        a.try_claim_expired_with_reason(&notification.id)
    } else {
        None
    };
    let attempt = a.attempt(&notification.id);
    let pushed = if expired {
        false
    } else {
        a.try_claim_push(&notification.id, policy.push_cap)
    };
    clients_tx.put_primary(i, a);
    proof {
        lemma_primary_updated_trans(m0, m1, clients_tx@, client_id@, primary_of(m1, client_id@), a);
    }
    if expired {
        if let Some(r) = reason {
            let meta = ExpiredMeta { category: notification.category.clone(), reason: CleanupReason::Expired(r) };
            try_push_expired(expired_queue, client_id, shard.0, notification.stream_id.inner(), meta);
        }
        DispatchStep::Expired { count_total, reason }
    } else if pushed {
        DispatchStep::Push { count_total, attempt }
    } else {
        DispatchStep::Hold { count_total }
    }
}

/// Records that a push of the notification to the client succeeded at
/// `now`, on the client's primary session.
pub fn record_push(clients_tx: &mut ReaderMap, client_id: &ClientId, notification_id: &NotificationId, now: Timestamp)
    requires
        old(clients_tx).wf(),
    ensures
        final(clients_tx).wf(),
        !has_sessions(old(clients_tx)@, client_id@) ==> final(clients_tx)@ == old(clients_tx)@,
        has_sessions(old(clients_tx)@, client_id@) ==> {
            let before = primary_of(old(clients_tx)@, client_id@);
            &&& primary_updated(old(clients_tx)@, final(clients_tx)@, client_id@, primary_of(final(clients_tx)@, client_id@))
            &&& primary_of(final(clients_tx)@, client_id@).wf()
            &&& primary_of(final(clients_tx)@, client_id@).pending_map() == with_sent(before.pending_map(), notification_id@, now)
            &&& primary_of(final(clients_tx)@, client_id@).awaiting_map() == before.awaiting_map()
        },
{
    let i = match clients_tx.position(client_id) {
        Some(i) => i,
        None => {
            return;
        },
    };
    if clients_tx.slot_count(i) == 0 {
        return;
    }
    proof {
        clients_tx.lemma_entry(i as int);
    }
    let ghost m0 = clients_tx@;
    let mut a = clients_tx.take_primary(i);
    let ghost m1 = clients_tx@;
    a.mark_sent(notification_id, now);
    clients_tx.put_primary(i, a);
    proof {
        lemma_primary_updated_trans(m0, m1, clients_tx@, client_id@, primary_of(m1, client_id@), a);
    }
}

/// What session `q` of a client owes after a push that went through at
/// most once: the primary session (`q == 0`) hands the notification over to
/// await its acknowledgement, sent at `now` if it was never sent before;
/// every other session settles it as acknowledged.
pub open spec fn settled_slot(before: SessionSlot, q: int, id: Seq<char>, now: Timestamp) -> (PendingMap, AwaitingMap) {
    slot_after(before, q, id, now, true)
}

/// What session `q` owes after an acknowledgement of `id` reaches it.
pub open spec fn acked_slot(before: SessionSlot, id: Seq<char>) -> (PendingMap, AwaitingMap) {
    let (p, a, _) = acknowledge_model(before.active.pending_map(), before.active.awaiting_map(), id);
    (p, a)
}

/// What session `q` owes after a hand-over (`hand_over`, where the primary
/// session awaits the acknowledgement) or an acknowledgement of `id`.
pub open spec fn slot_after(before: SessionSlot, q: int, id: Seq<char>, now: Timestamp, hand_over: bool) -> (PendingMap, AwaitingMap) {
    if hand_over && q == 0 {
        await_ack_model(before.active.pending_map(), before.active.awaiting_map(), id, now)
    } else {
        acked_slot(before, id)
    }
}

/// Every session of a client settles the notification as acknowledged, but
/// for the primary one under `hand_over`, which awaits the acknowledgement.
/// Without `hand_over`, it also gives back what the primary session settled.
fn settle_slots(sessions: SessionMap, notification_id: &NotificationId, now: Timestamp, hand_over: bool) -> (res: (
    SessionMap,
    Option<AcknowledgedNotification>,
))
    requires
        sessions_wf(sessions),
    ensures
        ({
            let r = res.0;
            &&& sessions_wf(r)
            &&& same_sessions(sessions, r)
            &&& slots_of(r).len() == slots_of(sessions).len()
            &&& res.1 == if !hand_over && slots_of(sessions).len() > 0 {
                acknowledge_model(
                    slots_of(sessions)[0].active.pending_map(),
                    slots_of(sessions)[0].active.awaiting_map(),
                    notification_id@,
                ).2
            } else {
                None
            }
        }),
        forall|q: int|
            0 <= q < slots_of(res.0).len() ==> owes(
                #[trigger] slots_of(res.0)[q],
                slot_after(slots_of(sessions)[q], q, notification_id@, now, hand_over).0,
                slot_after(slots_of(sessions)[q], q, notification_id@, now, hand_over).1,
            ),
{
    match sessions {
        SessionMap::Single(t, mut slot) => {
            proof {
                assert(slots_of(sessions)[0] == slot);
            }
            let first = if hand_over {
                slot.active.await_ack_at(notification_id, now);
                None
            } else {
                slot.active.acknowledge(notification_id)
            };
            let r = SessionMap::Single(t, slot);
            proof {
                assert(slots_of(r)[0] == slot);
            }
            (r, first)
        },
        SessionMap::Multi(mut v) => {
            let ghost ov = v@;
            proof {
                assert forall|q: int| 0 <= q < ov.len() implies (#[trigger] ov[q]).1.active.wf() by {
                    assert(slots_of(sessions)[q] == ov[q].1);
                }
            }
            let mut j: usize = 0;
            let mut first: Option<AcknowledgedNotification> = None;
            while j < v.len()
                invariant
                    v@.len() == ov.len(),
                    j <= ov.len(),
                    first == if !hand_over && j > 0 {
                        acknowledge_model(ov[0].1.active.pending_map(), ov[0].1.active.awaiting_map(), notification_id@).2
                    } else {
                        None
                    },
                    keys_distinct_sessions(ov),
                    forall|q: int| 0 <= q < ov.len() ==> (#[trigger] ov[q]).1.active.wf(),
                    forall|q: int| 0 <= q < ov.len() ==> #[trigger] v@[q].0 == ov[q].0 && v@[q].1.channel == ov[q].1.channel,
                    forall|q: int|
                        0 <= q < j ==> owes(
                            #[trigger] v@[q].1,
                            slot_after(ov[q].1, q, notification_id@, now, hand_over).0,
                            slot_after(ov[q].1, q, notification_id@, now, hand_over).1,
                        ),
                    forall|q: int| j <= q < ov.len() ==> #[trigger] v@[q] == ov[q],
                decreases ov.len() - j,
            {
                if hand_over && j == 0 {
                    v[j].1.active.await_ack_at(notification_id, now);
                } else {
                    let acked = v[j].1.active.acknowledge(notification_id);
                    if j == 0 {
                        first = acked;
                    }
                }
                j = j + 1;
            }
            let r = SessionMap::Multi(v);
            proof {
                assert forall|q: int| 0 <= q < slots_of(r).len() implies (#[trigger] slots_of(r)[q]).active.wf() by {
                    assert(slots_of(r)[q] == v@[q].1);
                }
                assert forall|a: int, b: int|
                    0 <= a < v@.len() && 0 <= b < v@.len() && a != b implies #[trigger] v@[a].0@ != #[trigger] v@[b].0@ by {
                    assert(v@[a].0 == ov[a].0 && v@[b].0 == ov[b].0);
                }
                assert forall|q: int| 0 <= q < slots_of(r).len() implies owes(
                    #[trigger] slots_of(r)[q],
                    slot_after(slots_of(sessions)[q], q, notification_id@, now, hand_over).0,
                    slot_after(slots_of(sessions)[q], q, notification_id@, now, hand_over).1,
                ) by {
                    assert(slots_of(r)[q] == v@[q].1);
                    assert(slots_of(sessions)[q] == ov[q].1);
                }
                if ov.len() > 0 {
                    assert(slots_of(sessions)[0] == ov[0].1);
                }
            }
            (r, first)
        },
    }
}

/// Settles a round of pushes of a notification to a client. When no push
/// went through, the push claim is given back on the primary session. When
/// one did and the guarantee is at most once, the client's primary session
/// hands the notification over to await its acknowledgement (sent at `now`
/// if no push was recorded), every other session of the client settles it,
/// and its stream entry is queued for deletion (also when the client is gone
/// meanwhile).
pub fn settle_push_round(
    policy: DeliveryPolicy,
    clients_tx: &mut ReaderMap,
    cleanup_queue: &mut ExpiredQueue,
    client_id: &ClientId,
    shard: Shard,
    notification: &NotificationData,
    pushed: bool,
    now: Timestamp,
)
    requires
        old(clients_tx).wf(),
        old(cleanup_queue).wf(),
    ensures
        final(clients_tx).wf(),
        final(cleanup_queue).wf(),
        !pushed ==> *final(cleanup_queue) == *old(cleanup_queue),
        !pushed && !has_sessions(old(clients_tx)@, client_id@) ==> final(clients_tx)@ == old(clients_tx)@,
        !pushed && has_sessions(old(clients_tx)@, client_id@) ==> {
            let before = primary_of(old(clients_tx)@, client_id@);
            &&& primary_updated(old(clients_tx)@, final(clients_tx)@, client_id@, primary_of(final(clients_tx)@, client_id@))
            &&& primary_of(final(clients_tx)@, client_id@).wf()
            &&& primary_of(final(clients_tx)@, client_id@).pending_map() == release_push_model(
                before.pending_map(),
                notification.id@,
            )
            &&& primary_of(final(clients_tx)@, client_id@).awaiting_map() == before.awaiting_map()
        },
        pushed && policy.guarantee == DeliveryGuarantee::AtLeastOnce ==> {
            &&& final(clients_tx)@ == old(clients_tx)@
            &&& *final(cleanup_queue) == *old(cleanup_queue)
        },
        pushed && policy.guarantee == DeliveryGuarantee::AtMostOnce ==> {
            &&& queued(
                *old(cleanup_queue),
                *final(cleanup_queue),
                client_id@,
                shard.0,
                notification.stream_id@,
                ExpiredMeta { category: notification.category, reason: CleanupReason::Delivered },
                true,
            )
            &&& !old(clients_tx)@.contains_key(client_id@) ==> final(clients_tx)@ == old(clients_tx)@
            &&& old(clients_tx)@.contains_key(client_id@) ==> {
                let before = slots_of(old(clients_tx)@[client_id@].sessions);
                &&& sessions_changed(old(clients_tx)@, final(clients_tx)@, client_id@)
                &&& slots_of(final(clients_tx)@[client_id@].sessions).len() == before.len()
                &&& forall|q: int|
                    0 <= q < before.len() ==> owes(
                        #[trigger] slots_of(final(clients_tx)@[client_id@].sessions)[q],
                        settled_slot(before[q], q, notification.id@, now).0,
                        settled_slot(before[q], q, notification.id@, now).1,
                    )
            }
        },
{
    if !pushed {
        let i = match clients_tx.position(client_id) {
            Some(i) => i,
            None => {
                return;
            },
        };
        if clients_tx.slot_count(i) == 0 {
            return;
        }
        proof {
            clients_tx.lemma_entry(i as int);
        }
        let ghost m0 = clients_tx@;
        let mut a = clients_tx.take_primary(i);
        let ghost m1 = clients_tx@;
        a.release_push(&notification.id);
        clients_tx.put_primary(i, a);
        proof {
            lemma_primary_updated_trans(m0, m1, clients_tx@, client_id@, primary_of(m1, client_id@), a);
        }
        return;
    }
    if policy.guarantee.removes_on_push() {
        match clients_tx.position(client_id) {
            Some(i) => {
                proof {
                    clients_tx.lemma_entry(i as int);
                }
                let sessions = clients_tx.replace_sessions(i, SessionMap::Multi(Vec::new()));
                let (sessions, _) = settle_slots(sessions, &notification.id, now, true);
                clients_tx.replace_sessions(i, sessions);
                proof {
                    assert(clients_tx@.dom() =~= old(clients_tx)@.dom());
                }
            },
            None => {},
        }
        push_delivered_cleanup(cleanup_queue, client_id, shard.0, notification);
    }
}

/// An acknowledgement from the client reaches every one of its sessions:
/// each settles the notification, whether it was pending or awaited the
/// acknowledgement. A client that is not registered is left alone. What the
/// primary session settled is given back.
pub fn acknowledge_client(clients_tx: &mut ReaderMap, client_id: &ClientId, notification_id: &NotificationId) -> (acked:
    Option<AcknowledgedNotification>)
    requires
        old(clients_tx).wf(),
    ensures
        final(clients_tx).wf(),
        acked == if has_sessions(old(clients_tx)@, client_id@) {
            acknowledge_model(
                primary_of(old(clients_tx)@, client_id@).pending_map(),
                primary_of(old(clients_tx)@, client_id@).awaiting_map(),
                notification_id@,
            ).2
        } else {
            None
        },
        !old(clients_tx)@.contains_key(client_id@) ==> final(clients_tx)@ == old(clients_tx)@,
        old(clients_tx)@.contains_key(client_id@) ==> {
            let before = slots_of(old(clients_tx)@[client_id@].sessions);
            &&& sessions_changed(old(clients_tx)@, final(clients_tx)@, client_id@)
            &&& slots_of(final(clients_tx)@[client_id@].sessions).len() == before.len()
            &&& forall|q: int|
                0 <= q < before.len() ==> owes(
                    #[trigger] slots_of(final(clients_tx)@[client_id@].sessions)[q],
                    acked_slot(before[q], notification_id@).0,
                    acked_slot(before[q], notification_id@).1,
                )
        },
{
    match clients_tx.position(client_id) {
        Some(i) => {
            proof {
                clients_tx.lemma_entry(i as int);
            }
            let sessions = clients_tx.replace_sessions(i, SessionMap::Multi(Vec::new()));
            let (sessions, acked) = settle_slots(sessions, notification_id, Timestamp(0), false);
            clients_tx.replace_sessions(i, sessions);
            proof {
                assert(clients_tx@.dom() =~= old(clients_tx)@.dom());
            }
            acked
        },
        None => None,
    }
}

/// What the retry loop decided on a pending notification.
#[derive(Debug, PartialEq, Eq)]
pub enum RetryStep {
    /// Nothing to do: the client is gone, or no push is left to claim.
    Skip,
    /// It expired and was settled; `reason` is set the first time, when its
    /// entry was queued for deletion.
    Expired { reason: Option<ExpiryReason> },
    /// Push it again; the push is claimed, as attempt `attempt`.
    Push { count_total: bool, count_retry: bool, attempt: &'static str },
}

/// Decides, on the client's primary session, what the retry loop does with
/// one of its pending notifications: one whose ttl is before `now` is
/// settled, its expiry claimed once and its entry queued for deletion;
/// another gets a push claimed under the policy's cap, and is counted in the
/// total and as a retry, once each.
pub fn retry_step(
    clients_tx: &mut ReaderMap,
    expired_queue: &mut ExpiredQueue,
    client_id: &ClientId,
    shard: Shard,
    notification: &NotificationData,
    now: Timestamp,
    policy: DeliveryPolicy,
) -> (step: RetryStep)
    requires
        old(clients_tx).wf(),
        old(expired_queue).wf(),
        push_room(old(clients_tx)@, client_id@, notification.id@, policy.push_cap),
    ensures
        final(clients_tx).wf(),
        final(expired_queue).wf(),
        !has_sessions(old(clients_tx)@, client_id@) ==> {
            &&& step == RetryStep::Skip
            &&& final(clients_tx)@ == old(clients_tx)@
            &&& *final(expired_queue) == *old(expired_queue)
        },
        has_sessions(old(clients_tx)@, client_id@) ==> {
            let before = primary_of(old(clients_tx)@, client_id@);
            let after = primary_of(final(clients_tx)@, client_id@);
            let id = notification.id@;
            &&& primary_updated(old(clients_tx)@, final(clients_tx)@, client_id@, after)
            &&& after.wf()
            &&& if notification.ttl.0 < now.0 {
                let (p1, reason) = claim_expired_reason_model(before.pending_map(), id);
                let (p2, a2, _) = acknowledge_model(p1, before.awaiting_map(), id);
                &&& step == RetryStep::Expired { reason }
                &&& after.pending_map() == p2
                &&& after.awaiting_map() == a2
                &&& if reason is Some {
                    queued(
                        *old(expired_queue),
                        *final(expired_queue),
                        client_id@,
                        shard.0,
                        notification.stream_id@,
                        expired_meta(*notification, reason->0),
                        false,
                    )
                } else {
                    *final(expired_queue) == *old(expired_queue)
                }
            } else {
                let (p1, claimed) = claim_push_model(before.pending_map(), id, policy.push_cap);
                let (p2, ct) = claim_total_model(p1, *notification);
                let (p3, cr) = claim_retry_model(p2, id);
                &&& *final(expired_queue) == *old(expired_queue)
                &&& after.awaiting_map() == before.awaiting_map()
                &&& !claimed ==> step == RetryStep::Skip && after.pending_map() == before.pending_map()
                &&& claimed ==> {
                    &&& after.pending_map() == p3
                    &&& step matches RetryStep::Push { count_total: c1, count_retry: c2, attempt: a }
                    &&& c1 == ct && c2 == cr && a@ == attempt_label(p3, id)
                }
            }
        },
{
    let i = match clients_tx.position(client_id) {
        Some(i) => i,
        None => {
            return RetryStep::Skip;
        },
    };
    if clients_tx.slot_count(i) == 0 {
        return RetryStep::Skip;
    }
    proof {
        clients_tx.lemma_entry(i as int);
    }
    let ghost m0 = clients_tx@;
    let mut a = clients_tx.take_primary(i);
    let ghost m1 = clients_tx@;
    let step = if notification.ttl.0 < now.0 {
        let reason = a.try_claim_expired_with_reason(&notification.id);
        if let Some(r) = reason {
            let meta = ExpiredMeta { category: notification.category.clone(), reason: CleanupReason::Expired(r) };
            try_push_expired(expired_queue, client_id, shard.0, notification.stream_id.inner(), meta);
        }
        a.acknowledge(&notification.id);
        RetryStep::Expired { reason }
    } else if !a.try_claim_push(&notification.id, policy.push_cap) {
        RetryStep::Skip
    } else {
        let count_total = a.try_claim_total(notification);
        let count_retry = a.try_claim_retry(&notification.id);
        let attempt = a.attempt(&notification.id);
        RetryStep::Push { count_total, count_retry, attempt }
    };
    clients_tx.put_primary(i, a);
    proof {
        lemma_primary_updated_trans(m0, m1, clients_tx@, client_id@, primary_of(m1, client_id@), a);
    }
    step
}

pub open spec fn keys_distinct_sessions(v: Seq<(SessionID, SessionSlot)>) -> bool {
    crate::assoc::keys_distinct(v)
}

} // verus!
