//! Laws of a session's delivery bookkeeping.

use vstd::prelude::*;
use crate::active::{
    acknowledge_model, attempt_label, await_ack_model, awaiting_expired, awaiting_unexpired, claim_expired_model,
    claim_expired_reason_model, claim_push_model, claim_retry_model, claim_total_model, insert_if_absent,
    pending_live, pending_data, release_push_model, update_model, with_sent, ActiveNotification, AwaitingAck,
    AwaitingMap, PendingMap,
};
use crate::assoc::{filter_pairs, restrict_values};
use crate::redis_types::NotificationData;
use crate::types::{ExpiryReason, NotificationId, Timestamp};

verus! {

proof fn lemma_update_single(m: PendingMap, n: NotificationData)
    ensures
        update_model(m, seq![n]) == insert_if_absent(m, n),
{
    let s = seq![n];
    assert(s.drop_last() =~= Seq::<NotificationData>::empty());
    assert(update_model(m, s.drop_last()) == m);
    assert(s.last() == n);
}

/// A notification is counted in the total at most once: a second claim on the
/// result of a claim fails.
pub proof fn law_total_counted_once(m: PendingMap, n: NotificationData)
    ensures
        claim_total_model(claim_total_model(m, n).0, n).1 == false,
{
}

/// An expiry is counted at most once per pending notification, with or
/// without its reason.
pub proof fn law_expiry_counted_once(m: PendingMap, id: Seq<char>)
    ensures
        claim_expired_model(claim_expired_model(m, id).0, id).1 == false,
        claim_expired_reason_model(claim_expired_reason_model(m, id).0, id).1 is None,
        claim_expired_model(claim_expired_reason_model(m, id).0, id).1 == false,
{
}

/// A retry is counted at most once per pending notification.
pub proof fn law_retry_counted_once(m: PendingMap, id: Seq<char>)
    ensures
        claim_retry_model(claim_retry_model(m, id).0, id).1 == false,
{
}

/// Releasing a push undoes a successful claim of it, on every call that a
/// claim admits (without a cap, a count at `u32::MAX` cannot be claimed).
pub proof fn law_release_undoes_claim(m: PendingMap, id: Seq<char>, cap: Option<u32>)
    requires
        claim_push_model(m, id, cap).1,
        cap is None ==> m[id].push_count < u32::MAX,
    ensures
        release_push_model(claim_push_model(m, id, cap).0, id) == m,
{
    let m1 = claim_push_model(m, id, cap).0;
    assert(release_push_model(m1, id) =~= m);
}

/// Under a cap, a successful claim never takes the push count above the cap.
pub proof fn law_claims_stay_under_cap(m: PendingMap, id: Seq<char>, cap: u32)
    requires
        claim_push_model(m, id, Some(cap)).1,
    ensures
        claim_push_model(m, id, Some(cap)).0[id].push_count <= cap,
{
}

/// At most once: of a notification just read, the first push is claimed and a
/// second one is refused.
pub proof fn law_at_most_once_claims_one_push(m: PendingMap, n: NotificationData)
    requires
        !m.contains_key(n.id@),
    ensures
        claim_push_model(update_model(m, seq![n]), n.id@, Some(1u32)).1,
        !claim_push_model(claim_push_model(update_model(m, seq![n]), n.id@, Some(1u32)).0, n.id@, Some(1u32)).1,
{
    lemma_update_single(m, n);
}

/// Reading a batch keeps what was pending as it was and makes every
/// notification of the batch pending.
pub proof fn law_update_keeps_and_adds(m: PendingMap, ns: Seq<NotificationData>)
    ensures
        forall|k: Seq<char>| m.contains_key(k) ==> #[trigger] update_model(m, ns).contains_key(k)
            && update_model(m, ns)[k] == m[k],
        forall|i: int| 0 <= i < ns.len() ==> update_model(m, ns).contains_key(#[trigger] ns[i].id@),
    decreases ns.len(),
{
    if ns.len() > 0 {
        law_update_keeps_and_adds(m, ns.drop_last());
        let prev = update_model(m, ns.drop_last());
        assert forall|k: Seq<char>| m.contains_key(k) implies #[trigger] update_model(m, ns).contains_key(k)
            && update_model(m, ns)[k] == m[k] by {
            assert(m.contains_key(k));
            assert(prev.contains_key(k));
            assert(prev[k] == m[k]);
        }
        assert forall|i: int| 0 <= i < ns.len() implies update_model(m, ns).contains_key(#[trigger] ns[i].id@) by {
            if i < ns.len() - 1 {
                assert(ns.drop_last()[i] == ns[i]);
            }
        }
    }
}

proof fn lemma_update_absorbs(m: PendingMap, ns: Seq<NotificationData>)
    requires
        forall|i: int| 0 <= i < ns.len() ==> m.contains_key(#[trigger] ns[i].id@),
    ensures
        update_model(m, ns) == m,
    decreases ns.len(),
{
    if ns.len() > 0 {
        assert forall|i: int| 0 <= i < ns.drop_last().len() implies m.contains_key(#[trigger] ns.drop_last()[i].id@) by {
            assert(ns.drop_last()[i] == ns[i]);
        }
        lemma_update_absorbs(m, ns.drop_last());
        assert(m.contains_key(ns[ns.len() - 1].id@));
    }
}

/// Reading the same batch twice leaves what reading it once left.
pub proof fn law_update_idempotent(m: PendingMap, ns: Seq<NotificationData>)
    ensures
        update_model(update_model(m, ns), ns) == update_model(m, ns),
{
    law_update_keeps_and_adds(m, ns);
    lemma_update_absorbs(update_model(m, ns), ns);
}

/// An acknowledgement of a notification that was read and is still pending
/// names its stream entry for deletion and leaves it no longer pending.
pub proof fn law_read_then_acknowledge(p: PendingMap, a: AwaitingMap, n: NotificationData)
    requires
        !p.contains_key(n.id@),
    ensures
        ({
            let p1 = update_model(p, seq![n]);
            let (p2, a2, acked) = acknowledge_model(p1, a, n.id@);
            &&& acked matches Some(ack) && ack.stream_id_to_delete == Some(n.stream_id)
                && ack.category == n.category && ack.sent_at is None
            &&& !p2.contains_key(n.id@)
            &&& a2 == a
            &&& p2 == p
        }),
{
    lemma_update_single(p, n);
    assert(insert_if_absent(p, n).remove(n.id@) =~= p);
}

/// An acknowledgement of a notification handed over to await it gives back
/// its category and the time it was sent, and settles it.
pub proof fn law_await_then_acknowledge(p: PendingMap, a: AwaitingMap, id: Seq<char>, now: Timestamp)
    requires
        p.contains_key(id),
    ensures
        ({
            let (p1, a1) = await_ack_model(p, a, id, now);
            let (p2, a2, acked) = acknowledge_model(p1, a1, id);
            &&& acked matches Some(ack) && ack.category == p[id].data.category
                && ack.stream_id_to_delete is None
                && ack.sent_at == Some(match p[id].sent_at { Some(t) => t, None => now })
            &&& !p2.contains_key(id)
            &&& !a2.contains_key(id)
        }),
{
}

/// After a refresh at `now` every pending notification is live at `now`, and
/// every live one is kept as it was.
pub proof fn law_refresh_keeps_exactly_the_live(m: PendingMap, now: Timestamp)
    ensures
        forall|k: Seq<char>| #[trigger] restrict_values(m, pending_live(now)).contains_key(k)
            ==> restrict_values(m, pending_live(now))[k].data.ttl.0 >= now.0,
        forall|k: Seq<char>| m.contains_key(k) && m[k].data.ttl.0 >= now.0
            ==> #[trigger] restrict_values(m, pending_live(now)).contains_key(k)
            && restrict_values(m, pending_live(now))[k] == m[k],
{
}


/// A redelivery round goes over every pending notification exactly once:
/// the notifications it hands out are the pending ones, none twice.
pub proof fn law_redelivery_covers_each_pending_once(a: ActiveNotification)
    requires
        a.wf(),
    ensures
        pending_data(a.pending_entries()).len() == a.pending_map().len(),
        forall|k: Seq<char>|
            a.pending_map().contains_key(k) <==> exists|i: int|
                0 <= i < pending_data(a.pending_entries()).len() && (#[trigger] pending_data(a.pending_entries())[i]).id@ == k,
        forall|i: int, j: int|
            0 <= i < j < pending_data(a.pending_entries()).len() ==> (#[trigger] pending_data(a.pending_entries())[i]).id@
                != (#[trigger] pending_data(a.pending_entries())[j]).id@,
{
    a.lemma_entries();
    let s = a.pending_entries();
    let d = pending_data(s);
    crate::assoc::lemma_to_map_len(s);
    assert forall|k: Seq<char>| a.pending_map().contains_key(k) implies exists|i: int|
        0 <= i < d.len() && (#[trigger] d[i]).id@ == k by {
        let i = choose|i: int| 0 <= i < s.len() && #[trigger] s[i].0@ == k;
        assert(d[i] == s[i].1.data);
    }
    assert forall|k: Seq<char>| (exists|i: int| 0 <= i < d.len() && (#[trigger] d[i]).id@ == k) implies a.pending_map().contains_key(k) by {
        let i = choose|i: int| 0 <= i < d.len() && (#[trigger] d[i]).id@ == k;
        assert(s[i].0@ == k);
        crate::assoc::lemma_to_map_at(s, i);
    }
    assert forall|i: int, j: int| 0 <= i < j < d.len() implies (#[trigger] d[i]).id@ != (#[trigger] d[j]).id@ by {
        assert(s[i].0@ == d[i].id@ && s[j].0@ == d[j].id@);
    }
}

/// Expiring the acknowledgements awaited at `now` splits the awaited
/// entries by their ttl: every entry it reports had its ttl before `now`,
/// every entry it keeps did not, and between them they are all the entries,
/// each once.
pub proof fn law_expire_awaiting_splits_by_ttl(s: Seq<(NotificationId, AwaitingAck)>, now: Timestamp)
    ensures
        forall|i: int|
            0 <= i < filter_pairs(s, awaiting_expired(now)).len() ==> (#[trigger] filter_pairs(
                s,
                awaiting_expired(now),
            )[i]).1.ttl.0 < now.0,
        forall|i: int|
            0 <= i < filter_pairs(s, awaiting_unexpired(now)).len() ==> (#[trigger] filter_pairs(
                s,
                awaiting_unexpired(now),
            )[i]).1.ttl.0 >= now.0,
        filter_pairs(s, awaiting_expired(now)).len() + filter_pairs(s, awaiting_unexpired(now)).len() == s.len(),
    decreases s.len(),
{
    if s.len() > 0 {
        law_expire_awaiting_splits_by_ttl(s.drop_last(), now);
        let e = filter_pairs(s.drop_last(), awaiting_expired(now));
        let u = filter_pairs(s.drop_last(), awaiting_unexpired(now));
        if s.last().1.ttl.0 < now.0 {
            assert(filter_pairs(s, awaiting_expired(now)) == e.push(s.last()));
            assert(filter_pairs(s, awaiting_unexpired(now)) == u);
            assert forall|i: int| 0 <= i < e.push(s.last()).len() implies (#[trigger] e.push(s.last())[i]).1.ttl.0
                < now.0 by {
                if i < e.len() {
                    assert(e.push(s.last())[i] == e[i]);
                }
            }
        } else {
            assert(filter_pairs(s, awaiting_expired(now)) == e);
            assert(filter_pairs(s, awaiting_unexpired(now)) == u.push(s.last()));
            assert forall|i: int| 0 <= i < u.push(s.last()).len() implies (#[trigger] u.push(s.last())[i]).1.ttl.0
                >= now.0 by {
                if i < u.len() {
                    assert(u.push(s.last())[i] == u[i]);
                }
            }
        }
    }
}

/// After expiring at `now`, an acknowledgement is still awaited exactly when
/// it was awaited before and its ttl is not before `now`, and it is kept as
/// it was.
pub proof fn law_expire_awaiting_keeps_exactly_the_live(a: AwaitingMap, now: Timestamp, id: Seq<char>)
    ensures
        restrict_values(a, awaiting_unexpired(now)).contains_key(id) <==> (a.contains_key(id) && a[id].ttl.0
            >= now.0),
        restrict_values(a, awaiting_unexpired(now)).contains_key(id) ==> restrict_values(a, awaiting_unexpired(now))[id]
            == a[id],
{
}

/// An expiry is counted under `Timeout` for a notification a push of which
/// was recorded, and under `NoConsumer` for one that was never pushed.
pub proof fn law_expiry_reason_follows_recorded_pushes(m: PendingMap, id: Seq<char>, t: Timestamp)
    requires
        m.contains_key(id),
        !m[id].expired_counted,
    ensures
        claim_expired_reason_model(with_sent(m, id, t), id).1 == Some(ExpiryReason::Timeout),
        m[id].sent_at is Some ==> claim_expired_reason_model(m, id).1 == Some(ExpiryReason::Timeout),
        m[id].sent_at is None ==> claim_expired_reason_model(m, id).1 == Some(ExpiryReason::NoConsumer),
{
}

/// The attempt label of a pending notification is `first` until a push of
/// it is recorded and `repeat` from then on; claiming or releasing a push
/// does not change it.
pub proof fn law_attempt_label_follows_recorded_pushes(m: PendingMap, id: Seq<char>, cap: Option<u32>, t: Timestamp)
    ensures
        m.contains_key(id) && m[id].sent_at is None ==> attempt_label(m, id) == "first"@,
        m.contains_key(id) ==> attempt_label(with_sent(m, id, t), id) == "repeat"@,
        attempt_label(claim_push_model(m, id, cap).0, id) == attempt_label(m, id),
        attempt_label(release_push_model(m, id), id) == attempt_label(m, id),
{
}

} // verus!
