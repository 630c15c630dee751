//! What a session still owes its client: notifications read but not yet
//! acknowledged, with the counters that keep each metric counted once, and
//! the notifications that were handed over and await an acknowledgement.

use vstd::prelude::*;
use crate::assoc::{filter_pairs, lemma_filter_pairs, restrict_values, find_index, keys_distinct, lemma_to_map_at, lemma_to_map_empty, lemma_to_map_len, lemma_to_map_push, lemma_to_map_remove, lemma_to_map_update, to_map};
use crate::clock::utc_now;
use crate::redis_types::NotificationData;
use crate::types::{ExpiryReason, NotificationId, StreamEntry, Timestamp, Ttl};

verus! {

/// A pending notification with its delivery bookkeeping.
#[derive(Debug, PartialEq, Eq)]
pub struct NotificationMeta {
    pub data: NotificationData,
    /// When a push of it last succeeded.
    pub sent_at: Option<Timestamp>,
    /// Pushes claimed and not released.
    pub push_count: u32,
    pub total_counted: bool,
    pub retry_counted: bool,
    pub expired_counted: bool,
}

impl Clone for NotificationMeta {
    fn clone(&self) -> (r: Self)
        ensures
            r == *self,
    {
        NotificationMeta {
            data: self.data.clone(),
            sent_at: self.sent_at,
            push_count: self.push_count,
            total_counted: self.total_counted,
            retry_counted: self.retry_counted,
            expired_counted: self.expired_counted,
        }
    }
}

/// A notification that was handed over and awaits the client's acknowledgement.
#[derive(Debug, PartialEq, Eq)]
pub struct AwaitingAck {
    pub category: String,
    pub sent_at: Timestamp,
    pub ttl: Ttl,
}

impl Clone for AwaitingAck {
    fn clone(&self) -> (r: Self)
        ensures
            r == *self,
    {
        AwaitingAck { category: self.category.clone(), sent_at: self.sent_at, ttl: self.ttl }
    }
}

/// What an acknowledgement settled.
#[derive(Debug, PartialEq, Eq)]
pub struct AcknowledgedNotification {
    pub category: String,
    /// The stream entry to delete, when the notification was still pending.
    pub stream_id_to_delete: Option<StreamEntry>,
    pub sent_at: Option<Timestamp>,
}

pub type PendingMap = Map<Seq<char>, NotificationMeta>;

pub type AwaitingMap = Map<Seq<char>, AwaitingAck>;

/// The bookkeeping of a notification that was just read.
pub open spec fn fresh_meta(n: NotificationData, total_counted: bool) -> NotificationMeta {
    NotificationMeta {
        data: n,
        sent_at: None,
        push_count: 0,
        total_counted,
        retry_counted: false,
        expired_counted: false,
    }
}

pub open spec fn insert_if_absent(m: PendingMap, n: NotificationData) -> PendingMap {
    if m.contains_key(n.id@) {
        m
    } else {
        m.insert(n.id@, fresh_meta(n, false))
    }
}

/// The pending map after reading `ns` in order: an id already pending keeps
/// its bookkeeping.
pub open spec fn update_model(m: PendingMap, ns: Seq<NotificationData>) -> PendingMap
    decreases ns.len(),
{
    if ns.len() == 0 {
        m
    } else {
        insert_if_absent(update_model(m, ns.drop_last()), ns.last())
    }
}

/// Counting a notification in the total once: the claim succeeds when it is
/// new (it is then made pending) or pending and not yet counted.
pub open spec fn claim_total_model(m: PendingMap, n: NotificationData) -> (PendingMap, bool) {
    if !m.contains_key(n.id@) {
        (m.insert(n.id@, fresh_meta(n, true)), true)
    } else if !m[n.id@].total_counted {
        (m.insert(n.id@, NotificationMeta { total_counted: true, ..m[n.id@] }), true)
    } else {
        (m, false)
    }
}

pub open spec fn with_sent(m: PendingMap, id: Seq<char>, now: Timestamp) -> PendingMap {
    if m.contains_key(id) {
        m.insert(id, NotificationMeta { sent_at: Some(now), ..m[id] })
    } else {
        m
    }
}

/// Whether one more push is allowed under `cap`.
pub open spec fn under_cap(count: u32, cap: Option<u32>) -> bool {
    match cap {
        None => true,
        Some(c) => count < c,
    }
}

/// Claiming a push: allowed for a pending notification under the cap.
pub open spec fn claim_push_model(m: PendingMap, id: Seq<char>, cap: Option<u32>) -> (PendingMap, bool) {
    if m.contains_key(id) && under_cap(m[id].push_count, cap) {
        (m.insert(id, NotificationMeta { push_count: (m[id].push_count + 1) as u32, ..m[id] }), true)
    } else {
        (m, false)
    }
}

/// Giving back a claimed push (the count does not go below zero).
pub open spec fn release_push_model(m: PendingMap, id: Seq<char>) -> PendingMap {
    if m.contains_key(id) {
        m.insert(
            id,
            NotificationMeta {
                push_count: if m[id].push_count == 0 {
                    0
                } else {
                    (m[id].push_count - 1) as u32
                },
                ..m[id]
            },
        )
    } else {
        m
    }
}

/// `repeat` for a pending notification that was sent before, else `first`.
pub open spec fn attempt_label(m: PendingMap, id: Seq<char>) -> Seq<char> {
    if m.contains_key(id) && m[id].sent_at is Some {
        "repeat"@
    } else {
        "first"@
    }
}

/// Counting a retry once: for a pending notification that was sent before.
pub open spec fn claim_retry_model(m: PendingMap, id: Seq<char>) -> (PendingMap, bool) {
    if m.contains_key(id) && m[id].sent_at is Some && !m[id].retry_counted {
        (m.insert(id, NotificationMeta { retry_counted: true, ..m[id] }), true)
    } else {
        (m, false)
    }
}

/// Counting an expiry once per pending notification.
pub open spec fn claim_expired_model(m: PendingMap, id: Seq<char>) -> (PendingMap, bool) {
    if m.contains_key(id) && !m[id].expired_counted {
        (m.insert(id, NotificationMeta { expired_counted: true, ..m[id] }), true)
    } else {
        (m, false)
    }
}

/// The reason an expiry is counted under: a notification that was sent timed
/// out, one that never was found no consumer.
pub open spec fn expiry_reason_of(meta: NotificationMeta) -> ExpiryReason {
    if meta.sent_at is Some {
        ExpiryReason::Timeout
    } else {
        ExpiryReason::NoConsumer
    }
}

pub open spec fn claim_expired_reason_model(m: PendingMap, id: Seq<char>) -> (PendingMap, Option<ExpiryReason>) {
    if m.contains_key(id) && !m[id].expired_counted {
        (m.insert(id, NotificationMeta { expired_counted: true, ..m[id] }), Some(expiry_reason_of(m[id])))
    } else {
        (m, None)
    }
}

/// An acknowledgement settles the pending entry if there is one, else the
/// entry that awaits it.
pub open spec fn acknowledge_model(p: PendingMap, a: AwaitingMap, id: Seq<char>) -> (PendingMap, AwaitingMap, Option<AcknowledgedNotification>) {
    if p.contains_key(id) {
        (
            p.remove(id),
            a,
            Some(
                AcknowledgedNotification {
                    category: p[id].data.category,
                    stream_id_to_delete: Some(p[id].data.stream_id),
                    sent_at: p[id].sent_at,
                },
            ),
        )
    } else if a.contains_key(id) {
        (
            p,
            a.remove(id),
            Some(
                AcknowledgedNotification {
                    category: a[id].category,
                    stream_id_to_delete: None,
                    sent_at: Some(a[id].sent_at),
                },
            ),
        )
    } else {
        (p, a, None)
    }
}

/// Handing a pending notification over to await its acknowledgement; one that
/// was never sent counts as sent at `now`.
pub open spec fn await_ack_model(p: PendingMap, a: AwaitingMap, id: Seq<char>, now: Timestamp) -> (PendingMap, AwaitingMap) {
    if p.contains_key(id) {
        (
            p.remove(id),
            a.insert(
                id,
                AwaitingAck {
                    category: p[id].data.category,
                    sent_at: match p[id].sent_at {
                        Some(t) => t,
                        None => now,
                    },
                    ttl: p[id].data.ttl,
                },
            ),
        )
    } else {
        (p, a)
    }
}

pub open spec fn awaiting_expired(now: Timestamp) -> spec_fn(AwaitingAck) -> bool {
    |e: AwaitingAck| e.ttl.0 < now.0
}

pub open spec fn awaiting_unexpired(now: Timestamp) -> spec_fn(AwaitingAck) -> bool {
    |e: AwaitingAck| !(e.ttl.0 < now.0)
}

/// A pending notification is live up to and at its ttl.
pub open spec fn pending_live(now: Timestamp) -> spec_fn(NotificationMeta) -> bool {
    |m: NotificationMeta| m.data.ttl.0 >= now.0
}

/// The notifications of pending entries, in order.
pub open spec fn pending_data(s: Seq<(NotificationId, NotificationMeta)>) -> Seq<NotificationData> {
    Seq::new(s.len(), |i: int| s[i].1.data)
}

pub open spec fn categories_of(s: Seq<(NotificationId, AwaitingAck)>) -> Seq<String> {
    s.map_values(|e: (NotificationId, AwaitingAck)| e.1.category)
}

pub closed spec fn pending_key_matches(s: Seq<(NotificationId, NotificationMeta)>) -> bool {
    forall|i: int| 0 <= i < s.len() ==> #[trigger] s[i].0@ == s[i].1.data.id@
}

pub struct ActiveNotification {
    pending: Vec<(NotificationId, NotificationMeta)>,
    awaiting_ack: Vec<(NotificationId, AwaitingAck)>,
}

impl ActiveNotification {
    /// Keys are distinct, and a pending entry is keyed by its notification's id.
    pub closed spec fn wf(&self) -> bool {
        &&& keys_distinct(self.pending@)
        &&& keys_distinct(self.awaiting_ack@)
        &&& pending_key_matches(self.pending@)
    }

    /// Pending notifications by id.
    pub closed spec fn pending_map(&self) -> PendingMap {
        to_map(self.pending@)
    }

    /// Notifications awaiting an acknowledgement, by id.
    pub closed spec fn awaiting_map(&self) -> AwaitingMap {
        to_map(self.awaiting_ack@)
    }

    /// The pending entries in the order in which they are walked.
    pub closed spec fn pending_entries(&self) -> Seq<(NotificationId, NotificationMeta)> {
        self.pending@
    }

    /// The awaiting entries in the order in which they are walked.
    pub closed spec fn awaiting_entries(&self) -> Seq<(NotificationId, AwaitingAck)> {
        self.awaiting_ack@
    }

    /// The walk orders hold the maps' entries, each once.
    pub proof fn lemma_entries(&self)
        requires
            self.wf(),
        ensures
            keys_distinct(self.pending_entries()),
            keys_distinct(self.awaiting_entries()),
            to_map(self.pending_entries()) == self.pending_map(),
            to_map(self.awaiting_entries()) == self.awaiting_map(),
            self.pending_map().dom().finite(),
            self.awaiting_map().dom().finite(),
            forall|k: Seq<char>| #[trigger] self.pending_map().contains_key(k) ==> self.pending_map()[k].data.id@ == k,
            forall|i: int| 0 <= i < self.pending_entries().len() ==> (#[trigger] self.pending_entries()[i]).0@ == self.pending_entries()[i].1.data.id@,
    {
        lemma_to_map_len(self.pending@);
        lemma_to_map_len(self.awaiting_ack@);
        assert forall|k: Seq<char>| #[trigger] self.pending_map().contains_key(k) implies self.pending_map()[k].data.id@ == k by {
            let i = choose|i: int| 0 <= i < self.pending@.len() && #[trigger] self.pending@[i].0@ == k;
            lemma_to_map_at(self.pending@, i);
            assert(self.pending@[i].0@ == self.pending@[i].1.data.id@);
        }
    }

    /// The number of pending notifications.
    pub fn count(&self) -> (n: usize)
        requires
            self.wf(),
        ensures
            n == self.pending_map().len(),
    {
        proof {
            lemma_to_map_len(self.pending@);
        }
        self.pending.len()
    }

    /// Whether the notification is pending.
    pub fn contains(&self, notification_id: &NotificationId) -> (b: bool)
        requires
            self.wf(),
        ensures
            b == self.pending_map().contains_key(notification_id@),
    {
        find_index(&self.pending, notification_id).is_some()
    }

    fn insert_fresh(&mut self, n: &NotificationData, total_counted: bool)
        requires
            old(self).wf(),
            !old(self).pending_map().contains_key(n.id@),
        ensures
            final(self).wf(),
            final(self).pending_map() == old(self).pending_map().insert(n.id@, fresh_meta(*n, total_counted)),
            final(self).awaiting_map() == old(self).awaiting_map(),
    {
        let meta = NotificationMeta {
            data: n.clone(),
            sent_at: None,
            push_count: 0,
            total_counted,
            retry_counted: false,
            expired_counted: false,
        };
        let entry = (n.id.clone(), meta);
        proof {
            lemma_to_map_push(self.pending@, entry);
        }
        self.pending.push(entry);
        proof {
            let s = self.pending@;
            assert forall|i: int| 0 <= i < s.len() implies #[trigger] s[i].0@ == s[i].1.data.id@ by {
                if i < s.len() - 1 {
                    assert(s[i] == old(self).pending@[i]);
                }
            }
        }
    }

    /// Makes each notification of the batch pending, unless its id already is.
    pub fn update(&mut self, notifications: Vec<NotificationData>)
        requires
            old(self).wf(),
        ensures
            final(self).wf(),
            final(self).pending_map() == update_model(old(self).pending_map(), notifications@),
            final(self).awaiting_map() == old(self).awaiting_map(),
    {
        let mut i: usize = 0;
        while i < notifications.len()
            invariant
                i <= notifications@.len(),
                self.wf(),
                self.pending_map() == update_model(old(self).pending_map(), notifications@.take(i as int)),
                self.awaiting_map() == old(self).awaiting_map(),
            decreases notifications.len() - i,
        {
            let n = &notifications[i];
            let ghost before = self.pending_map();
            if !self.contains(&n.id) {
                self.insert_fresh(n, false);
            }
            proof {
                let t = notifications@.take(i + 1);
                assert(t.drop_last() == notifications@.take(i as int));
                assert(t.last() == *n);
            }
            i = i + 1;
        }
        assert(notifications@.take(notifications@.len() as int) == notifications@);
    }

    /// Claims the notification for the total count, once per pending entry.
    pub fn try_claim_total(&mut self, notification: &NotificationData) -> (claimed: bool)
        requires
            old(self).wf(),
        ensures
            final(self).wf(),
            (final(self).pending_map(), claimed) == claim_total_model(old(self).pending_map(), *notification),
            final(self).awaiting_map() == old(self).awaiting_map(),
    {
        match find_index(&self.pending, &notification.id) {
            None => {
                self.insert_fresh(notification, true);
                true
            },
            Some(i) => {
                proof {
                    lemma_to_map_at(self.pending@, i as int);
                }
                if !self.pending[i].1.total_counted {
                    self.pending[i].1.total_counted = true;
                    proof {
                        lemma_to_map_update(old(self).pending@, i as int, self.pending@[i as int]);
                        assert(self.pending@ == old(self).pending@.update(i as int, self.pending@[i as int]));
                        assert(pending_key_matches(self.pending@)) by {
                            let s = self.pending@;
                            assert forall|j: int| 0 <= j < s.len() implies #[trigger] s[j].0@ == s[j].1.data.id@ by {
                                assert(old(self).pending@[j].0@ == old(self).pending@[j].1.data.id@);
                            }
                        }
                    }
                    true
                } else {
                    false
                }
            },
        }
    }
}

impl ActiveNotification {
    /// Records that a push of the pending notification succeeded at `now`.
    pub fn mark_sent(&mut self, notification_id: &NotificationId, now: Timestamp)
        requires
            old(self).wf(),
        ensures
            final(self).wf(),
            final(self).pending_map() == with_sent(old(self).pending_map(), notification_id@, now),
            final(self).awaiting_map() == old(self).awaiting_map(),
    {
        if let Some(i) = find_index(&self.pending, notification_id) {
            proof {
                lemma_to_map_at(self.pending@, i as int);
            }
            self.pending[i].1.sent_at = Some(now);
            proof {
                lemma_pending_set(old(self).pending@, self.pending@, i as int);
            }
        }
    }

    /// Claims one push of the pending notification, if `push_cap` allows one.
    pub fn try_claim_push(&mut self, notification_id: &NotificationId, push_cap: Option<u32>) -> (claimed: bool)
        requires
            old(self).wf(),
            push_cap is None ==> !(old(self).pending_map().contains_key(notification_id@)
                && old(self).pending_map()[notification_id@].push_count == u32::MAX),
        ensures
            final(self).wf(),
            (final(self).pending_map(), claimed) == claim_push_model(old(self).pending_map(), notification_id@, push_cap),
            final(self).awaiting_map() == old(self).awaiting_map(),
    {
        match find_index(&self.pending, notification_id) {
            None => false,
            Some(i) => {
                proof {
                    lemma_to_map_at(self.pending@, i as int);
                }
                let count = self.pending[i].1.push_count;
                let allowed = match push_cap {
                    None => true,
                    Some(cap) => count < cap,
                };
                if allowed {
                    self.pending[i].1.push_count = count + 1;
                    proof {
                        lemma_pending_set(old(self).pending@, self.pending@, i as int);
                    }
                    true
                } else {
                    false
                }
            },
        }
    }

    /// Gives back a push claimed for a round that reached no client.
    pub fn release_push(&mut self, notification_id: &NotificationId)
        requires
            old(self).wf(),
        ensures
            final(self).wf(),
            final(self).pending_map() == release_push_model(old(self).pending_map(), notification_id@),
            final(self).awaiting_map() == old(self).awaiting_map(),
    {
        if let Some(i) = find_index(&self.pending, notification_id) {
            proof {
                lemma_to_map_at(self.pending@, i as int);
            }
            let count = self.pending[i].1.push_count;
            self.pending[i].1.push_count = count.saturating_sub(1);
            proof {
                lemma_pending_set(old(self).pending@, self.pending@, i as int);
            }
        }
    }

    /// The metric label of the next push: `repeat` once a push succeeded.
    pub fn attempt(&self, notification_id: &NotificationId) -> (label: &'static str)
        requires
            self.wf(),
        ensures
            label@ == attempt_label(self.pending_map(), notification_id@),
    {
        match find_index(&self.pending, notification_id) {
            Some(i) => {
                proof {
                    lemma_to_map_at(self.pending@, i as int);
                }
                if self.pending[i].1.sent_at.is_some() {
                    "repeat"
                } else {
                    "first"
                }
            },
            None => "first",
        }
    }

    /// Claims the notification for the retry count, once, after a first push.
    pub fn try_claim_retry(&mut self, notification_id: &NotificationId) -> (claimed: bool)
        requires
            old(self).wf(),
        ensures
            final(self).wf(),
            (final(self).pending_map(), claimed) == claim_retry_model(old(self).pending_map(), notification_id@),
            final(self).awaiting_map() == old(self).awaiting_map(),
    {
        match find_index(&self.pending, notification_id) {
            None => false,
            Some(i) => {
                proof {
                    lemma_to_map_at(self.pending@, i as int);
                }
                if self.pending[i].1.sent_at.is_some() && !self.pending[i].1.retry_counted {
                    self.pending[i].1.retry_counted = true;
                    proof {
                        lemma_pending_set(old(self).pending@, self.pending@, i as int);
                    }
                    true
                } else {
                    false
                }
            },
        }
    }

    /// Claims the notification for the expiry count, once.
    pub fn try_claim_expired(&mut self, notification_id: &NotificationId) -> (claimed: bool)
        requires
            old(self).wf(),
        ensures
            final(self).wf(),
            (final(self).pending_map(), claimed) == claim_expired_model(old(self).pending_map(), notification_id@),
            final(self).awaiting_map() == old(self).awaiting_map(),
    {
        match find_index(&self.pending, notification_id) {
            None => false,
            Some(i) => {
                proof {
                    lemma_to_map_at(self.pending@, i as int);
                }
                if !self.pending[i].1.expired_counted {
                    self.pending[i].1.expired_counted = true;
                    proof {
                        lemma_pending_set(old(self).pending@, self.pending@, i as int);
                    }
                    true
                } else {
                    false
                }
            },
        }
    }

    /// Claims the notification for the expiry count, once, with the reason.
    pub fn try_claim_expired_with_reason(&mut self, notification_id: &NotificationId) -> (reason: Option<ExpiryReason>)
        requires
            old(self).wf(),
        ensures
            final(self).wf(),
            (final(self).pending_map(), reason) == claim_expired_reason_model(old(self).pending_map(), notification_id@),
            final(self).awaiting_map() == old(self).awaiting_map(),
    {
        match find_index(&self.pending, notification_id) {
            None => None,
            Some(i) => {
                proof {
                    lemma_to_map_at(self.pending@, i as int);
                }
                if !self.pending[i].1.expired_counted {
                    self.pending[i].1.expired_counted = true;
                    proof {
                        lemma_pending_set(old(self).pending@, self.pending@, i as int);
                    }
                    Some(
                        if self.pending[i].1.sent_at.is_some() {
                            ExpiryReason::Timeout
                        } else {
                            ExpiryReason::NoConsumer
                        },
                    )
                } else {
                    None
                }
            },
        }
    }

    /// Drops the notification from the pending ones.
    pub fn discard(&mut self, notification_id: &NotificationId)
        requires
            old(self).wf(),
        ensures
            final(self).wf(),
            final(self).pending_map() == old(self).pending_map().remove(notification_id@),
            final(self).awaiting_map() == old(self).awaiting_map(),
    {
        match find_index(&self.pending, notification_id) {
            Some(i) => {
                proof {
                    lemma_pending_remove(self.pending@, i as int);
                }
                self.pending.remove(i);
            },
            None => {
                proof {
                    assert(old(self).pending_map().remove(notification_id@) =~= old(self).pending_map());
                }
            },
        }
    }

    /// Settles the client's acknowledgement of a notification.
    pub fn acknowledge(&mut self, notification_id: &NotificationId) -> (acked: Option<AcknowledgedNotification>)
        requires
            old(self).wf(),
        ensures
            final(self).wf(),
            (final(self).pending_map(), final(self).awaiting_map(), acked) == acknowledge_model(
                old(self).pending_map(),
                old(self).awaiting_map(),
                notification_id@,
            ),
    {
        if let Some(i) = find_index(&self.pending, notification_id) {
            proof {
                lemma_to_map_at(self.pending@, i as int);
                lemma_pending_remove(self.pending@, i as int);
            }
            let (_, meta) = self.pending.remove(i);
            return Some(
                AcknowledgedNotification {
                    category: meta.data.category,
                    stream_id_to_delete: Some(meta.data.stream_id),
                    sent_at: meta.sent_at,
                },
            );
        }
        match find_index(&self.awaiting_ack, notification_id) {
            Some(j) => {
                proof {
                    lemma_to_map_at(self.awaiting_ack@, j as int);
                    lemma_to_map_remove(self.awaiting_ack@, j as int);
                }
                let (_, awaiting) = self.awaiting_ack.remove(j);
                Some(
                    AcknowledgedNotification {
                        category: awaiting.category,
                        stream_id_to_delete: None,
                        sent_at: Some(awaiting.sent_at),
                    },
                )
            },
            None => None,
        }
    }

    /// Hands the pending notification over to await its acknowledgement; if it
    /// was never sent, it counts as sent at `now`.
    pub fn await_ack_at(&mut self, notification_id: &NotificationId, now: Timestamp)
        requires
            old(self).wf(),
        ensures
            final(self).wf(),
            (final(self).pending_map(), final(self).awaiting_map()) == await_ack_model(
                old(self).pending_map(),
                old(self).awaiting_map(),
                notification_id@,
                now,
            ),
    {
        if let Some(i) = find_index(&self.pending, notification_id) {
            proof {
                lemma_to_map_at(self.pending@, i as int);
                lemma_pending_remove(self.pending@, i as int);
            }
            let (_, meta) = self.pending.remove(i);
            let sent_at = match meta.sent_at {
                Some(t) => t,
                None => now,
            };
            let entry = (
                notification_id.clone(),
                AwaitingAck { category: meta.data.category, sent_at, ttl: meta.data.ttl },
            );
            match find_index(&self.awaiting_ack, notification_id) {
                Some(j) => {
                    proof {
                        lemma_to_map_update(self.awaiting_ack@, j as int, entry);
                    }
                    self.awaiting_ack.set(j, entry);
                },
                None => {
                    proof {
                        lemma_to_map_push(self.awaiting_ack@, entry);
                    }
                    self.awaiting_ack.push(entry);
                },
            }
        }
    }

    /// Hands the pending notification over to await its acknowledgement; if it
    /// was never sent, it counts as sent when the clock is read.
    pub fn await_ack(&mut self, notification_id: &NotificationId)
        requires
            old(self).wf(),
        ensures
            final(self).wf(),
            exists|now: Timestamp|
                (final(self).pending_map(), final(self).awaiting_map()) == #[trigger] await_ack_model(
                    old(self).pending_map(),
                    old(self).awaiting_map(),
                    notification_id@,
                    now,
                ),
    {
        let now = utc_now();
        self.await_ack_at(notification_id, now);
    }

    /// Drops the pending notifications whose ttl has passed by the clock.
    pub fn refresh(&mut self)
        requires
            old(self).wf(),
        ensures
            final(self).wf(),
            exists|now: Timestamp|
                final(self).pending_map() == #[trigger] restrict_values(old(self).pending_map(), pending_live(now)),
            final(self).awaiting_map() == old(self).awaiting_map(),
    {
        let now = utc_now();
        self.refresh_at(now);
    }

    /// Drops the notifications awaiting an acknowledgement whose ttl is before
    /// `now`, and gives their categories in walk order.
    pub fn expire_awaiting_ack(&mut self, now: Timestamp) -> (expired: Vec<String>)
        requires
            old(self).wf(),
        ensures
            final(self).wf(),
            final(self).pending_map() == old(self).pending_map(),
            final(self).awaiting_map() == restrict_values(old(self).awaiting_map(), awaiting_unexpired(now)),
            final(self).awaiting_entries() == filter_pairs(old(self).awaiting_entries(), awaiting_unexpired(now)),
            expired@ == categories_of(filter_pairs(old(self).awaiting_entries(), awaiting_expired(now))),
    {
        let ghost s = self.awaiting_ack@;
        let mut kept: Vec<(NotificationId, AwaitingAck)> = Vec::new();
        let mut expired: Vec<String> = Vec::new();
        let mut i: usize = 0;
        while i < self.awaiting_ack.len()
            invariant
                s == self.awaiting_ack@,
                i <= s.len(),
                kept@ == filter_pairs(s.take(i as int), awaiting_unexpired(now)),
                expired@ == categories_of(filter_pairs(s.take(i as int), awaiting_expired(now))),
            decreases s.len() - i,
        {
            let e = &self.awaiting_ack[i];
            proof {
                let t = s.take(i + 1);
                assert(t.drop_last() == s.take(i as int));
                assert(t.last() == *e);
            }
            if e.1.ttl.0 < now.0 {
                expired.push(e.1.category.clone());
                proof {
                    let f = filter_pairs(s.take(i as int), awaiting_expired(now));
                    assert(categories_of(f.push(*e)) == categories_of(f).push(e.1.category));
                }
            } else {
                kept.push((e.0.clone(), e.1.clone()));
            }
            i = i + 1;
        }
        proof {
            assert(s.take(s.len() as int) == s);
            lemma_filter_pairs(s, awaiting_unexpired(now));
        }
        self.awaiting_ack = kept;
        expired
    }

    /// Drops every notification awaiting an acknowledgement and gives their
    /// categories in walk order.
    pub fn drain_awaiting_ack(&mut self) -> (drained: Vec<String>)
        requires
            old(self).wf(),
        ensures
            final(self).wf(),
            final(self).pending_map() == old(self).pending_map(),
            final(self).awaiting_map() == AwaitingMap::empty(),
            drained@ == categories_of(old(self).awaiting_entries()),
    {
        let ghost s = self.awaiting_ack@;
        let mut drained: Vec<String> = Vec::new();
        let mut i: usize = 0;
        while i < self.awaiting_ack.len()
            invariant
                s == self.awaiting_ack@,
                i <= s.len(),
                drained@ == categories_of(s.take(i as int)),
            decreases s.len() - i,
        {
            drained.push(self.awaiting_ack[i].1.category.clone());
            proof {
                assert(s.take(i + 1) == s.take(i as int).push(s[i as int]));
            }
            i = i + 1;
        }
        proof {
            assert(s.take(s.len() as int) == s);
        }
        self.awaiting_ack = Vec::new();
        proof {
            lemma_to_map_empty(self.awaiting_ack@);
        }
        drained
    }

    /// Drops the pending notifications whose ttl is before `now`.
    pub fn refresh_at(&mut self, now: Timestamp)
        requires
            old(self).wf(),
        ensures
            final(self).wf(),
            final(self).pending_map() == restrict_values(old(self).pending_map(), pending_live(now)),
            final(self).pending_entries() == filter_pairs(old(self).pending_entries(), pending_live(now)),
            final(self).awaiting_map() == old(self).awaiting_map(),
    {
        let ghost s = self.pending@;
        let mut kept: Vec<(NotificationId, NotificationMeta)> = Vec::new();
        let mut i: usize = 0;
        while i < self.pending.len()
            invariant
                s == self.pending@,
                i <= s.len(),
                kept@ == filter_pairs(s.take(i as int), pending_live(now)),
            decreases s.len() - i,
        {
            let e = &self.pending[i];
            proof {
                let t = s.take(i + 1);
                assert(t.drop_last() == s.take(i as int));
                assert(t.last() == *e);
            }
            if e.1.data.ttl.0 >= now.0 {
                kept.push((e.0.clone(), e.1.clone()));
            }
            i = i + 1;
        }
        proof {
            assert(s.take(s.len() as int) == s);
            lemma_filter_pairs(s, pending_live(now));
            lemma_filter_keys_match(s, pending_live(now));
        }
        self.pending = kept;
    }

    /// The pending notifications, for another delivery round, in walk order.
    pub fn pending_redelivery(&self) -> (ns: Vec<NotificationData>)
        requires
            self.wf(),
        ensures
            ns@ == pending_data(self.pending_entries()),
    {
        let mut ns: Vec<NotificationData> = Vec::new();
        let mut i: usize = 0;
        while i < self.pending.len()
            invariant
                i <= self.pending@.len(),
                ns@ == pending_data(self.pending@.take(i as int)),
            decreases self.pending@.len() - i,
        {
            let ghost before = ns@;
            ns.push(self.pending[i].1.data.clone());
            proof {
                assert(ns@ =~= pending_data(self.pending@.take(i + 1)));
            }
            i = i + 1;
        }
        proof {
            assert(self.pending@.take(self.pending@.len() as int) == self.pending@);
        }
        ns
    }
}

proof fn lemma_filter_keys_match(s: Seq<(NotificationId, NotificationMeta)>, p: spec_fn(NotificationMeta) -> bool)
    requires
        pending_key_matches(s),
    ensures
        pending_key_matches(filter_pairs(s, p)),
    decreases s.len(),
{
    if s.len() > 0 {
        let d = s.drop_last();
        assert forall|j: int| 0 <= j < d.len() implies #[trigger] d[j].0@ == d[j].1.data.id@ by {
            assert(d[j] == s[j]);
        }
        lemma_filter_keys_match(d, p);
        let fd = filter_pairs(d, p);
        let f = filter_pairs(s, p);
        assert forall|j: int| 0 <= j < f.len() implies #[trigger] f[j].0@ == f[j].1.data.id@ by {
            if j < fd.len() {
                assert(f[j] == fd[j]);
            } else {
                assert(f[j] == s[s.len() - 1]);
            }
        }
    }
}

proof fn lemma_pending_set(
    old_s: Seq<(NotificationId, NotificationMeta)>,
    new_s: Seq<(NotificationId, NotificationMeta)>,
    i: int,
)
    requires
        keys_distinct(old_s),
        pending_key_matches(old_s),
        0 <= i < old_s.len(),
        new_s.len() == old_s.len(),
        new_s[i].0 == old_s[i].0,
        new_s[i].1.data == old_s[i].1.data,
        forall|j: int| 0 <= j < old_s.len() && j != i ==> new_s[j] == old_s[j],
    ensures
        keys_distinct(new_s),
        pending_key_matches(new_s),
        to_map(new_s) == to_map(old_s).insert(old_s[i].0@, new_s[i].1),
{
    assert(new_s == old_s.update(i, new_s[i]));
    lemma_to_map_update(old_s, i, new_s[i]);
    assert forall|j: int| 0 <= j < new_s.len() implies #[trigger] new_s[j].0@ == new_s[j].1.data.id@ by {
        assert(old_s[j].0@ == old_s[j].1.data.id@);
    }
}

proof fn lemma_pending_remove(s: Seq<(NotificationId, NotificationMeta)>, i: int)
    requires
        keys_distinct(s),
        pending_key_matches(s),
        0 <= i < s.len(),
    ensures
        keys_distinct(s.remove(i)),
        pending_key_matches(s.remove(i)),
        to_map(s.remove(i)) == to_map(s).remove(s[i].0@),
{
    lemma_to_map_remove(s, i);
    let r = s.remove(i);
    assert forall|j: int| 0 <= j < r.len() implies #[trigger] r[j].0@ == r[j].1.data.id@ by {
        if j < i {
            assert(r[j] == s[j]);
        } else {
            assert(r[j] == s[j + 1]);
        }
    }
}

impl Default for ActiveNotification {
    fn default() -> (a: Self)
        ensures
            a.wf(),
            a.pending_map() == PendingMap::empty(),
            a.awaiting_map() == AwaitingMap::empty(),
    {
        let a = ActiveNotification { pending: Vec::new(), awaiting_ack: Vec::new() };
        proof {
            lemma_to_map_empty(a.pending@);
            lemma_to_map_empty(a.awaiting_ack@);
        }
        a
    }
}

} // verus!
