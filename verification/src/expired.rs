//! The queue of stream entries to delete from Redis: entries that expired
//! undelivered, and entries that were delivered once and for all. It is
//! flushed one batch per shard.

use vstd::prelude::*;
use crate::assoc::{find_index, keys_distinct, lemma_to_map_at, lemma_to_map_empty, lemma_to_map_push, lemma_to_map_update, to_map};
use crate::redis_types::NotificationData;
use crate::types::{CleanupReason, ClientId, ExpiredMeta, ExpiryReason};

verus! {

/// The stream entries of one client that are to be deleted.
pub struct ExpiredEntry {
    pub shard: u64,
    pub stream_ids: Vec<(String, ExpiredMeta)>,
}

/// The stream entries to delete, by client.
pub struct ExpiredQueue {
    entries: Vec<(ClientId, ExpiredEntry)>,
}

/// The stream ids of a client's queued entries, in order.
pub open spec fn id_keys(s: Seq<(String, ExpiredMeta)>) -> Seq<Seq<char>> {
    Seq::new(s.len(), |i: int| s[i].0@)
}

pub open spec fn strings_view(v: Seq<String>) -> Seq<Seq<char>> {
    Seq::new(v.len(), |i: int| v[i]@)
}

/// The category and reason of each queued entry that expired, in order.
pub open spec fn expired_of(s: Seq<(String, ExpiredMeta)>) -> Seq<(Seq<char>, ExpiryReason)>
    decreases s.len(),
{
    if s.len() == 0 {
        Seq::empty()
    } else {
        let r = expired_of(s.drop_last());
        match s.last().1.reason {
            CleanupReason::Expired(reason) => r.push((s.last().1.category@, reason)),
            CleanupReason::Delivered => r,
        }
    }
}

/// The expired entries of all clients, client after client.
pub open spec fn expired_all(s: Seq<(ClientId, ExpiredEntry)>) -> Seq<(Seq<char>, ExpiryReason)>
    decreases s.len(),
{
    if s.len() == 0 {
        Seq::empty()
    } else {
        expired_all(s.drop_last()) + expired_of(s.last().1.stream_ids@)
    }
}

/// The clients on `shard` that have entries queued, each with the stream ids
/// of its entries, in queue order.
pub open spec fn group_of(s: Seq<(ClientId, ExpiredEntry)>, shard: u64) -> Seq<(Seq<char>, Seq<Seq<char>>)>
    decreases s.len(),
{
    if s.len() == 0 {
        Seq::empty()
    } else {
        let r = group_of(s.drop_last(), shard);
        if s.last().1.shard == shard && s.last().1.stream_ids@.len() > 0 {
            r.push((s.last().0@, id_keys(s.last().1.stream_ids@)))
        } else {
            r
        }
    }
}

/// The client ids and stream ids of one shard's batch.
pub open spec fn batch_view(v: Seq<(String, Vec<String>)>) -> Seq<(Seq<char>, Seq<Seq<char>>)> {
    Seq::new(v.len(), |i: int| (v[i].0@, strings_view(v[i].1@)))
}

/// The deletions of one shard: for each client, the ids of its entries.
pub struct ShardBatch {
    pub shard: u64,
    pub clients: Vec<(String, Vec<String>)>,
}

/// What a flush hands out: the deletions, one batch per shard, and the
/// category and reason of each entry that expired, for the metrics.
pub struct ExpiredFlush {
    pub batches: Vec<ShardBatch>,
    pub expired: Vec<(String, ExpiryReason)>,
}

pub open spec fn expired_view(v: Seq<(String, ExpiryReason)>) -> Seq<(Seq<char>, ExpiryReason)> {
    Seq::new(v.len(), |i: int| (v[i].0@, v[i].1))
}

impl ExpiredQueue {
    /// The clients in the order in which a flush walks them.
    pub closed spec fn entries(&self) -> Seq<(ClientId, ExpiredEntry)> {
        self.entries@
    }

    pub open spec fn wf(&self) -> bool {
        &&& keys_distinct(self.entries())
        &&& forall|i: int| 0 <= i < self.entries().len() ==> keys_distinct(#[trigger] self.entries()[i].1.stream_ids@)
    }

    /// The shard of each client with entries queued.
    pub open spec fn shards(&self) -> Map<Seq<char>, u64> {
        to_map(self.entries()).map_values(|e: ExpiredEntry| e.shard)
    }

    /// The queued entries of each client, by stream id.
    pub open spec fn ids(&self) -> Map<Seq<char>, Map<Seq<char>, ExpiredMeta>> {
        to_map(self.entries()).map_values(|e: ExpiredEntry| to_map(e.stream_ids@))
    }

    pub proof fn lemma_entry(&self, i: int)
        requires
            self.wf(),
            0 <= i < self.entries().len(),
        ensures
            self.shards().contains_key(self.entries()[i].0@),
            self.shards()[self.entries()[i].0@] == self.entries()[i].1.shard,
            self.ids()[self.entries()[i].0@] == to_map(self.entries()[i].1.stream_ids@),
    {
        lemma_to_map_at(self.entries(), i);
    }
}

/// An empty queue.
pub fn new_expired_queue() -> (q: ExpiredQueue)
    ensures
        q.wf(),
        q.entries().len() == 0,
        q.shards() == Map::<Seq<char>, u64>::empty(),
{
    let q = ExpiredQueue { entries: Vec::new() };
    proof {
        lemma_to_map_empty(q.entries@);
        assert(q.shards() =~= Map::<Seq<char>, u64>::empty());
    }
    q
}

/// `new` is `old` with the entry `id` of client `k` queued: the client keeps
/// its shard, or gets `shard` when it had nothing queued; `meta` replaces
/// what was queued for `id` when `overwrite`, and is dropped otherwise.
pub open spec fn queued(
    old: ExpiredQueue,
    new: ExpiredQueue,
    k: Seq<char>,
    shard: u64,
    id: Seq<char>,
    meta: ExpiredMeta,
    overwrite: bool,
) -> bool {
    &&& new.shards().dom() == old.shards().dom().insert(k)
    &&& forall|j: Seq<char>| #[trigger] old.shards().contains_key(j) && j != k ==> {
        &&& new.shards()[j] == old.shards()[j]
        &&& new.ids()[j] == old.ids()[j]
    }
    &&& new.shards()[k] == if old.shards().contains_key(k) { old.shards()[k] } else { shard }
    &&& new.ids()[k] == if !old.shards().contains_key(k) {
        Map::<Seq<char>, ExpiredMeta>::empty().insert(id, meta)
    } else if overwrite || !old.ids()[k].contains_key(id) {
        old.ids()[k].insert(id, meta)
    } else {
        old.ids()[k]
    }
}

impl ExpiredQueue {
    fn queue(&mut self, client_id: &ClientId, shard: u64, stream_id: String, meta: ExpiredMeta, overwrite: bool)
        requires
            old(self).wf(),
        ensures
            final(self).wf(),
            queued(*old(self), *final(self), client_id@, shard, stream_id@, meta, overwrite),
    {
        let ghost o = self.entries@;
        let ghost id = stream_id@;
        let ghost m = meta;
        match find_index(&self.entries, client_id) {
            None => {
                let mut ids: Vec<(String, ExpiredMeta)> = Vec::new();
                ids.push((stream_id, meta));
                proof {
                    lemma_to_map_empty(Seq::<(String, ExpiredMeta)>::empty());
                    lemma_to_map_push(Seq::<(String, ExpiredMeta)>::empty(), ids@[0]);
                    assert(ids@ == Seq::<(String, ExpiredMeta)>::empty().push(ids@[0]));
                }
                let entry = (client_id.clone(), ExpiredEntry { shard, stream_ids: ids });
                proof {
                    lemma_to_map_push(o, entry);
                }
                self.entries.push(entry);
                proof {
                    let s = self.entries@;
                    assert forall|i: int| 0 <= i < s.len() implies keys_distinct(#[trigger] s[i].1.stream_ids@) by {
                        if i < o.len() {
                            assert(s[i] == o[i]);
                        }
                    }
                    assert(self.shards().dom() =~= old(self).shards().dom().insert(client_id@));
                }
            },
            Some(i) => {
                proof {
                    lemma_to_map_at(o, i as int);
                }
                let ghost ov = self.entries@[i as int].1.stream_ids@;
                let found = find_index(&self.entries[i].1.stream_ids, &stream_id);
                match found {
                    Some(p) => {
                        proof {
                            lemma_to_map_at(ov, p as int);
                        }
                        if overwrite {
                            self.entries[i].1.stream_ids.set(p, (stream_id, meta));
                            proof {
                                lemma_to_map_update(ov, p as int, (self.entries@[i as int].1.stream_ids@[p as int]));
                                assert(self.entries@[i as int].1.stream_ids@ == ov.update(p as int, self.entries@[i as int].1.stream_ids@[p as int]));
                            }
                        }
                    },
                    None => {
                        proof {
                            lemma_to_map_push(ov, (stream_id, meta));
                        }
                        self.entries[i].1.stream_ids.push((stream_id, meta));
                    },
                }
                proof {
                    let s = self.entries@;
                    assert(s == o.update(i as int, s[i as int]));
                    lemma_to_map_update(o, i as int, s[i as int]);
                    assert forall|j: int| 0 <= j < s.len() implies keys_distinct(#[trigger] s[j].1.stream_ids@) by {
                        if j != i {
                            assert(s[j] == o[j]);
                        }
                    }
                    assert(self.shards().dom() =~= old(self).shards().dom().insert(client_id@));
                    assert forall|j: Seq<char>| #[trigger] old(self).shards().contains_key(j) && j != client_id@ implies {
                        &&& self.shards()[j] == old(self).shards()[j]
                        &&& self.ids()[j] == old(self).ids()[j]
                    } by {
                        assert(to_map(s)[j] == to_map(o)[j]);
                    }
                }
            },
        }
    }
}

/// Queues the entry `stream_id` of an expired notification for deletion,
/// unless it is queued already: what was queued first stays.
pub fn try_push_expired(
    expired_queue: &mut ExpiredQueue,
    client_id: &ClientId,
    shard: u64,
    stream_id: String,
    meta: ExpiredMeta,
)
    requires
        old(expired_queue).wf(),
    ensures
        final(expired_queue).wf(),
        queued(*old(expired_queue), *final(expired_queue), client_id@, shard, stream_id@, meta, false),
{
    expired_queue.queue(client_id, shard, stream_id, meta, false);
}

/// Queues the entry of a notification that was delivered for deletion; it
/// replaces whatever was queued for that entry.
pub fn push_delivered_cleanup(
    cleanup_queue: &mut ExpiredQueue,
    client_id: &ClientId,
    shard: u64,
    notification: &NotificationData,
)
    requires
        old(cleanup_queue).wf(),
    ensures
        final(cleanup_queue).wf(),
        queued(
            *old(cleanup_queue),
            *final(cleanup_queue),
            client_id@,
            shard,
            notification.stream_id@,
            ExpiredMeta { category: notification.category, reason: CleanupReason::Delivered },
            true,
        ),
{
    let meta = ExpiredMeta { category: notification.category.clone(), reason: CleanupReason::Delivered };
    cleanup_queue.queue(client_id, shard, notification.stream_id.inner(), meta, true);
}

/// The clients whose entries a flush leaves in the queue: those with none.
pub open spec fn kept_entries(s: Seq<(ClientId, ExpiredEntry)>) -> Seq<(ClientId, ExpiredEntry)>
    decreases s.len(),
{
    if s.len() == 0 {
        Seq::empty()
    } else {
        let r = kept_entries(s.drop_last());
        if s.last().1.stream_ids@.len() == 0 {
            r.push(s.last())
        } else {
            r
        }
    }
}

/// The stream ids of a client's entries, as they are handed out.
fn stream_ids_of(ids: &Vec<(String, ExpiredMeta)>) -> (r: Vec<String>)
    ensures
        strings_view(r@) == id_keys(ids@),
{
    let mut r: Vec<String> = Vec::new();
    let mut i: usize = 0;
    while i < ids.len()
        invariant
            i <= ids@.len(),
            strings_view(r@) == id_keys(ids@.take(i as int)),
        decreases ids.len() - i,
    {
        let ghost before = r@;
        r.push(ids[i].0.clone());
        proof {
            assert(strings_view(before).len() == before.len());
            assert(id_keys(ids@.take(i as int)).len() == i);
            assert(before.len() == i);
            assert(r@.len() == i + 1);
            assert(strings_view(r@).len() == i + 1);
            assert(id_keys(ids@.take(i + 1)).len() == i + 1);
            assert forall|j: int| 0 <= j < i + 1 implies strings_view(r@)[j] == id_keys(ids@.take(i + 1))[j] by {
                if j < i {
                    assert(strings_view(before)[j] == id_keys(ids@.take(i as int))[j]);
                }
            }
            assert(strings_view(r@) =~= id_keys(ids@.take(i + 1)));
        }
        i = i + 1;
    }
    assert(ids@.take(ids@.len() as int) == ids@);
    r
}

/// Appends the category and reason of each expired entry of `ids`.
fn collect_expired(ids: &Vec<(String, ExpiredMeta)>, out: &mut Vec<(String, ExpiryReason)>)
    ensures
        expired_view(final(out)@) == expired_view(old(out)@) + expired_of(ids@),
{
    let mut i: usize = 0;
    while i < ids.len()
        invariant
            i <= ids@.len(),
            expired_view(out@) == expired_view(old(out)@) + expired_of(ids@.take(i as int)),
        decreases ids.len() - i,
    {
        let ghost t = ids@.take(i + 1);
        assert(t.drop_last() == ids@.take(i as int));
        assert(t.last() == ids@[i as int]);
        match ids[i].1.reason {
            CleanupReason::Expired(reason) => {
                let ghost before = out@;
                out.push((ids[i].1.category.clone(), reason));
                proof {
                    let lhs = expired_view(out@);
                    let rhs = expired_view(old(out)@) + expired_of(t);
                    assert(expired_view(before).len() == before.len());
                    assert(expired_view(old(out)@).len() == old(out)@.len());
                    assert(lhs.len() == before.len() + 1);
                    assert(expired_of(t) == expired_of(ids@.take(i as int)).push((ids@[i as int].1.category@, reason)));
                    assert forall|j: int| 0 <= j < lhs.len() implies lhs[j] == rhs[j] by {
                        if j < before.len() {
                            assert(lhs[j] == expired_view(before)[j]);
                        }
                    }
                    assert(lhs =~= rhs);
                }
            },
            CleanupReason::Delivered => {},
        }
        i = i + 1;
    }
    assert(ids@.take(ids@.len() as int) == ids@);
}

/// The position of the batch of `shard`, if there is one.
fn find_batch(batches: &Vec<ShardBatch>, shard: u64) -> (r: Option<usize>)
    ensures
        r matches Some(c) ==> c < batches@.len() && batches@[c as int].shard == shard,
        r is None ==> forall|c: int| 0 <= c < batches@.len() ==> #[trigger] batches@[c].shard != shard,
{
    let mut a: usize = 0;
    while a < batches.len()
        invariant
            a <= batches@.len(),
            forall|c: int| 0 <= c < a ==> #[trigger] batches@[c].shard != shard,
        decreases batches.len() - a,
    {
        if batches[a].shard == shard {
            return Some(a);
        }
        a = a + 1;
    }
    None
}

/// What a flush keeps comes from the queue, each client at most once.
proof fn lemma_kept_entries(s: Seq<(ClientId, ExpiredEntry)>)
    ensures
        forall|a: int| 0 <= a < kept_entries(s).len() ==> exists|j: int| 0 <= j < s.len() && #[trigger] kept_entries(s)[a] == s[j],
    decreases s.len(),
{
    if s.len() > 0 {
        let d = s.drop_last();
        lemma_kept_entries(d);
        let r = kept_entries(d);
        assert forall|a: int| 0 <= a < kept_entries(s).len() implies exists|j: int| 0 <= j < s.len() && #[trigger] kept_entries(s)[a] == s[j] by {
            if a < r.len() {
                let j = choose|j: int| 0 <= j < d.len() && #[trigger] r[a] == d[j];
                assert(kept_entries(s)[a] == s[j]);
            } else {
                assert(kept_entries(s)[a] == s[s.len() - 1]);
            }
        }
    }
}

/// Takes every client with entries queued out of the queue, grouped by
/// shard: one batch per shard, holding each of its clients with the stream
/// ids of its entries, in queue order. Clients with no entry stay.
pub fn flush_expired_queue(expired_queue: &mut ExpiredQueue) -> (f: ExpiredFlush)
    requires
        old(expired_queue).wf(),
    ensures
        final(expired_queue).wf(),
        final(expired_queue).entries() == kept_entries(old(expired_queue).entries()),
        forall|a: int, b: int|
            0 <= a < f.batches@.len() && 0 <= b < f.batches@.len() && a != b ==> #[trigger] f.batches@[a].shard
                != #[trigger] f.batches@[b].shard,
        forall|a: int|
            0 <= a < f.batches@.len() ==> batch_view((#[trigger] f.batches@[a]).clients@) == group_of(
                old(expired_queue).entries(),
                f.batches@[a].shard,
            ),
        forall|shard: u64|
            #![trigger group_of(old(expired_queue).entries(), shard)]
            group_of(old(expired_queue).entries(), shard).len() > 0 ==> exists|a: int|
                0 <= a < f.batches@.len() && #[trigger] f.batches@[a].shard == shard,
        expired_view(f.expired@) == expired_all(old(expired_queue).entries()),
{
    let mut taken: Vec<(ClientId, ExpiredEntry)> = Vec::new();
    std::mem::swap(&mut taken, &mut expired_queue.entries);
    let ghost o = taken@;
    let mut batches: Vec<ShardBatch> = Vec::new();
    let mut expired: Vec<(String, ExpiryReason)> = Vec::new();
    let ghost mut i: int = 0;
    assert(expired_view(expired@) =~= Seq::empty());
    assert(o.skip(0) == o);
    proof {
        lemma_to_map_empty(expired_queue.entries@);
    }
    while taken.len() > 0
        invariant
            0 <= i <= o.len(),
            taken@ == o.skip(i),
            keys_distinct(o),
            forall|j: int| 0 <= j < o.len() ==> keys_distinct(#[trigger] o[j].1.stream_ids@),
            expired_queue.entries() == kept_entries(o.take(i)),
            expired_queue.wf(),
            forall|a: int, b: int|
                0 <= a < batches@.len() && 0 <= b < batches@.len() && a != b ==> #[trigger] batches@[a].shard
                    != #[trigger] batches@[b].shard,
            forall|a: int|
                0 <= a < batches@.len() ==> batch_view((#[trigger] batches@[a]).clients@) == group_of(
                    o.take(i),
                    batches@[a].shard,
                ),
            forall|shard: u64|
                #![trigger group_of(o.take(i), shard)]
                group_of(o.take(i), shard).len() > 0 ==> exists|a: int|
                    0 <= a < batches@.len() && #[trigger] batches@[a].shard == shard,
            expired_view(expired@) == expired_all(o.take(i)),
        decreases taken@.len(),
    {
        let ghost t = o.take(i + 1);
        assert(t.drop_last() == o.take(i));
        assert(t.last() == o[i]);
        assert(taken@[0] == o[i]);
        let (client_id, entry) = taken.remove(0);
        assert(taken@ == o.skip(i + 1));
        let shard = entry.shard;
        if entry.stream_ids.len() == 0 {
            proof {
                lemma_kept_entries(o.take(i));
                let k = kept_entries(o.take(i));
                assert forall|a: int| 0 <= a < k.len() implies k[a].0@ != o[i].0@ by {
                    let j = choose|j: int| 0 <= j < o.take(i).len() && #[trigger] k[a] == o.take(i)[j];
                    assert(o.take(i)[j] == o[j]);
                }
                let pushed = (client_id, entry);
                assert(pushed == o[i]);
                lemma_to_map_push(k, pushed);
            }
            expired_queue.entries.push((client_id, entry));
            proof {
                let e = expired_queue.entries@;
                assert forall|a: int| 0 <= a < e.len() implies keys_distinct(#[trigger] e[a].1.stream_ids@) by {
                    if a < e.len() - 1 {
                        assert(e[a] == kept_entries(o.take(i))[a]);
                    }
                }
                assert forall|a: int| 0 <= a < batches@.len() implies batch_view((#[trigger] batches@[a]).clients@) == group_of(
                    t,
                    batches@[a].shard,
                ) by {}
                assert forall|sh: u64| #![trigger group_of(t, sh)] group_of(t, sh).len() > 0 implies exists|a: int|
                    0 <= a < batches@.len() && #[trigger] batches@[a].shard == sh by {
                    assert(group_of(o.take(i), sh).len() > 0);
                }
                assert(expired_of(o[i].1.stream_ids@) =~= Seq::empty());
                assert(expired_all(t) =~= expired_all(o.take(i)));
            }
        } else {
            collect_expired(&entry.stream_ids, &mut expired);
            let ids = stream_ids_of(&entry.stream_ids);
            let client = client_id.inner();
            let found = find_batch(&batches, shard);
            let ghost before = batches@;
            let ghost item = (client@, strings_view(ids@));
            match found {
                Some(c) => {
                    let ghost bc = batches@[c as int].clients@;
                    batches[c].clients.push((client, ids));
                    proof {
                        assert(batch_view(batches@[c as int].clients@) =~= batch_view(bc).push(item));
                        assert forall|b: int| 0 <= b < batches@.len() && b != c implies #[trigger] batches@[b] == before[b] by {}
                    }
                },
                None => {
                    let mut clients: Vec<(String, Vec<String>)> = Vec::new();
                    clients.push((client, ids));
                    batches.push(ShardBatch { shard, clients });
                    proof {
                        assert(group_of(o.take(i), shard).len() == 0);
                        assert(batch_view(batches@.last().clients@) =~= seq![item]);
                        assert forall|b: int| 0 <= b < before.len() implies #[trigger] batches@[b] == before[b] by {}
                    }
                },
            }
            proof {
                assert(item == (o[i].0@, id_keys(o[i].1.stream_ids@)));
                assert(group_of(t, shard) == group_of(o.take(i), shard).push(item));
                assert forall|a2: int| 0 <= a2 < batches@.len() implies batch_view((#[trigger] batches@[a2]).clients@) == group_of(
                    t,
                    batches@[a2].shard,
                ) by {
                    if batches@[a2].shard != shard {
                        assert(group_of(t, batches@[a2].shard) == group_of(o.take(i), batches@[a2].shard));
                        assert(batches@[a2] == before[a2]);
                    }
                }
                assert forall|sh: u64| #![trigger group_of(t, sh)] group_of(t, sh).len() > 0 implies exists|a2: int|
                    0 <= a2 < batches@.len() && #[trigger] batches@[a2].shard == sh by {
                    if sh != shard {
                        assert(group_of(o.take(i), sh).len() > 0);
                        let a3 = choose|a3: int| 0 <= a3 < before.len() && #[trigger] before[a3].shard == sh;
                        assert(batches@[a3] == before[a3]);
                    } else {
                        match found {
                            Some(c) => assert(batches@[c as int].shard == sh),
                            None => assert(batches@[before.len() as int].shard == sh),
                        }
                    }
                }
                assert(expired_all(t) == expired_all(o.take(i)) + expired_of(o[i].1.stream_ids@));
            }
        }
        proof {
            i = i + 1;
        }
    }
    assert(o.take(o.len() as int) == o);
    ExpiredFlush { batches, expired }
}

} // verus!
