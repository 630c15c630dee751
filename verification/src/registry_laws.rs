//! Laws of the registry: what reads, connections and disconnections keep.

use vstd::prelude::*;
use crate::redis_types::NotificationData;
use crate::registry::{
    advance_model, claim_model, connected, disconnected, ids_parse_uniquely, lemma_max_id_bounds, lemma_unread_after,
    max_id_of, remove_session, session_index, ClientEntry, DisconnectOutcome, SessionMap,
};
use crate::assoc::has_key;
use crate::reader::shards_within;
use crate::registry::slots_of;
use crate::types::{Shard, StreamToken};
use crate::stream_id::{lemma_stream_id_le_pairs, lemma_stream_id_max_bounds, pair_le, parse_stream_id, stream_id_le};

verus! {

/// At most once, two reads of one client's stream that follow each other
/// never hand out the same stream entry, whatever the second read brought:
/// every entry the first handed out is at or before the cursor it left.
pub proof fn law_at_most_once_reads_are_disjoint(
    cursor: Seq<char>,
    first: Seq<NotificationData>,
    second: Seq<NotificationData>,
)
    requires
        ids_parse_uniquely(first),
    ensures
        ({
            let (r1, c1) = claim_model(cursor, first);
            let (r2, c2) = claim_model(c1, second);
            forall|i: int, j: int|
                0 <= i < r1.len() && 0 <= j < r2.len() ==> #[trigger] r1[i].stream_id@ != #[trigger] r2[j].stream_id@
        }),
{
    let (r1, c1) = claim_model(cursor, first);
    let (r2, c2) = claim_model(c1, second);
    lemma_unread_after(first, cursor);
    lemma_unread_after(second, c1);
    if r1.len() > 0 {
        assert forall|i: int| 0 <= i < r1.len() implies (parse_stream_id(#[trigger] r1[i].stream_id@) is Some) by {
            let k = choose|k: int| 0 <= k < first.len() && first[k] == r1[i];
            assert(parse_stream_id(first[k].stream_id@) is Some);
        }
        lemma_max_id_bounds(r1);
        assert forall|i: int, j: int|
            0 <= i < r1.len() && 0 <= j < r2.len() implies #[trigger] r1[i].stream_id@ != #[trigger] r2[j].stream_id@ by {
            let m = choose|m: int| 0 <= m < r1.len() && max_id_of(r1) == #[trigger] r1[m].stream_id@;
            let a = choose|a: int| 0 <= a < first.len() && first[a] == r1[i];
            let b = choose|b: int| 0 <= b < first.len() && first[b] == r1[m];
            assert(parse_stream_id(first[a].stream_id@) == parse_stream_id(first[b].stream_id@) ==> first[a].stream_id@ == first[b].stream_id@);
            lemma_stream_id_le_pairs(r1[i].stream_id@, c1);
            assert(stream_id_le(r1[i].stream_id@, c1));
            assert(!stream_id_le(r2[j].stream_id@, c1));
        }
    }
}

/// At most once, a read never moves the client's cursor back, as long as
/// the cursor and the ids read parse.
pub proof fn law_at_most_once_cursor_never_moves_back(cursor: Seq<char>, batch: Seq<NotificationData>)
    requires
        parse_stream_id(cursor) is Some,
        forall|i: int| 0 <= i < batch.len() ==> (parse_stream_id(#[trigger] batch[i].stream_id@) is Some),
    ensures
        parse_stream_id(claim_model(cursor, batch).1) is Some,
        pair_le(parse_stream_id(cursor)->0, parse_stream_id(claim_model(cursor, batch).1)->0),
{
    let (r, c) = claim_model(cursor, batch);
    lemma_unread_after(batch, cursor);
    if r.len() > 0 {
        assert forall|i: int| 0 <= i < r.len() implies (parse_stream_id(#[trigger] r[i].stream_id@) is Some) by {
            let k = choose|k: int| 0 <= k < batch.len() && batch[k] == r[i];
            assert(parse_stream_id(batch[k].stream_id@) is Some);
        }
        lemma_max_id_bounds(r);
        assert(!stream_id_le(r[0].stream_id@, cursor));
        assert(pair_le(parse_stream_id(r[0].stream_id@)->0, parse_stream_id(c)->0));
    }
}

/// At least once, a read never moves the client's cursor back, as long as
/// the cursor and the ids read parse.
pub proof fn law_at_least_once_cursor_never_moves_back(cursor: Seq<char>, batch: Seq<NotificationData>)
    requires
        parse_stream_id(cursor) is Some,
        forall|i: int| 0 <= i < batch.len() ==> (parse_stream_id(#[trigger] batch[i].stream_id@) is Some),
    ensures
        parse_stream_id(advance_model(cursor, batch)) is Some,
        pair_le(parse_stream_id(cursor)->0, parse_stream_id(advance_model(cursor, batch))->0),
{
    if batch.len() > 0 {
        lemma_max_id_bounds(batch);
        lemma_stream_id_max_bounds(cursor, max_id_of(batch));
    }
}


/// A client that connects without a session id and then closes that same
/// stream is gone, and the rest of the registry is as it was, whether or not
/// the stale-disconnect guard is on.
pub proof fn law_connect_then_disconnect_by_owner(
    m0: Map<Seq<char>, ClientEntry>,
    m1: Map<Seq<char>, ClientEntry>,
    m2: Map<Seq<char>, ClientEntry>,
    k: Seq<char>,
    shard: Shard,
    token: StreamToken,
    channel: u64,
    guard: bool,
    outcome: DisconnectOutcome,
)
    requires
        connected(m0, m1, k, shard, None, token, channel),
        disconnected(m1, m2, k, None, token, guard, outcome),
    ensures
        outcome == DisconnectOutcome::Removed,
        m2 == m0.remove(k),
{
    assert(m2 =~= m0.remove(k));
}

/// When a client reconnects without a session id before the close of its
/// earlier stream arrives, that late close leaves the new stream in place
/// if the guard is on, and takes the client away if it is off.
pub proof fn law_stale_disconnect_after_reconnect(
    m0: Map<Seq<char>, ClientEntry>,
    m1: Map<Seq<char>, ClientEntry>,
    m2: Map<Seq<char>, ClientEntry>,
    m3: Map<Seq<char>, ClientEntry>,
    k: Seq<char>,
    shard: Shard,
    earlier: StreamToken,
    later: StreamToken,
    channel1: u64,
    channel2: u64,
    guard: bool,
    outcome: DisconnectOutcome,
)
    requires
        earlier != later,
        connected(m0, m1, k, shard, None, earlier, channel1),
        connected(m1, m2, k, shard, None, later, channel2),
        disconnected(m2, m3, k, None, earlier, guard, outcome),
    ensures
        guard ==> outcome == DisconnectOutcome::StaleIgnored && m3 == m2 && (m3[k].sessions matches SessionMap::Single(
            owner,
            _,
        ) && owner == later),
        !guard ==> outcome == DisconnectOutcome::StaleEvicted && m3 == m0.remove(k),
{
    if !guard {
        assert(m3 =~= m0.remove(k));
    }
}

/// A named session of a client that had no session yet, closed again, leaves
/// the registry as it was.
pub proof fn law_named_session_connect_then_disconnect(
    m0: Map<Seq<char>, ClientEntry>,
    m1: Map<Seq<char>, ClientEntry>,
    m2: Map<Seq<char>, ClientEntry>,
    k: Seq<char>,
    shard: Shard,
    session: Seq<char>,
    token1: StreamToken,
    token2: StreamToken,
    channel: u64,
    guard: bool,
    outcome: DisconnectOutcome,
)
    requires
        !m0.contains_key(k),
        connected(m0, m1, k, shard, Some(session), token1, channel),
        disconnected(m1, m2, k, Some(session), token2, guard, outcome),
    ensures
        outcome == DisconnectOutcome::SessionClosed,
        m2 == m0,
{
    let v = m1[k].sessions->Multi_0@;
    assert(v[0].0@ == session);
    assert(has_key(v, session));
    let p = session_index(v, session);
    assert(remove_session(v, session).len() == 0);
    assert(m2 =~= m0);
}

/// Every registered client has at least one session.
pub open spec fn every_client_has_a_session(m: Map<Seq<char>, ClientEntry>) -> bool {
    forall|k: Seq<char>| #[trigger] m.contains_key(k) ==> slots_of(m[k].sessions).len() > 0
}

/// A registration keeps every client with a session and on a shard below
/// `max_shards`, when the new stream's shard is below it.
pub proof fn law_registration_keeps_clients_whole(
    old: Map<Seq<char>, ClientEntry>,
    new: Map<Seq<char>, ClientEntry>,
    k: Seq<char>,
    shard: Shard,
    sid: Option<Seq<char>>,
    token: StreamToken,
    channel: u64,
    max_shards: u64,
)
    requires
        connected(old, new, k, shard, sid, token, channel),
        every_client_has_a_session(old),
        shards_within(old, max_shards),
        shard.0 < max_shards,
    ensures
        every_client_has_a_session(new),
        shards_within(new, max_shards),
{
    assert forall|j: Seq<char>| #[trigger] new.contains_key(j) implies slots_of(new[j].sessions).len() > 0 && new[j].shard.0
        < max_shards by {
        if j != k {
            assert(old.contains_key(j));
        } else if old.contains_key(k) {
            match (old[k].sessions, sid) {
                (SessionMap::Multi(ov), Some(s)) => {
                    if has_key(ov@, s) {
                    }
                },
                _ => {},
            }
        }
    }
}

/// A disconnection keeps every client that stays registered with a session
/// and on its shard.
pub proof fn law_disconnection_keeps_clients_whole(
    old: Map<Seq<char>, ClientEntry>,
    new: Map<Seq<char>, ClientEntry>,
    k: Seq<char>,
    sid: Option<Seq<char>>,
    token: StreamToken,
    guard: bool,
    outcome: DisconnectOutcome,
    max_shards: u64,
)
    requires
        disconnected(old, new, k, sid, token, guard, outcome),
        every_client_has_a_session(old),
        shards_within(old, max_shards),
    ensures
        every_client_has_a_session(new),
        shards_within(new, max_shards),
{
    assert forall|j: Seq<char>| #[trigger] new.contains_key(j) implies slots_of(new[j].sessions).len() > 0 && new[j].shard.0
        < max_shards by {
        assert(old.contains_key(j));
        if j == k {
            match old[k].sessions {
                SessionMap::Multi(ov) => {
                    let v = new[k].sessions->Multi_0;
                    assert(slots_of(new[k].sessions).len() == v@.len());
                },
                _ => {},
            }
        }
    }
}

} // verus!
