//! What the reader's loops ask of the registry: which clients the retry loop
//! visits, where a pub/sub message goes, which cursors a sweep reads from, and
//! what a connection or a disconnection does.

use vstd::prelude::*;
use crate::active::pending_data;
use crate::dispatch::{has_sessions, primary_of};
use crate::redis_types::NotificationData;
use crate::registry::{
    connected, disconnected, handle_client_disconnection_or_failure, opt_view, register_session, slot_event,
    slots_of, ClientEntry, DisconnectOutcome, ReaderMap, SessionMap, SlotEvent,
};
use crate::types::{ClientId, DeliveryMode, DeliveryPolicy, SessionID, Shard, StreamEntry, StreamToken};

verus! {

/// The channels of a client's sessions, primary first.
pub open spec fn channels_of(s: SessionMap) -> Seq<u64> {
    Seq::new(slots_of(s).len(), |q: int| slots_of(s)[q].channel)
}

/// The notifications the retry loop goes over for a client: those pending in
/// its primary session, in walk order; none for a client that is gone.
pub fn pending_redelivery_of(clients_tx: &ReaderMap, client_id: &ClientId) -> (ns: Vec<NotificationData>)
    requires
        clients_tx.wf(),
    ensures
        has_sessions(clients_tx@, client_id@) ==> ns@ == pending_data(primary_of(clients_tx@, client_id@).pending_entries()),
        !has_sessions(clients_tx@, client_id@) ==> ns@.len() == 0,
{
    match clients_tx.position(client_id) {
        Some(i) => {
            if clients_tx.slot_count(i) == 0 {
                Vec::new()
            } else {
                clients_tx.primary_ref(i).pending_redelivery()
            }
        },
        None => Vec::new(),
    }
}

/// The channels of the sessions of the client at position `i`.
fn channels_at(clients_tx: &ReaderMap, i: usize) -> (r: Vec<u64>)
    requires
        i < clients_tx.entries().len(),
    ensures
        r@ == channels_of(clients_tx.entries()[i as int].1.sessions),
{
    let e = clients_tx.entry(i);
    let mut r: Vec<u64> = Vec::new();
    match &e.1.sessions {
        SessionMap::Single(_, slot) => {
            r.push(slot.channel);
            proof {
                assert(r@ =~= channels_of(e.1.sessions));
            }
        },
        SessionMap::Multi(v) => {
            let mut j: usize = 0;
            while j < v.len()
                invariant
                    j <= v@.len(),
                    r@.len() == j,
                    forall|q: int| 0 <= q < j ==> #[trigger] r@[q] == v@[q].1.channel,
                decreases v.len() - j,
            {
                r.push(v[j].1.channel);
                j = j + 1;
            }
            proof {
                assert forall|q: int| 0 <= q < r@.len() implies r@[q] == channels_of(e.1.sessions)[q] by {
                    assert(slots_of(e.1.sessions)[q] == v@[q].1);
                }
                assert(r@ =~= channels_of(e.1.sessions));
            }
        },
    }
    r
}

/// Where a pub/sub message about a client's stream goes.
#[derive(Debug, PartialEq, Eq)]
pub enum PubsubRoute {
    /// The client is not connected to this reader.
    Foreign,
    /// The client is registered without a session.
    NoSession,
    /// To every session of the client, on its shard.
    Local { shard: Shard, channels: Vec<u64> },
}

/// Where a pub/sub message about client `client_id` goes: nowhere for a
/// client registered elsewhere or without a session, else to every session
/// of the client.
pub fn pubsub_route(clients_tx: &ReaderMap, client_id: &ClientId) -> (r: PubsubRoute)
    requires
        clients_tx.wf(),
    ensures
        !clients_tx@.contains_key(client_id@) ==> r == PubsubRoute::Foreign,
        clients_tx@.contains_key(client_id@) && !has_sessions(clients_tx@, client_id@) ==> r == PubsubRoute::NoSession,
        has_sessions(clients_tx@, client_id@) ==> (r matches PubsubRoute::Local { shard, channels } && shard
            == clients_tx@[client_id@].shard && channels@ == channels_of(clients_tx@[client_id@].sessions)),
{
    match clients_tx.position(client_id) {
        None => PubsubRoute::Foreign,
        Some(i) => {
            let channels = channels_at(clients_tx, i);
            if channels.len() == 0 {
                PubsubRoute::NoSession
            } else {
                PubsubRoute::Local { shard: clients_tx.entry(i).1.shard, channels }
            }
        },
    }
}

/// A client the retry loop visits: its shard and the channels of its
/// sessions, primary first.
#[derive(Debug, PartialEq, Eq)]
pub struct RetryWork {
    pub client_id: ClientId,
    pub shard: Shard,
    pub channels: Vec<u64>,
}

/// The clients with at least one session, in walk order, each with its shard
/// and the channels of its sessions.
pub open spec fn retry_plan(s: Seq<(ClientId, ClientEntry)>) -> Seq<(Seq<char>, Shard, Seq<u64>)>
    decreases s.len(),
{
    if s.len() == 0 {
        Seq::empty()
    } else {
        let r = retry_plan(s.drop_last());
        if slots_of(s.last().1.sessions).len() > 0 {
            r.push((s.last().0@, s.last().1.shard, channels_of(s.last().1.sessions)))
        } else {
            r
        }
    }
}

pub open spec fn work_view(w: Seq<RetryWork>) -> Seq<(Seq<char>, Shard, Seq<u64>)> {
    Seq::new(w.len(), |i: int| (w[i].client_id@, w[i].shard, w[i].channels@))
}

/// The clients the retry loop visits, in walk order.
pub fn retry_targets(clients_tx: &ReaderMap) -> (work: Vec<RetryWork>)
    requires
        clients_tx.wf(),
    ensures
        work_view(work@) == retry_plan(clients_tx.entries()),
{
    let mut work: Vec<RetryWork> = Vec::new();
    let mut i: usize = 0;
    let ghost es = clients_tx.entries();
    while i < clients_tx.len()
        invariant
            es == clients_tx.entries(),
            i <= es.len(),
            work_view(work@) == retry_plan(es.take(i as int)),
        decreases es.len() - i,
    {
        let ghost t = es.take(i + 1);
        assert(t.drop_last() == es.take(i as int));
        assert(t.last() == es[i as int]);
        let channels = channels_at(clients_tx, i);
        if channels.len() > 0 {
            let ghost before = work@;
            let e = clients_tx.entry(i);
            work.push(RetryWork { client_id: e.0.clone(), shard: e.1.shard, channels });
            proof {
                assert(work_view(before).len() == before.len());
                assert forall|j: int| 0 <= j < work@.len() implies work_view(work@)[j] == retry_plan(t)[j] by {
                    if j < before.len() {
                        assert(work_view(work@)[j] == work_view(before)[j]);
                    }
                }
                assert(work_view(work@) =~= retry_plan(t));
            }
        }
        i = i + 1;
    }
    assert(es.take(es.len() as int) == es);
    work
}

/// The clients on `shard`, in walk order, each with its cursor.
pub open spec fn shard_cursors(s: Seq<(ClientId, ClientEntry)>, shard: u64) -> Seq<(Seq<char>, Seq<char>)>
    decreases s.len(),
{
    if s.len() == 0 {
        Seq::empty()
    } else {
        let r = shard_cursors(s.drop_last(), shard);
        if s.last().1.shard.0 == shard {
            r.push((s.last().0@, s.last().1.last_read_id@))
        } else {
            r
        }
    }
}

pub open spec fn cursors_view(v: Seq<(ClientId, StreamEntry)>) -> Seq<(Seq<char>, Seq<char>)> {
    Seq::new(v.len(), |i: int| (v[i].0@, v[i].1@))
}

/// Every registered client is on a shard below `max_shards`.
pub open spec fn shards_within(m: Map<Seq<char>, ClientEntry>, max_shards: u64) -> bool {
    forall|k: Seq<char>| #[trigger] m.contains_key(k) ==> m[k].shard.0 < max_shards
}

/// What a sweep reads from: for each shard, the clients on it with their
/// cursors, in walk order.
pub fn cursors_by_shard(clients_tx: &ReaderMap, max_shards: u64) -> (by_shard: Vec<Vec<(ClientId, StreamEntry)>>)
    requires
        clients_tx.wf(),
        max_shards <= usize::MAX,
        shards_within(clients_tx@, max_shards),
    ensures
        by_shard@.len() == max_shards,
        forall|s: int| 0 <= s < max_shards ==> cursors_view((#[trigger] by_shard@[s])@) == shard_cursors(clients_tx.entries(), s as u64),
{
    let n = max_shards as usize;
    let mut by_shard: Vec<Vec<(ClientId, StreamEntry)>> = Vec::new();
    let mut k: usize = 0;
    while k < n
        invariant
            k <= n,
            n == max_shards,
            by_shard@.len() == k,
            forall|s: int| 0 <= s < k ==> (#[trigger] by_shard@[s])@.len() == 0,
        decreases n - k,
    {
        by_shard.push(Vec::new());
        k = k + 1;
    }
    let ghost es = clients_tx.entries();
    let mut i: usize = 0;
    proof {
        assert forall|s: int| 0 <= s < max_shards implies cursors_view((#[trigger] by_shard@[s])@) == shard_cursors(es.take(0), s as u64) by {
            assert(cursors_view(by_shard@[s]@) =~= Seq::<(Seq<char>, Seq<char>)>::empty());
        }
    }
    while i < clients_tx.len()
        invariant
            es == clients_tx.entries(),
            clients_tx.wf(),
            shards_within(clients_tx@, max_shards),
            max_shards <= usize::MAX,
            i <= es.len(),
            by_shard@.len() == max_shards,
            forall|s: int| 0 <= s < max_shards ==> cursors_view((#[trigger] by_shard@[s])@) == shard_cursors(es.take(i as int), s as u64),
        decreases es.len() - i,
    {
        let ghost t = es.take(i + 1);
        assert(t.drop_last() == es.take(i as int));
        assert(t.last() == es[i as int]);
        let e = clients_tx.entry(i);
        proof {
            clients_tx.lemma_entry(i as int);
        }
        assert(es[i as int].1.shard.0 < max_shards);
        assert(e.1.shard.0 < max_shards);
        let idx = e.1.shard.0 as usize;
        assert(idx == e.1.shard.0);
        let ghost before = by_shard@;
        let item = (e.0.clone(), e.1.last_read_id.clone());
        by_shard[idx].push(item);
        proof {
            assert forall|s: int| 0 <= s < max_shards implies cursors_view((#[trigger] by_shard@[s])@) == shard_cursors(t, s as u64) by {
                if s == idx {
                    let old_v = before[s]@;
                    assert(by_shard@[s]@ == old_v.push(item));
                    assert(es[i as int].1.shard.0 == s as u64);
                    assert(shard_cursors(t, s as u64) == shard_cursors(es.take(i as int), s as u64).push(
                        (es[i as int].0@, es[i as int].1.last_read_id@),
                    ));
                    assert(cursors_view(old_v) == shard_cursors(es.take(i as int), s as u64));
                    assert(cursors_view(old_v).len() == old_v.len());
                    assert forall|j: int| 0 <= j < by_shard@[s]@.len() implies cursors_view(by_shard@[s]@)[j] == shard_cursors(t, s as u64)[j] by {
                        if j < old_v.len() {
                            assert(cursors_view(by_shard@[s]@)[j] == cursors_view(old_v)[j]);
                        }
                    }
                    assert(cursors_view(by_shard@[s]@) =~= shard_cursors(t, s as u64));
                } else {
                    assert(by_shard@[s] == before[s]);
                }
            }
        }
        i = i + 1;
    }
    assert(es.take(es.len() as int) == es);
    by_shard
}

/// A request to the reader about a client's stream; the channel stands for
/// the sender that the stream's notifications go out on.
pub enum SenderType {
    ClientConnection(Option<SessionID>, StreamToken, u64),
    ClientDisconnection(Option<SessionID>, StreamToken),
}

impl SenderType {
    /// The variant's name, as it is displayed.
    pub fn name(&self) -> (s: &'static str)
        ensures
            s@ == (match self {
                SenderType::ClientConnection(_, _, _) => "ClientConnection"@,
                SenderType::ClientDisconnection(_, _) => "ClientDisconnection"@,
            }),
    {
        match self {
            SenderType::ClientConnection(_, _, _) => "ClientConnection",
            SenderType::ClientDisconnection(_, _) => "ClientDisconnection",
        }
    }
}

/// The reader's settings that a request is handled under.
#[derive(Debug, Clone, Copy, PartialEq, Eq, Structural)]
pub struct ReceiverOptions {
    pub max_shards: u64,
    pub delivery_mode: DeliveryMode,
    pub stale_disconnect_guard: bool,
    pub policy: DeliveryPolicy,
}

/// What handling a request did, and whether the new session is to be
/// caught up at once with what its stream holds.
#[derive(Debug, Clone, Copy, PartialEq, Eq, Structural)]
pub enum ReceiverAction {
    Connected { event: SlotEvent, catchup: bool },
    Disconnected(DisconnectOutcome),
}

/// Handles a connection or a disconnection of a client's stream. A client
/// that connects is placed on `shard`, the shard its id hashes to.
pub fn client_reciever(
    clients_tx: &mut ReaderMap,
    client_id: &ClientId,
    client_req: SenderType,
    shard: Shard,
    options: ReceiverOptions,
) -> (action: ReceiverAction)
    requires
        old(clients_tx).wf(),
        shard.0 < options.max_shards,
    ensures
        final(clients_tx).wf(),
        match client_req {
            SenderType::ClientConnection(session_id, token, channel) => {
                &&& connected(old(clients_tx)@, final(clients_tx)@, client_id@, shard, opt_view(session_id), token, channel)
                &&& action == ReceiverAction::Connected {
                    event: slot_event(
                        if old(clients_tx)@.contains_key(client_id@) {
                            Some(old(clients_tx)@[client_id@].sessions)
                        } else {
                            None
                        },
                        opt_view(session_id),
                    ),
                    catchup: options.delivery_mode == DeliveryMode::Pubsub,
                }
            },
            SenderType::ClientDisconnection(session_id, token) => action matches ReceiverAction::Disconnected(o)
                && disconnected(
                old(clients_tx)@,
                final(clients_tx)@,
                client_id@,
                opt_view(session_id),
                token,
                options.stale_disconnect_guard,
                o,
            ),
        },
{
    match client_req {
        SenderType::ClientConnection(session_id, stream_token, channel) => {
            let event = register_session(clients_tx, client_id, shard, session_id, stream_token, channel);
            ReceiverAction::Connected { event, catchup: options.delivery_mode.needs_connect_catchup() }
        },
        SenderType::ClientDisconnection(session_id, stream_token) => {
            let outcome = handle_client_disconnection_or_failure(
                clients_tx,
                client_id,
                &session_id,
                stream_token,
                options.stale_disconnect_guard,
            );
            ReceiverAction::Disconnected(outcome)
        },
    }
}

} // verus!
