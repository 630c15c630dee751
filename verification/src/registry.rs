//! The reader's registry of connected clients: for each client its shard, the
//! stream id up to which its stream has been read, and its open sessions, each
//! with what it still owes its client.

use vstd::prelude::*;
use crate::active::ActiveNotification;
use crate::assoc::{find_index, has_key, keys_distinct, lemma_to_map_at, lemma_to_map_update, to_map};
use crate::redis_types::NotificationData;
use crate::stream_id::{is_stream_id_less_or_eq, lemma_stream_id_max_bounds, max_stream_id, pair_le, parse_stream_id, stream_id_le, stream_id_max};
use crate::types::{ClientId, DeliveryGuarantee, DeliveryPolicy, SessionID, Shard, StreamEntry, StreamToken};

verus! {

/// One open session: the channel its notifications go out on, and what it
/// still owes its client.
pub struct SessionSlot {
    pub channel: u64,
    pub active: ActiveNotification,
}

/// The sessions of a client: one stream without a session id, owned by the
/// token of the stream that opened it, or any number of named sessions.
pub enum SessionMap {
    Single(StreamToken, SessionSlot),
    Multi(Vec<(SessionID, SessionSlot)>),
}

pub struct ClientEntry {
    pub shard: Shard,
    /// The stream id up to which the client's stream has been read.
    pub last_read_id: StreamEntry,
    pub sessions: SessionMap,
}

/// The slots of the sessions, in order; the first is the primary one.
pub open spec fn slots_of(s: SessionMap) -> Seq<SessionSlot> {
    match s {
        SessionMap::Single(_, slot) => seq![slot],
        SessionMap::Multi(v) => v@.map_values(|p: (SessionID, SessionSlot)| p.1),
    }
}

pub open spec fn sessions_wf(s: SessionMap) -> bool {
    &&& (s matches SessionMap::Multi(v) ==> keys_distinct(v@))
    &&& forall|i: int| 0 <= i < slots_of(s).len() ==> (#[trigger] slots_of(s)[i]).active.wf()
}

/// The cursor of a client; a client that is not registered reads from the
/// start of its stream.
pub open spec fn cursor_of(m: Map<Seq<char>, ClientEntry>, k: Seq<char>) -> Seq<char> {
    if m.contains_key(k) {
        m[k].last_read_id@
    } else {
        "0-0"@
    }
}

/// `new` is `old` with the cursor of `k` set to `c`, all else kept.
pub open spec fn cursor_moved(
    old: Map<Seq<char>, ClientEntry>,
    new: Map<Seq<char>, ClientEntry>,
    k: Seq<char>,
    c: Seq<char>,
) -> bool {
    &&& new.dom() == old.dom()
    &&& forall|j: Seq<char>| #[trigger] old.contains_key(j) && j != k ==> new[j] == old[j]
    &&& old.contains_key(k) ==> {
        &&& new[k].shard == old[k].shard
        &&& new[k].sessions == old[k].sessions
        &&& new[k].last_read_id@ == c
    }
}

/// The latest stream id of a batch, folded from the left with
/// `stream_id_max`; empty for an empty batch.
pub open spec fn max_id_of(ns: Seq<NotificationData>) -> Seq<char>
    decreases ns.len(),
{
    if ns.len() == 0 {
        Seq::empty()
    } else if ns.len() == 1 {
        ns[0].stream_id@
    } else {
        stream_id_max(max_id_of(ns.drop_last()), ns.last().stream_id@)
    }
}

/// The notifications of a batch whose stream id is not at or before `cursor`,
/// in order.
pub open spec fn unread_after(ns: Seq<NotificationData>, cursor: Seq<char>) -> Seq<NotificationData>
    decreases ns.len(),
{
    if ns.len() == 0 {
        Seq::empty()
    } else {
        let r = unread_after(ns.drop_last(), cursor);
        if stream_id_le(ns.last().stream_id@, cursor) {
            r
        } else {
            r.push(ns.last())
        }
    }
}

/// What an at-most-once read claims of `ns` from `cursor`, and the cursor
/// after it.
pub open spec fn claim_model(cursor: Seq<char>, ns: Seq<NotificationData>) -> (Seq<NotificationData>, Seq<char>) {
    let claimed = unread_after(ns, cursor);
    (claimed, if claimed.len() > 0 { max_id_of(claimed) } else { cursor })
}

/// The cursor after an at-least-once read of `ns` from `cursor`.
pub open spec fn advance_model(cursor: Seq<char>, ns: Seq<NotificationData>) -> Seq<char> {
    if ns.len() > 0 {
        stream_id_max(cursor, max_id_of(ns))
    } else {
        cursor
    }
}

/// Every id of the batch parses, and no two spell one entry differently.
pub open spec fn ids_parse_uniquely(ns: Seq<NotificationData>) -> bool {
    &&& forall|i: int| 0 <= i < ns.len() ==> (parse_stream_id(#[trigger] ns[i].stream_id@) is Some)
    &&& forall|i: int, j: int|
        0 <= i < ns.len() && 0 <= j < ns.len() && parse_stream_id(#[trigger] ns[i].stream_id@)
            == parse_stream_id(#[trigger] ns[j].stream_id@) ==> ns[i].stream_id@ == ns[j].stream_id@
}

/// What a read claims comes from the batch and lies after the cursor.
pub proof fn lemma_unread_after(ns: Seq<NotificationData>, cursor: Seq<char>)
    ensures
        unread_after(ns, cursor).len() <= ns.len(),
        forall|j: int| 0 <= j < unread_after(ns, cursor).len() ==> {
            &&& ns.contains(#[trigger] unread_after(ns, cursor)[j])
            &&& !stream_id_le(unread_after(ns, cursor)[j].stream_id@, cursor)
        },
    decreases ns.len(),
{
    if ns.len() > 0 {
        let d = ns.drop_last();
        lemma_unread_after(d, cursor);
        let r = unread_after(d, cursor);
        assert forall|j: int| 0 <= j < r.len() implies ns.contains(#[trigger] r[j]) by {
            let k = choose|k: int| 0 <= k < d.len() && d[k] == r[j];
            assert(ns[k] == d[k]);
        }
        assert(ns[ns.len() - 1] == ns.last());
    }
}

/// The latest id of a batch whose ids all parse is one of them, and no id
/// of the batch is after it.
pub proof fn lemma_max_id_bounds(ns: Seq<NotificationData>)
    requires
        ns.len() > 0,
        forall|i: int| 0 <= i < ns.len() ==> (parse_stream_id(#[trigger] ns[i].stream_id@) is Some),
    ensures
        parse_stream_id(max_id_of(ns)) is Some,
        exists|k: int| 0 <= k < ns.len() && max_id_of(ns) == #[trigger] ns[k].stream_id@,
        forall|i: int| 0 <= i < ns.len() ==> pair_le(
            parse_stream_id(#[trigger] ns[i].stream_id@)->0,
            parse_stream_id(max_id_of(ns))->0,
        ),
    decreases ns.len(),
{
    if ns.len() == 1 {
        assert(ns[0].stream_id@ == max_id_of(ns));
    } else {
        let d = ns.drop_last();
        assert forall|i: int| 0 <= i < d.len() implies (parse_stream_id(#[trigger] d[i].stream_id@) is Some) by {
            assert(d[i] == ns[i]);
        }
        lemma_max_id_bounds(d);
        let last = ns.last().stream_id@;
        assert(parse_stream_id(ns[ns.len() - 1].stream_id@) is Some);
        lemma_stream_id_max_bounds(max_id_of(d), last);
        let k = choose|k: int| 0 <= k < d.len() && max_id_of(d) == #[trigger] d[k].stream_id@;
        assert(d[k] == ns[k]);
        if max_id_of(ns) == last {
            assert(max_id_of(ns) == ns[ns.len() - 1].stream_id@);
        } else {
            assert(max_id_of(ns) == ns[k].stream_id@);
        }
        assert forall|i: int| 0 <= i < ns.len() implies pair_le(
            parse_stream_id(#[trigger] ns[i].stream_id@)->0,
            parse_stream_id(max_id_of(ns))->0,
        ) by {
            if i < d.len() {
                assert(d[i] == ns[i]);
                assert(pair_le(parse_stream_id(d[i].stream_id@)->0, parse_stream_id(max_id_of(d))->0));
            }
        }
    }
}

/// A slot just opened on `channel`: it owes nothing yet.
pub open spec fn fresh_slot(slot: SessionSlot, channel: u64) -> bool {
    &&& slot.channel == channel
    &&& slot.active.wf()
    &&& slot.active.pending_map() == Map::<Seq<char>, crate::active::NotificationMeta>::empty()
    &&& slot.active.awaiting_map() == Map::<Seq<char>, crate::active::AwaitingAck>::empty()
}

pub open spec fn opt_view(s: Option<SessionID>) -> Option<Seq<char>> {
    match s {
        Some(s) => Some(s@),
        None => None,
    }
}

/// The position of session `s` in a session list that holds it.
pub open spec fn session_index(v: Seq<(SessionID, SessionSlot)>, s: Seq<char>) -> int {
    choose|i: int| 0 <= i < v.len() && #[trigger] v[i].0@ == s
}

/// The session list without session `s`.
pub open spec fn remove_session(v: Seq<(SessionID, SessionSlot)>, s: Seq<char>) -> Seq<(SessionID, SessionSlot)> {
    if has_key(v, s) {
        v.remove(session_index(v, s))
    } else {
        v
    }
}

/// What a registration reports about the client's sessions.
#[derive(Debug, Clone, Copy, PartialEq, Eq, Structural)]
pub enum SlotEvent {
    /// The client was not registered.
    Inserted,
    /// A stream without a session id took over from another one.
    Replaced,
    /// A named session was added to the client's sessions, or replaced one
    /// of the same name.
    SessionAdded,
    /// A stream without a session id took over from named sessions.
    BecameSingle,
    /// A named session took over from a stream without a session id.
    BecameMulti,
}

pub open spec fn slot_event(old: Option<SessionMap>, sid: Option<Seq<char>>) -> SlotEvent {
    match (old, sid) {
        (None, _) => SlotEvent::Inserted,
        (Some(SessionMap::Multi(_)), Some(_)) => SlotEvent::SessionAdded,
        (Some(SessionMap::Multi(_)), None) => SlotEvent::BecameSingle,
        (Some(SessionMap::Single(_, _)), Some(_)) => SlotEvent::BecameMulti,
        (Some(SessionMap::Single(_, _)), None) => SlotEvent::Replaced,
    }
}

/// The sessions after a registration: a stream without a session id owns
/// the client alone; a named session joins the named sessions there are, or
/// replaces the one of its name, or starts a list of its own.
pub open spec fn sessions_after_connect(
    old: Option<SessionMap>,
    sid: Option<Seq<char>>,
    token: StreamToken,
    channel: u64,
    new: SessionMap,
) -> bool {
    match sid {
        None => new matches SessionMap::Single(t, slot) && t == token && fresh_slot(slot, channel),
        Some(s) => match old {
            Some(SessionMap::Multi(ov)) => new matches SessionMap::Multi(v) && if has_key(ov@, s) {
                let p = session_index(ov@, s);
                &&& v@.len() == ov@.len()
                &&& v@[p].0@ == s
                &&& fresh_slot(v@[p].1, channel)
                &&& forall|q: int| 0 <= q < v@.len() && q != p ==> v@[q] == ov@[q]
            } else {
                &&& v@.len() == ov@.len() + 1
                &&& v@.drop_last() == ov@
                &&& v@.last().0@ == s
                &&& fresh_slot(v@.last().1, channel)
            },
            _ => new matches SessionMap::Multi(v) && v@.len() == 1 && v@[0].0@ == s && fresh_slot(v@[0].1, channel),
        },
    }
}

/// `new` is `old` after the registration of a stream of client `k`.
pub open spec fn connected(
    old: Map<Seq<char>, ClientEntry>,
    new: Map<Seq<char>, ClientEntry>,
    k: Seq<char>,
    shard: Shard,
    sid: Option<Seq<char>>,
    token: StreamToken,
    channel: u64,
) -> bool {
    &&& new.dom() == old.dom().insert(k)
    &&& forall|j: Seq<char>| #[trigger] old.contains_key(j) && j != k ==> new[j] == old[j]
    &&& if old.contains_key(k) {
        &&& new[k].shard == old[k].shard
        &&& new[k].last_read_id == old[k].last_read_id
        &&& sessions_after_connect(Some(old[k].sessions), sid, token, channel, new[k].sessions)
    } else {
        &&& new[k].shard == shard
        &&& new[k].last_read_id@ == "0-0"@
        &&& sessions_after_connect(None, sid, token, channel, new[k].sessions)
    }
}

/// What a disconnection did.
#[derive(Debug, Clone, Copy, PartialEq, Eq, Structural)]
pub enum DisconnectOutcome {
    /// The stream that owns the client closed; the client is gone.
    Removed,
    /// A stream that no longer owns the client closed, and was ignored.
    StaleIgnored,
    /// A stream that no longer owns the client closed, and the client went
    /// with it.
    StaleEvicted,
    /// A named session closed; the client went with its last session.
    SessionClosed,
    /// A stream without a session id closed on a client with named sessions.
    SessionIdMissing,
    /// The client was not registered.
    NotFound,
}

/// `new` is `old` after a stream of client `k` closed.
pub open spec fn disconnected(
    old: Map<Seq<char>, ClientEntry>,
    new: Map<Seq<char>, ClientEntry>,
    k: Seq<char>,
    sid: Option<Seq<char>>,
    token: StreamToken,
    guard: bool,
    outcome: DisconnectOutcome,
) -> bool {
    if !old.contains_key(k) {
        outcome == DisconnectOutcome::NotFound && new == old
    } else {
        match old[k].sessions {
            SessionMap::Single(owner, _) => if owner == token {
                outcome == DisconnectOutcome::Removed && new == old.remove(k)
            } else if guard {
                outcome == DisconnectOutcome::StaleIgnored && new == old
            } else {
                outcome == DisconnectOutcome::StaleEvicted && new == old.remove(k)
            },
            SessionMap::Multi(ov) => {
                let rest = match sid {
                    Some(s) => remove_session(ov@, s),
                    None => ov@,
                };
                &&& outcome == (if sid is Some {
                    DisconnectOutcome::SessionClosed
                } else {
                    DisconnectOutcome::SessionIdMissing
                })
                &&& if rest.len() == 0 {
                    new == old.remove(k)
                } else {
                    &&& new.dom() == old.dom()
                    &&& forall|j: Seq<char>| #[trigger] old.contains_key(j) && j != k ==> new[j] == old[j]
                    &&& new[k].shard == old[k].shard
                    &&& new[k].last_read_id == old[k].last_read_id
                    &&& new[k].sessions matches SessionMap::Multi(v) && v@ == rest
                }
            },
        }
    }
}

/// The connected clients by id.
pub struct ReaderMap {
    entries: Vec<(ClientId, ClientEntry)>,
}

impl View for ReaderMap {
    type V = Map<Seq<char>, ClientEntry>;

    open spec fn view(&self) -> Map<Seq<char>, ClientEntry> {
        to_map(self.entries())
    }
}

impl ReaderMap {
    /// The clients in the order in which they are walked.
    pub closed spec fn entries(&self) -> Seq<(ClientId, ClientEntry)> {
        self.entries@
    }

    /// Client ids are distinct and every session list is well formed.
    pub open spec fn wf(&self) -> bool {
        &&& keys_distinct(self.entries())
        &&& forall|i: int| 0 <= i < self.entries().len() ==> sessions_wf(#[trigger] self.entries()[i].1.sessions)
    }

    /// A registry with no client.
    pub fn new() -> (m: Self)
        ensures
            m.wf(),
            m@ == Map::<Seq<char>, ClientEntry>::empty(),
    {
        let m = ReaderMap { entries: Vec::new() };
        proof {
            crate::assoc::lemma_to_map_empty(m.entries@);
        }
        m
    }

    /// The entry of a client in the walk order.
    pub proof fn lemma_entry(&self, i: int)
        requires
            self.wf(),
            0 <= i < self.entries().len(),
        ensures
            self@.contains_key(self.entries()[i].0@),
            self@[self.entries()[i].0@] == self.entries()[i].1,
            sessions_wf(self.entries()[i].1.sessions),
    {
        lemma_to_map_at(self.entries(), i);
    }

    pub(crate) fn position(&self, client_id: &ClientId) -> (r: Option<usize>)
        requires
            self.wf(),
        ensures
            r is None <==> !self@.contains_key(client_id@),
            r matches Some(i) ==> i < self.entries().len() && self.entries()[i as int].0@ == client_id@
                && self@[client_id@] == self.entries()[i as int].1,
    {
        let r = find_index(&self.entries, client_id);
        proof {
            if let Some(i) = r {
                lemma_to_map_at(self.entries@, i as int);
            }
        }
        r
    }

    /// The number of registered clients.
    pub fn len(&self) -> (n: usize)
        ensures
            n == self.entries().len(),
    {
        self.entries.len()
    }

    /// The client at position `i` of the walk order.
    pub(crate) fn entry(&self, i: usize) -> (e: &(ClientId, ClientEntry))
        requires
            i < self.entries().len(),
        ensures
            *e == self.entries()[i as int],
    {
        &self.entries[i]
    }

    /// The number of sessions of the client at position `i`.
    pub(crate) fn slot_count(&self, i: usize) -> (n: usize)
        requires
            i < self.entries().len(),
        ensures
            n == slots_of(self.entries()[i as int].1.sessions).len(),
    {
        match &self.entries[i].1.sessions {
            SessionMap::Single(_, _) => 1,
            SessionMap::Multi(v) => v.len(),
        }
    }

    /// What the primary session of the client at position `i` owes.
    pub(crate) fn primary_ref(&self, i: usize) -> (a: &ActiveNotification)
        requires
            self.wf(),
            i < self.entries().len(),
            slots_of(self.entries()[i as int].1.sessions).len() > 0,
        ensures
            *a == slots_of(self.entries()[i as int].1.sessions)[0].active,
            a.wf(),
    {
        proof {
            self.lemma_entry(i as int);
        }
        match &self.entries[i].1.sessions {
            SessionMap::Single(_, slot) => &slot.active,
            SessionMap::Multi(v) => &v[0].1.active,
        }
    }

    /// Registers a client that is not registered yet.
    fn push_entry(&mut self, client_id: ClientId, entry: ClientEntry)
        requires
            old(self).wf(),
            !old(self)@.contains_key(client_id@),
            sessions_wf(entry.sessions),
        ensures
            final(self).wf(),
            final(self)@ == old(self)@.insert(client_id@, entry),
    {
        let ghost o = self.entries@;
        let pair = (client_id, entry);
        proof {
            crate::assoc::lemma_to_map_push(o, pair);
        }
        self.entries.push(pair);
        proof {
            let s = self.entries@;
            assert forall|j: int| 0 <= j < s.len() implies sessions_wf(#[trigger] s[j].1.sessions) by {
                if j < o.len() {
                    assert(s[j] == o[j]);
                }
            }
        }
    }

    /// Unregisters the client at position `i`.
    fn remove_entry(&mut self, i: usize)
        requires
            old(self).wf(),
            i < old(self).entries().len(),
        ensures
            final(self).wf(),
            final(self)@ == old(self)@.remove(old(self).entries()[i as int].0@),
    {
        let ghost o = self.entries@;
        proof {
            crate::assoc::lemma_to_map_remove(o, i as int);
        }
        self.entries.remove(i);
        proof {
            let s = self.entries@;
            assert(s == o.remove(i as int));
            assert forall|j: int| 0 <= j < s.len() implies sessions_wf(#[trigger] s[j].1.sessions) by {
                if j < i {
                    assert(s[j] == o[j]);
                } else {
                    assert(s[j] == o[j + 1]);
                }
            }
        }
    }

    /// Puts `sessions` in place of the sessions of the client at position
    /// `i`, and hands back those it had.
    pub(crate) fn replace_sessions(&mut self, i: usize, sessions: SessionMap) -> (prev: SessionMap)
        requires
            old(self).wf(),
            i < old(self).entries().len(),
            sessions_wf(sessions),
        ensures
            final(self).wf(),
            prev == old(self).entries()[i as int].1.sessions,
            final(self).entries() == old(self).entries().update(
                i as int,
                (old(self).entries()[i as int].0, ClientEntry { sessions: sessions, ..old(self).entries()[i as int].1 }),
            ),
            final(self)@ == old(self)@.insert(
                old(self).entries()[i as int].0@,
                ClientEntry { sessions: sessions, ..old(self).entries()[i as int].1 },
            ),
    {
        let ghost o = self.entries@;
        let mut s = sessions;
        std::mem::swap(&mut s, &mut self.entries[i].1.sessions);
        proof {
            let n = self.entries@;
            assert(n == o.update(i as int, n[i as int]));
            lemma_to_map_update(o, i as int, n[i as int]);
            assert forall|j: int| 0 <= j < n.len() implies sessions_wf(#[trigger] n[j].1.sessions) by {
                if j != i {
                    assert(n[j] == o[j]);
                }
            }
        }
        s
    }

    /// Sets the cursor of the client at position `i`.
    fn set_cursor(&mut self, i: usize, cursor: String)
        requires
            old(self).wf(),
            i < old(self).entries().len(),
        ensures
            final(self).wf(),
            cursor_moved(old(self)@, final(self)@, old(self).entries()[i as int].0@, cursor@),
            final(self).entries().len() == old(self).entries().len(),
    {
        let ghost k = self.entries@[i as int].0@;
        proof {
            lemma_to_map_at(self.entries@, i as int);
        }
        self.entries[i].1.last_read_id = StreamEntry(cursor);
        proof {
            let o = old(self).entries@;
            let s = self.entries@;
            assert(s == o.update(i as int, s[i as int]));
            lemma_to_map_update(o, i as int, s[i as int]);
            assert forall|j: int| 0 <= j < s.len() implies sessions_wf(#[trigger] s[j].1.sessions) by {
                assert(s[j].1.sessions == o[j].1.sessions);
            }
            assert(self@ == old(self)@.insert(k, s[i as int].1));
            assert(old(self)@.contains_key(k));
            assert(self@.dom() =~= old(self)@.dom());
            assert(s[i as int].1.shard == o[i as int].1.shard);
            assert(s[i as int].1.last_read_id@ == cursor@);
        }
    }
}

/// The latest stream id of a non-empty batch.
fn batch_max_id(ns: &Vec<NotificationData>) -> (m: String)
    requires
        ns@.len() > 0,
    ensures
        m@ == max_id_of(ns@),
{
    let mut m = ns[0].stream_id.inner();
    let mut i: usize = 1;
    assert(ns@.take(1).drop_last().len() == 0);
    while i < ns.len()
        invariant
            1 <= i <= ns@.len(),
            m@ == max_id_of(ns@.take(i as int)),
        decreases ns.len() - i,
    {
        let ghost t = ns@.take(i + 1);
        assert(t.drop_last() == ns@.take(i as int));
        assert(t.last() == ns@[i as int]);
        m = max_stream_id(m.as_str(), ns[i].stream_id.0.as_str());
        i = i + 1;
    }
    assert(ns@.take(ns@.len() as int) == ns@);
    m
}

/// The stream id from which the client's stream is to be read next.
pub fn read_cursor(clients_tx: &ReaderMap, client_id: &ClientId) -> (c: StreamEntry)
    requires
        clients_tx.wf(),
    ensures
        c@ == cursor_of(clients_tx@, client_id@),
{
    match clients_tx.position(client_id) {
        Some(i) => clients_tx.entries[i].1.last_read_id.clone(),
        None => StreamEntry::default(),
    }
}

/// Moves the client's cursor forward to the latest id of the batch; nothing
/// changes for an empty batch or a client that is not registered.
pub fn advance_cursor(clients_tx: &mut ReaderMap, client_id: &ClientId, notifs: &Vec<NotificationData>)
    requires
        old(clients_tx).wf(),
    ensures
        final(clients_tx).wf(),
        cursor_moved(
            old(clients_tx)@,
            final(clients_tx)@,
            client_id@,
            advance_model(cursor_of(old(clients_tx)@, client_id@), notifs@),
        ),
{
    if notifs.len() == 0 {
        return;
    }
    let max_in_batch = batch_max_id(notifs);
    match clients_tx.position(client_id) {
        Some(i) => {
            let advanced = max_stream_id(clients_tx.entries[i].1.last_read_id.0.as_str(), max_in_batch.as_str());
            clients_tx.set_cursor(i, advanced);
        },
        None => {},
    }
}

/// Hands out what a read of the client's stream brought. At most once: only
/// the entries after the client's cursor, which then moves to the latest of
/// them, so that two racing reads never hand out one entry twice; for a
/// client that is not registered, nothing. At least once: the whole batch,
/// with the cursor moved forward over it.
pub fn claim_read_batch(
    clients_tx: &mut ReaderMap,
    client_id: &ClientId,
    notifs: Vec<NotificationData>,
    policy: DeliveryPolicy,
) -> (claimed: Vec<NotificationData>)
    requires
        old(clients_tx).wf(),
    ensures
        final(clients_tx).wf(),
        policy.guarantee == DeliveryGuarantee::AtLeastOnce ==> {
            &&& claimed@ == notifs@
            &&& cursor_moved(
                old(clients_tx)@,
                final(clients_tx)@,
                client_id@,
                advance_model(cursor_of(old(clients_tx)@, client_id@), notifs@),
            )
        },
        policy.guarantee == DeliveryGuarantee::AtMostOnce && !old(clients_tx)@.contains_key(client_id@) ==> {
            &&& claimed@.len() == 0
            &&& final(clients_tx)@ == old(clients_tx)@
        },
        policy.guarantee == DeliveryGuarantee::AtMostOnce && old(clients_tx)@.contains_key(client_id@) ==> {
            let (c, cursor) = claim_model(cursor_of(old(clients_tx)@, client_id@), notifs@);
            &&& claimed@ == c
            &&& cursor_moved(old(clients_tx)@, final(clients_tx)@, client_id@, cursor)
        },
{
    if !policy.guarantee.removes_on_push() {
        advance_cursor(clients_tx, client_id, &notifs);
        return notifs;
    }
    let i = match clients_tx.position(client_id) {
        Some(i) => i,
        None => {
            return Vec::new();
        },
    };
    let cursor = clients_tx.entries[i].1.last_read_id.inner();
    let mut claimed: Vec<NotificationData> = Vec::new();
    let mut j: usize = 0;
    while j < notifs.len()
        invariant
            j <= notifs@.len(),
            claimed@ == unread_after(notifs@.take(j as int), cursor@),
        decreases notifs.len() - j,
    {
        let ghost t = notifs@.take(j + 1);
        assert(t.drop_last() == notifs@.take(j as int));
        assert(t.last() == notifs@[j as int]);
        if !is_stream_id_less_or_eq(notifs[j].stream_id.0.as_str(), cursor.as_str()) {
            claimed.push(notifs[j].clone());
        }
        j = j + 1;
    }
    assert(notifs@.take(notifs@.len() as int) == notifs@);
    if claimed.len() > 0 {
        let max_claimed = batch_max_id(&claimed);
        clients_tx.set_cursor(i, max_claimed);
    } else {
        proof {
            assert(clients_tx@[client_id@].last_read_id@ == cursor@);
            assert(forall|k: Seq<char>| #[trigger] clients_tx@.contains_key(k) ==> clients_tx@[k] == old(clients_tx)@[k]);
        }
    }
    claimed
}

/// Registers a new stream of a client, as the reader does when a client
/// connects. A stream without a session id owns the client alone; a named
/// session joins the client's named sessions, or replaces the one of its
/// name. A client seen for the first time is read from the start of its
/// stream and placed on `shard`.
pub fn register_session(
    clients_tx: &mut ReaderMap,
    client_id: &ClientId,
    shard: Shard,
    session_id: Option<SessionID>,
    stream_token: StreamToken,
    channel: u64,
) -> (event: SlotEvent)
    requires
        old(clients_tx).wf(),
    ensures
        final(clients_tx).wf(),
        connected(old(clients_tx)@, final(clients_tx)@, client_id@, shard, opt_view(session_id), stream_token, channel),
        event == slot_event(
            if old(clients_tx)@.contains_key(client_id@) {
                Some(old(clients_tx)@[client_id@].sessions)
            } else {
                None
            },
            opt_view(session_id),
        ),
{
    let slot = SessionSlot { channel, active: ActiveNotification::default() };
    match clients_tx.position(client_id) {
        None => {
            let sessions = match session_id {
                Some(s) => {
                    let mut v: Vec<(SessionID, SessionSlot)> = Vec::new();
                    v.push((s, slot));
                    proof {
                        assert(slots_of(SessionMap::Multi(v))[0] == v@[0].1);
                    }
                    SessionMap::Multi(v)
                },
                None => {
                    proof {
                        assert(slots_of(SessionMap::Single(stream_token, slot))[0] == slot);
                    }
                    SessionMap::Single(stream_token, slot)
                },
            };
            let entry = ClientEntry { shard, last_read_id: StreamEntry::default(), sessions };
            clients_tx.push_entry(client_id.clone(), entry);
            SlotEvent::Inserted
        },
        Some(i) => {
            proof {
                clients_tx.lemma_entry(i as int);
            }
            let prev = clients_tx.replace_sessions(i, SessionMap::Multi(Vec::new()));
            let ghost prev_sessions = prev;
            let (sessions, event) = match (prev, session_id) {
                (SessionMap::Multi(mut v), Some(s)) => {
                    let ghost ov = v@;
                    match find_index(&v, &s) {
                        Some(p) => {
                            v.set(p, (s, slot));
                            proof {
                                assert(has_key(ov, v@[p as int].0@));
                                assert(session_index(ov, v@[p as int].0@) == p) by {
                                    let q = session_index(ov, v@[p as int].0@);
                                    assert(ov[q].0@ == ov[p as int].0@);
                                }
                            }
                        },
                        None => {
                            v.push((s, slot));
                            proof {
                                assert(v@.drop_last() == ov);
                            }
                        },
                    }
                    proof {
                        assert forall|a: int, b: int|
                            0 <= a < v@.len() && 0 <= b < v@.len() && a != b implies #[trigger] v@[a].0@
                            != #[trigger] v@[b].0@ by {
                            if a < ov.len() && b < ov.len() {
                                if v@[a] != ov[a] || v@[b] != ov[b] {
                                } else {
                                }
                            }
                        }
                        assert forall|q: int| 0 <= q < slots_of(SessionMap::Multi(v)).len() implies (#[trigger] slots_of(
                            SessionMap::Multi(v),
                        )[q]).active.wf() by {
                            assert(slots_of(SessionMap::Multi(v))[q] == v@[q].1);
                            if q < ov.len() && v@[q] == ov[q] {
                                assert(sessions_wf(prev_sessions));
                                assert(slots_of(prev_sessions)[q] == ov[q].1);
                            }
                        }
                    }
                    (SessionMap::Multi(v), SlotEvent::SessionAdded)
                },
                (SessionMap::Multi(_), None) => {
                    proof {
                        assert(slots_of(SessionMap::Single(stream_token, slot))[0] == slot);
                    }
                    (SessionMap::Single(stream_token, slot), SlotEvent::BecameSingle)
                },
                (SessionMap::Single(_, _), Some(s)) => {
                    let mut v: Vec<(SessionID, SessionSlot)> = Vec::new();
                    v.push((s, slot));
                    proof {
                        assert(slots_of(SessionMap::Multi(v))[0] == v@[0].1);
                    }
                    (SessionMap::Multi(v), SlotEvent::BecameMulti)
                },
                (SessionMap::Single(_, _), None) => {
                    proof {
                        assert(slots_of(SessionMap::Single(stream_token, slot))[0] == slot);
                    }
                    (SessionMap::Single(stream_token, slot), SlotEvent::Replaced)
                },
            };
            clients_tx.replace_sessions(i, sessions);
            proof {
                assert(clients_tx@.dom() =~= old(clients_tx)@.dom().insert(client_id@));
            }
            event
        },
    }
}

/// Closes a stream of a client. The stream that owns a client without
/// session ids takes the client with it; a stream that no longer owns it
/// (the client reconnected meanwhile) is ignored when the guard is on, and
/// otherwise evicts the client too. A named session leaves the client's
/// sessions, and the client goes with its last session.
pub fn handle_client_disconnection_or_failure(
    clients_tx: &mut ReaderMap,
    client_id: &ClientId,
    session_id: &Option<SessionID>,
    stream_token: StreamToken,
    stale_disconnect_guard: bool,
) -> (outcome: DisconnectOutcome)
    requires
        old(clients_tx).wf(),
    ensures
        final(clients_tx).wf(),
        disconnected(
            old(clients_tx)@,
            final(clients_tx)@,
            client_id@,
            opt_view(*session_id),
            stream_token,
            stale_disconnect_guard,
            outcome,
        ),
{
    let i = match clients_tx.position(client_id) {
        Some(i) => i,
        None => {
            return DisconnectOutcome::NotFound;
        },
    };
    proof {
        clients_tx.lemma_entry(i as int);
    }
    let owner_matches = match &clients_tx.entries[i].1.sessions {
        SessionMap::Single(owner, _) => Some(owner.0 == stream_token.0),
        SessionMap::Multi(_) => None,
    };
    match owner_matches {
        Some(true) => {
            clients_tx.remove_entry(i);
            DisconnectOutcome::Removed
        },
        Some(false) => {
            if stale_disconnect_guard {
                DisconnectOutcome::StaleIgnored
            } else {
                clients_tx.remove_entry(i);
                DisconnectOutcome::StaleEvicted
            }
        },
        None => {
            let prev = clients_tx.replace_sessions(i, SessionMap::Multi(Vec::new()));
            let ghost prev_sessions = prev;
            let mut v = match prev {
                SessionMap::Multi(v) => v,
                SessionMap::Single(_, _) => {
                    proof {
                        assert(false);
                    }
                    Vec::new()
                },
            };
            let ghost ov = v@;
            let outcome = match session_id {
                Some(s) => {
                    match find_index(&v, s) {
                        Some(p) => {
                            proof {
                                assert(has_key(ov, s@));
                                assert(session_index(ov, s@) == p) by {
                                    let q = session_index(ov, s@);
                                    assert(ov[q].0@ == ov[p as int].0@);
                                }
                            }
                            v.remove(p);
                            proof {
                                assert(v@ == ov.remove(p as int));
                            }
                        },
                        None => {},
                    }
                    DisconnectOutcome::SessionClosed
                },
                None => DisconnectOutcome::SessionIdMissing,
            };
            proof {
                crate::assoc::lemma_to_map_len(ov);
                if v@ != ov {
                    let p = session_index(ov, opt_view(*session_id)->0);
                    crate::assoc::lemma_to_map_remove(ov, p);
                }
                assert forall|q: int| 0 <= q < slots_of(SessionMap::Multi(v)).len() implies (#[trigger] slots_of(
                    SessionMap::Multi(v),
                )[q]).active.wf() by {
                    let p = session_index(ov, opt_view(*session_id)->0);
                    assert(sessions_wf(prev_sessions));
                    assert(slots_of(SessionMap::Multi(v))[q] == v@[q].1);
                    let q2 = if v@ == ov || q < p { q } else { q + 1 };
                    assert(v@[q] == ov[q2]);
                    assert(slots_of(prev_sessions)[q2] == ov[q2].1);
                    assert(slots_of(prev_sessions)[q2].active.wf());
                }
            }
            if v.len() == 0 {
                clients_tx.replace_sessions(i, SessionMap::Multi(v));
                clients_tx.remove_entry(i);
                proof {
                    assert(clients_tx@ =~= old(clients_tx)@.remove(client_id@));
                }
            } else {
                clients_tx.replace_sessions(i, SessionMap::Multi(v));
                proof {
                    assert(clients_tx@.dom() =~= old(clients_tx)@.dom());
                }
            }
            outcome
        },
    }
}

} // verus!
