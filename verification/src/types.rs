//! The service's identifiers, delivery settings and small enums.

use vstd::prelude::*;

verus! {

/// Equality of keys, decided by their views.
pub trait KeyEq: View + Sized {
    fn key_eq(&self, other: &Self) -> (b: bool)
        ensures
            b == (self@ == other@),
    ;
}

impl KeyEq for String {
    fn key_eq(&self, other: &Self) -> (b: bool) {
        *self == *other
    }
}

/// An authentication token as a client presents it.
#[derive(Debug, PartialEq, Eq)]
pub struct Token(pub String);

/// The identity of a connected client (a driver or a rider).
#[derive(Debug, PartialEq, Eq, Hash)]
pub struct ClientId(pub String);

/// One of several concurrent sessions of a client.
#[derive(Debug, PartialEq, Eq, Hash)]
pub struct SessionID(pub String);

/// The Redis shard that holds a client's notification stream.
#[derive(Debug, Clone, Copy, PartialEq, Eq, Hash)]
pub struct Shard(pub u64);

#[derive(Debug, PartialEq, Eq, Hash)]
pub struct NotificationId(pub String);

/// A point in time, in milliseconds since the Unix epoch.
#[derive(Debug, Clone, Copy, PartialEq, Eq, PartialOrd)]
pub struct Timestamp(pub i64);

/// The instant after which a notification is expired, in milliseconds since
/// the Unix epoch.
#[derive(Debug, Clone, Copy, PartialEq, Eq, PartialOrd)]
pub struct Ttl(pub i64);

/// A Redis stream entry id, `<milliseconds>-<sequence>`.
#[derive(Debug, PartialEq, Eq)]
pub struct StreamEntry(pub String);

impl View for Token {
    type V = Seq<char>;

    open spec fn view(&self) -> Seq<char> {
        self.0@
    }
}

impl View for ClientId {
    type V = Seq<char>;

    open spec fn view(&self) -> Seq<char> {
        self.0@
    }
}

impl View for SessionID {
    type V = Seq<char>;

    open spec fn view(&self) -> Seq<char> {
        self.0@
    }
}

impl View for NotificationId {
    type V = Seq<char>;

    open spec fn view(&self) -> Seq<char> {
        self.0@
    }
}

impl View for StreamEntry {
    type V = Seq<char>;

    open spec fn view(&self) -> Seq<char> {
        self.0@
    }
}

impl Clone for Token {
    fn clone(&self) -> (r: Self)
        ensures
            r == *self,
    {
        Token(self.0.clone())
    }
}

impl Clone for ClientId {
    fn clone(&self) -> (r: Self)
        ensures
            r == *self,
    {
        ClientId(self.0.clone())
    }
}

impl Clone for SessionID {
    fn clone(&self) -> (r: Self)
        ensures
            r == *self,
    {
        SessionID(self.0.clone())
    }
}

impl Clone for NotificationId {
    fn clone(&self) -> (r: Self)
        ensures
            r == *self,
    {
        NotificationId(self.0.clone())
    }
}

impl Clone for StreamEntry {
    fn clone(&self) -> (r: Self)
        ensures
            r == *self,
    {
        StreamEntry(self.0.clone())
    }
}

impl KeyEq for ClientId {
    fn key_eq(&self, other: &Self) -> (b: bool) {
        self.0 == other.0
    }
}

impl KeyEq for SessionID {
    fn key_eq(&self, other: &Self) -> (b: bool) {
        self.0 == other.0
    }
}

impl KeyEq for NotificationId {
    fn key_eq(&self, other: &Self) -> (b: bool) {
        self.0 == other.0
    }
}

impl Token {
    pub fn inner(&self) -> (s: String)
        ensures
            s@ == self@,
    {
        self.0.clone()
    }
}

impl ClientId {
    pub fn inner(&self) -> (s: String)
        ensures
            s@ == self@,
    {
        self.0.clone()
    }
}

impl SessionID {
    pub fn inner(&self) -> (s: String)
        ensures
            s@ == self@,
    {
        self.0.clone()
    }
}

impl NotificationId {
    pub fn inner(&self) -> (s: String)
        ensures
            s@ == self@,
    {
        self.0.clone()
    }
}

impl StreamEntry {
    pub fn inner(&self) -> (s: String)
        ensures
            s@ == self@,
    {
        self.0.clone()
    }
}

impl Shard {
    pub fn inner(&self) -> (n: u64)
        ensures
            n == self.0,
    {
        self.0
    }
}

impl Timestamp {
    pub fn inner(&self) -> (n: i64)
        ensures
            n == self.0,
    {
        self.0
    }
}

impl Ttl {
    pub fn inner(&self) -> (n: i64)
        ensures
            n == self.0,
    {
        self.0
    }
}

impl Default for StreamEntry {
    /// The id before every entry of a stream.
    fn default() -> (e: Self)
        ensures
            e@ == "0-0"@,
    {
        StreamEntry(String::from_str("0-0"))
    }
}


/// Why an undelivered notification was dropped.
#[derive(Debug, Clone, Copy, PartialEq, Eq, Structural)]
pub enum ExpiryReason {
    /// It expired before any session received it.
    NoConsumer,
    /// It was sent but not acknowledged before it expired.
    Timeout,
}

impl ExpiryReason {
    /// The metric label of the reason.
    pub fn as_str(self) -> (s: &'static str)
        ensures
            s@ == (match self {
                ExpiryReason::NoConsumer => "no_consumer"@,
                ExpiryReason::Timeout => "timeout"@,
            }),
    {
        match self {
            ExpiryReason::NoConsumer => "no_consumer",
            ExpiryReason::Timeout => "timeout",
        }
    }
}

/// Why a stream entry is queued for deletion from Redis.
#[derive(Debug, Clone, Copy, PartialEq, Eq, Structural)]
pub enum CleanupReason {
    Expired(ExpiryReason),
    Delivered,
}

/// What the cleanup queue keeps of an entry it is to delete.
#[derive(Debug)]
pub struct ExpiredMeta {
    pub category: String,
    pub reason: CleanupReason,
}

impl Clone for ExpiredMeta {
    fn clone(&self) -> (r: Self)
        ensures
            r == *self,
    {
        ExpiredMeta { category: self.category.clone(), reason: self.reason }
    }
}

/// How notifications reach connected clients.
#[derive(Debug, Clone, Copy, PartialEq, Eq, Structural)]
pub enum DeliveryMode {
    /// Periodic sweeps of every client's stream.
    Sweep,
    /// Push on a Redis pub/sub message, with sweeps as a fallback.
    Pubsub,
}

impl DeliveryMode {
    /// Whether a new connection is caught up at once with what its stream holds.
    pub fn needs_connect_catchup(&self) -> (b: bool)
        ensures
            b == (*self == DeliveryMode::Pubsub),
    {
        matches!(self, DeliveryMode::Pubsub)
    }

    /// Whether unacknowledged notifications are retried by a loop of their own.
    pub fn needs_independent_retry_loop(&self) -> (b: bool)
        ensures
            b == (*self == DeliveryMode::Pubsub),
    {
        matches!(self, DeliveryMode::Pubsub)
    }

    /// The variant's name, as it is displayed.
    pub fn name(&self) -> (s: &'static str)
        ensures
            s@ == (match *self {
                DeliveryMode::Sweep => "Sweep"@,
                DeliveryMode::Pubsub => "Pubsub"@,
            }),
    {
        match self {
            DeliveryMode::Sweep => "Sweep",
            DeliveryMode::Pubsub => "Pubsub",
        }
    }
}

/// How often a notification may be pushed to a client.
#[derive(Debug, Clone, Copy, PartialEq, Eq, Structural)]
pub enum DeliveryGuarantee {
    AtMostOnce,
    AtLeastOnce,
}

impl DeliveryGuarantee {
    /// Whether a notification is dropped as soon as one push of it succeeded.
    pub fn removes_on_push(&self) -> (b: bool)
        ensures
            b == (*self == DeliveryGuarantee::AtMostOnce),
    {
        matches!(self, DeliveryGuarantee::AtMostOnce)
    }

    pub fn name(&self) -> (s: &'static str)
        ensures
            s@ == (match *self {
                DeliveryGuarantee::AtMostOnce => "AtMostOnce"@,
                DeliveryGuarantee::AtLeastOnce => "AtLeastOnce"@,
            }),
    {
        match self {
            DeliveryGuarantee::AtMostOnce => "AtMostOnce",
            DeliveryGuarantee::AtLeastOnce => "AtLeastOnce",
        }
    }
}

/// The guarantee together with the number of pushes it allows per notification.
#[derive(Debug, Clone, Copy, PartialEq, Eq, Structural)]
pub struct DeliveryPolicy {
    pub guarantee: DeliveryGuarantee,
    /// At most this many pushes of one notification; `None` for no limit.
    pub push_cap: Option<u32>,
}

/// The push cap that a guarantee and a configured attempt limit give.
pub open spec fn push_cap_for(guarantee: DeliveryGuarantee, max_delivery_attempts: Option<u32>) -> Option<u32> {
    match guarantee {
        DeliveryGuarantee::AtMostOnce => Some(1),
        DeliveryGuarantee::AtLeastOnce => max_delivery_attempts,
    }
}

impl DeliveryPolicy {
    /// At most once allows one push; at least once allows as many as
    /// configured, or any number when none is configured.
    pub fn new(guarantee: DeliveryGuarantee, max_delivery_attempts: Option<u32>) -> (p: Self)
        requires
            max_delivery_attempts != Some(0u32),
        ensures
            p.guarantee == guarantee,
            p.push_cap == push_cap_for(guarantee, max_delivery_attempts),
    {
        let push_cap = match guarantee {
            DeliveryGuarantee::AtMostOnce => Some(1),
            DeliveryGuarantee::AtLeastOnce => max_delivery_attempts,
        };
        DeliveryPolicy { guarantee, push_cap }
    }
}

/// The app that issued a client's token.
#[derive(Debug, Clone, Copy, PartialEq, Eq, Hash, Structural)]
pub enum TokenOrigin {
    DriverApp,
    RiderApp,
    Dashboard,
}

pub open spec fn token_origin_name(o: TokenOrigin) -> Seq<char> {
    match o {
        TokenOrigin::DriverApp => "DriverApp"@,
        TokenOrigin::RiderApp => "RiderApp"@,
        TokenOrigin::Dashboard => "Dashboard"@,
    }
}

impl TokenOrigin {
    /// The variant's name, as it is displayed.
    pub fn name(&self) -> (s: &'static str)
        ensures
            s@ == token_origin_name(*self),
    {
        match self {
            TokenOrigin::DriverApp => "DriverApp",
            TokenOrigin::RiderApp => "RiderApp",
            TokenOrigin::Dashboard => "Dashboard",
        }
    }

    /// The variant whose name is `s` exactly.
    pub fn from_name(s: &str) -> (o: Option<TokenOrigin>)
        ensures
            o matches Some(v) ==> token_origin_name(v) == s@,
            o is None ==> forall|v: TokenOrigin| token_origin_name(v) != s@,
    {
        let own = String::from_str(s);
        let candidates = [TokenOrigin::DriverApp, TokenOrigin::RiderApp, TokenOrigin::Dashboard];
        let mut i: usize = 0;
        while i < 3
            invariant
                i <= 3,
                candidates@ == seq![TokenOrigin::DriverApp, TokenOrigin::RiderApp, TokenOrigin::Dashboard],
                own@ == s@,
                forall|k: int| 0 <= k < i ==> token_origin_name(#[trigger] candidates@[k]) != s@,
            decreases 3 - i,
        {
            let name = String::from_str(candidates[i].name());
            if name == own {
                return Some(candidates[i]);
            }
            i = i + 1;
        }
        proof {
            assert forall|v: TokenOrigin| token_origin_name(v) != s@ by {
                match v {
                    TokenOrigin::DriverApp => assert(candidates@[0] == v),
                    TokenOrigin::RiderApp => assert(candidates@[1] == v),
                    TokenOrigin::Dashboard => assert(candidates@[2] == v),
                }
            }
        }
        None
    }
}

/// Tells apart the streams that one client has opened over time.
#[derive(Debug, Clone, Copy, PartialEq, Eq, Structural)]
pub struct StreamToken(pub u64);

/// Hands out stream tokens, each one greater than the last.
pub struct StreamTokenSource {
    next: u64,
}

impl StreamTokenSource {
    pub closed spec fn upcoming(&self) -> u64 {
        self.next
    }

    /// A source whose first token is 1.
    pub fn new() -> (s: Self)
        ensures
            s.upcoming() == 1,
    {
        StreamTokenSource { next: 1 }
    }
}

impl StreamToken {
    /// The next token of `source`; after `u64::MAX` the count wraps to 0.
    pub fn next(source: &mut StreamTokenSource) -> (t: StreamToken)
        ensures
            t.0 == old(source).upcoming(),
            final(source).upcoming() == (if old(source).upcoming() == u64::MAX {
                0
            } else {
                (old(source).upcoming() + 1) as u64
            }),
    {
        let t = StreamToken(source.next);
        source.next = source.next.wrapping_add(1);
        t
    }
}

} // verus!
