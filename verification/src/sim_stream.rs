//! What a simulated client does with each notification its stream brings:
//! tell a first delivery from a repeat, and decide whether and when to
//! acknowledge it.

use vstd::prelude::*;
use crate::seen::{observe_model, Seen, SeenWindow};
use crate::sim::AckMode;

verus! {

/// When a simulated client acknowledges.
#[derive(Debug, Clone, Copy, PartialEq, Eq, Structural)]
pub enum AckDelay {
    /// After this many milliseconds (none for an instant acknowledgement).
    Fixed(u64),
    /// After a delay drawn from the acknowledgement curve.
    Sampled,
}

/// The delay before an acknowledgement under `ack_mode`.
pub fn ack_delay(ack_mode: AckMode, ack_delay_ms: u64) -> (d: AckDelay)
    ensures
        d == match ack_mode {
            AckMode::Delayed => AckDelay::Fixed(ack_delay_ms),
            AckMode::Distribution => AckDelay::Sampled,
            AckMode::Instant | AckMode::Never => AckDelay::Fixed(0),
        },
{
    match ack_mode {
        AckMode::Delayed => AckDelay::Fixed(ack_delay_ms),
        AckMode::Distribution => AckDelay::Sampled,
        AckMode::Instant | AckMode::Never => AckDelay::Fixed(0),
    }
}

/// What a simulated client makes of one delivery.
#[derive(Debug, Clone, Copy, PartialEq, Eq, Structural)]
pub struct Receipt {
    /// The first delivery of this notification (its latency is recorded).
    pub first_sight: bool,
    /// A repeat, and whether it came after the acknowledgement.
    pub repeat_after_ack: Option<bool>,
    /// Whether to acknowledge it.
    pub ack: bool,
    /// A first delivery that will never be acknowledged (it is counted).
    pub never_acked: bool,
}

/// The receipt of a delivery, given how the window labels it.
pub open spec fn receipt_of(seen: Seen, never_ack: bool, ack_mode: AckMode) -> Receipt {
    let first = seen == Seen::First;
    let silent = never_ack || ack_mode == AckMode::Never;
    Receipt {
        first_sight: first,
        repeat_after_ack: match seen {
            Seen::First => None,
            Seen::Repeat { after_ack } => Some(after_ack),
        },
        ack: !silent,
        never_acked: silent && first,
    }
}

/// A client acknowledges every delivery, first or repeat, unless it is in
/// the never-acknowledging cohort or in never mode, and then it
/// acknowledges none: whether to acknowledge does not depend on how the
/// window labels the delivery. Only a first delivery of a silent client is
/// counted as never acknowledged.
pub proof fn law_a_speaking_client_acknowledges_every_delivery(seen: Seen, never_ack: bool, ack_mode: AckMode)
    ensures
        (!never_ack && ack_mode != AckMode::Never) ==> receipt_of(seen, never_ack, ack_mode).ack,
        (never_ack || ack_mode == AckMode::Never) ==> !receipt_of(seen, never_ack, ack_mode).ack,
        receipt_of(seen, never_ack, ack_mode).ack == receipt_of(Seen::First, never_ack, ack_mode).ack,
        receipt_of(seen, never_ack, ack_mode).never_acked == ((never_ack || ack_mode == AckMode::Never) && seen
            == Seen::First),
        receipt_of(seen, never_ack, ack_mode).first_sight == (seen == Seen::First),
{
}

/// Records a delivery of `payload_id` in the client's window and decides
/// what to do with it: a client in the never-acknowledging cohort, or in
/// never mode, keeps silent; the others acknowledge.
pub fn receive_payload(seen: &mut SeenWindow, payload_id: &str, never_ack: bool, ack_mode: AckMode) -> (r: Receipt)
    requires
        old(seen).wf(),
        old(seen).capacity() > 0,
    ensures
        final(seen).wf(),
        final(seen).capacity() == old(seen).capacity(),
        final(seen).entries() == observe_model(old(seen).entries(), old(seen).capacity(), payload_id@).0,
        r == receipt_of(observe_model(old(seen).entries(), old(seen).capacity(), payload_id@).1, never_ack, ack_mode),
{
    let s = seen.observe(payload_id);
    let first = match s {
        Seen::First => true,
        Seen::Repeat { .. } => false,
    };
    let repeat_after_ack = match s {
        Seen::First => None,
        Seen::Repeat { after_ack } => Some(after_ack),
    };
    let silent = never_ack || match ack_mode {
        AckMode::Never => true,
        _ => false,
    };
    Receipt { first_sight: first, repeat_after_ack, ack: !silent, never_acked: silent && first }
}

/// The number at `field` of the JSON object that `text` holds, when `text`
/// parses as JSON, is an object with that field, and the field is a number
/// that fits a `u64` (named, not written out: it is JSON parsing).
pub uninterp spec fn json_u64_field(text: Seq<char>, field: Seq<char>) -> Option<u64>;

/// `serde_json::from_str::<Value>(text)`, then `Value::get(field)` and
/// `Value::as_u64`: the result is a function of the two texts alone.
#[verifier::external_body]
fn json_u64_at(text: &str, field: &str) -> (r: Option<u64>)
    ensures
        r == json_u64_field(text@, field@),
{
    match serde_json::from_str::<serde_json::Value>(text) {
        Ok(value) => match value.get(field) {
            Some(v) => v.as_u64(),
            None => None,
        },
        Err(_) => None,
    }
}

/// When the producer stamped a notification, as its entity data records it
/// under `produced_at_ms`; nothing for data without the stamp.
pub fn produced_at_millis(entity_data: &str) -> (r: Option<u64>)
    ensures
        r == json_u64_field(entity_data@, "produced_at_ms"@),
{
    json_u64_at(entity_data, "produced_at_ms")
}

/// How a simulated client's stream ended.
#[derive(Debug, Clone, Copy, PartialEq, Eq, Structural)]
pub enum StreamEnd {
    /// The client's drawn lifetime ran out and it closed the stream.
    LifetimeElapsed,
    /// The server ended the stream.
    ServerClosed,
    /// The stream failed.
    StreamError,
}

impl StreamEnd {
    /// The label a reconnect is counted under.
    pub fn reason(&self) -> (r: &'static str)
        ensures
            r@ == match *self {
                StreamEnd::LifetimeElapsed => "client_closed"@,
                StreamEnd::ServerClosed => "server_closed"@,
                StreamEnd::StreamError => "stream_error"@,
            },
    {
        match self {
            StreamEnd::LifetimeElapsed => "client_closed",
            StreamEnd::ServerClosed => "server_closed",
            StreamEnd::StreamError => "stream_error",
        }
    }
}

/// The first wait after a failed attempt to hold a stream, in milliseconds.
pub const INITIAL_BACKOFF_MS: u64 = 100;

/// The longest wait between attempts, in milliseconds.
pub const MAX_BACKOFF_MS: u64 = 5000;

/// What a simulated client does after an attempt to hold its stream: wait
/// `wait_ms` (besides the jitter every reconnect gets) and keep `next_ms` as
/// the wait after the next failure.
#[derive(Debug, Clone, Copy, PartialEq, Eq, Structural)]
pub struct Backoff {
    pub wait_ms: u64,
    pub next_ms: u64,
}

/// After a stream that was held and ended, the wait starts over; after a
/// failure the client waits the current backoff, which then doubles, up to
/// the longest wait.
pub fn after_attempt(held: bool, backoff_ms: u64) -> (b: Backoff)
    requires
        backoff_ms <= u64::MAX / 2,
    ensures
        held ==> b == (Backoff { wait_ms: 0, next_ms: INITIAL_BACKOFF_MS }),
        !held ==> b == (Backoff {
            wait_ms: backoff_ms,
            next_ms: if 2 * backoff_ms < MAX_BACKOFF_MS { (2 * backoff_ms) as u64 } else { MAX_BACKOFF_MS },
        }),
{
    if held {
        Backoff { wait_ms: 0, next_ms: INITIAL_BACKOFF_MS }
    } else {
        let doubled = backoff_ms * 2;
        Backoff { wait_ms: backoff_ms, next_ms: if doubled < MAX_BACKOFF_MS { doubled } else { MAX_BACKOFF_MS } }
    }
}

} // verus!
