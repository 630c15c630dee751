//! The load simulator's rules: how simulated clients acknowledge, which of
//! them never do, and which pairings of service and producer describe one
//! delivery path.

use vstd::prelude::*;
use crate::text::{decimal, push_decimal};
use crate::types::DeliveryMode;

verus! {

/// How simulated clients acknowledge what they receive.
#[derive(Debug, Clone, Copy, PartialEq, Eq, Structural)]
pub enum AckMode {
    Instant,
    Delayed,
    Distribution,
    Never,
}

/// When simulated clients reconnect: when the server closes the stream, or
/// after a lifetime drawn from a distribution as well.
#[derive(Debug, Clone, Copy, PartialEq, Eq, Structural)]
pub enum ReconnectMode {
    ServerOnly,
    Distribution,
}

/// The acknowledgement delays of simulated clients, by percentile.
#[derive(Debug, Clone, Copy, PartialEq, Eq, Structural)]
pub struct AckDelayCurve {
    pub p50_ms: u64,
    pub p90_ms: u64,
    pub p95_ms: u64,
    pub max_ms: u64,
}

/// The message refusing percentiles out of order.
pub open spec fn ack_curve_error(p50_ms: u64, p90_ms: u64, p95_ms: u64, max_ms: u64) -> Seq<char> {
    "ack percentiles must satisfy p50 <= p90 <= p95 <= max, got "@ + decimal(p50_ms as nat) + "/"@ + decimal(
        p90_ms as nat,
    ) + "/"@ + decimal(p95_ms as nat) + "/"@ + decimal(max_ms as nat)
}

impl AckDelayCurve {
    /// A curve through the given percentiles, which must not decrease.
    pub fn new(p50_ms: u64, p90_ms: u64, p95_ms: u64, max_ms: u64) -> (r: Result<Self, String>)
        ensures
            (p50_ms <= p90_ms && p90_ms <= p95_ms && p95_ms <= max_ms) <==> r is Ok,
            r matches Ok(c) ==> c == (AckDelayCurve { p50_ms, p90_ms, p95_ms, max_ms }),
            r matches Err(m) ==> m@ == ack_curve_error(p50_ms, p90_ms, p95_ms, max_ms),
    {
        if !(p50_ms <= p90_ms && p90_ms <= p95_ms && p95_ms <= max_ms) {
            let mut m = String::from_str("ack percentiles must satisfy p50 <= p90 <= p95 <= max, got ");
            push_decimal(&mut m, p50_ms);
            m.append("/");
            push_decimal(&mut m, p90_ms);
            m.append("/");
            push_decimal(&mut m, p95_ms);
            m.append("/");
            push_decimal(&mut m, max_ms);
            return Err(m);
        }
        Ok(AckDelayCurve { p50_ms, p90_ms, p95_ms, max_ms })
    }
}

/// Whether the simulated client with this index never acknowledges: its
/// index times the percentage, wrapped to 64 bits, falls below the
/// percentage modulo 100. The same index gives the same answer in every
/// replica, whatever range of indexes the replica runs.
pub open spec fn never_acks(index: u64, never_ack_pct: u64) -> bool {
    never_ack_pct > 0 && ((index as nat * never_ack_pct as nat) % 0x1_0000_0000_0000_0000) % 100 < never_ack_pct
}

pub fn in_never_ack_cohort(index: u64, never_ack_pct: u64) -> (b: bool)
    ensures
        b == never_acks(index, never_ack_pct),
{
    never_ack_pct > 0 && index.wrapping_mul(never_ack_pct) % 100 < never_ack_pct
}

pub open spec fn bool_text(b: bool) -> Seq<char> {
    if b {
        "true"@
    } else {
        "false"@
    }
}

pub open spec fn delivery_mode_text(m: DeliveryMode) -> Seq<char> {
    match m {
        DeliveryMode::Sweep => "Sweep"@,
        DeliveryMode::Pubsub => "Pubsub"@,
    }
}

/// The message refusing a service and a producer that disagree on the
/// delivery path.
pub open spec fn delivery_path_error(delivery_mode: DeliveryMode, publish_enabled: bool) -> Seq<char> {
    "delivery_mode="@ + delivery_mode_text(delivery_mode) + " disagrees with producer.publish_enabled="@
        + bool_text(publish_enabled)
        + ". A Pubsub cell needs the producer to PUBLISH or only the sweep delivers; a Sweep cell must not PUBLISH or it is charged for a channel nothing reads. DELIVERY_MODE (notification_service.dhall delivery_mode) and PUBLISH_ENABLED (sim.dhall producer.publish_enabled) move together."@
}

/// A service in pub/sub mode needs a producer that publishes, and a service
/// that sweeps needs one that does not.
pub fn validate_delivery_path(delivery_mode: DeliveryMode, publish_enabled: bool) -> (r: Result<(), String>)
    ensures
        r is Ok <==> ((delivery_mode == DeliveryMode::Pubsub) == publish_enabled),
        r matches Err(m) ==> m@ == delivery_path_error(delivery_mode, publish_enabled),
{
    let pubsub = match delivery_mode {
        DeliveryMode::Pubsub => true,
        DeliveryMode::Sweep => false,
    };
    if pubsub == publish_enabled {
        return Ok(());
    }
    let mut m = String::from_str("delivery_mode=");
    m.append(delivery_mode.name());
    m.append(" disagrees with producer.publish_enabled=");
    m.append(if publish_enabled { "true" } else { "false" });
    m.append(
        ". A Pubsub cell needs the producer to PUBLISH or only the sweep delivers; a Sweep cell must not PUBLISH or it is charged for a channel nothing reads. DELIVERY_MODE (notification_service.dhall delivery_mode) and PUBLISH_ENABLED (sim.dhall producer.publish_enabled) move together.",
    );
    Err(m)
}

} // verus!
