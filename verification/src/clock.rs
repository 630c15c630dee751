//! The wall clock.

use vstd::prelude::*;
use crate::types::Timestamp;

verus! {

/// The current time: `chrono::Utc::now()`, in milliseconds since the Unix
/// epoch. Nothing is promised of the value: it is whatever the clock reads.
#[verifier::external_body]
pub(crate) fn utc_now() -> Timestamp {
    Timestamp(chrono::Utc::now().timestamp_millis())
}

/// The whole seconds between two instants, either way round.
pub open spec fn abs_diff_seconds(old: Timestamp, new: Timestamp) -> nat {
    (if new.0 >= old.0 {
        new.0 - old.0
    } else {
        old.0 - new.0
    }) as nat / 1000
}

/// The whole seconds between two instants, either way round (a difference
/// is cut toward zero, as `chrono` counts whole seconds).
pub fn abs_diff_utc_as_sec(old: Timestamp, new: Timestamp) -> (s: u64)
    ensures
        s as nat == abs_diff_seconds(old, new),
{
    let d: i128 = new.0 as i128 - old.0 as i128;
    let a: i128 = if d < 0 {
        -d
    } else {
        d
    };
    (a / 1000) as u64
}

} // verus!
