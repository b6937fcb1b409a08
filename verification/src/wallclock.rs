//! Reading the wall clock.
//!
//! The engine computes with instants on the local civil timeline,
//! counted in seconds since 1970-01-01T00:00:00. What time it is now
//! only the platform clock can say; everything done with the value is
//! verified against the engine's representable range.

use vstd::prelude::*;
use crate::date::MAX_INSTANT;

verus! {

/// Relies on chrono::Local::now, DateTime::naive_local and
/// NaiveDateTime::and_utc().timestamp(): the current local civil time
/// as seconds on the engine's timeline. Depends on the clock and the
/// time zone; nothing is promised of the value.
#[verifier::external_body]
fn local_now_secs() -> (r: i64) {
    chrono::Local::now().naive_local().and_utc().timestamp()
}

/// The current local instant, clamped into the engine's representable
/// range: a clock reading from before 1970 or after 9999 is pinned to
/// the range's edge.
pub fn current_instant() -> (r: i64)
    ensures
        0 <= r <= MAX_INSTANT,
{
    let t = local_now_secs();
    if t < 0 {
        0
    } else if t > MAX_INSTANT {
        MAX_INSTANT
    } else {
        t
    }
}

} // verus!
