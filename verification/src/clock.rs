//! The wall clock, read through the outside calendar crate.

use vstd::prelude::*;

verus! {

/// Relies on chrono::Utc::now / chrono::DateTime::timestamp: the current
/// wall-clock time as a unix timestamp in whole seconds. Nothing can be
/// promised of a clock reading.
#[verifier::external_body]
pub(crate) fn unix_now() -> i64 {
    chrono::Utc::now().timestamp()
}

/// The wait until `due` from a clock reading `now`: the remaining seconds
/// when `due` is still in the future, nothing otherwise.
pub open spec fn wait_spec(now: i64, due: i64) -> Option<u64> {
    if now < due {
        Some((due - now) as u64)
    } else {
        None
    }
}

/// Samples the clock and computes the wait until `due`. Returns the sampled
/// reading alongside, so the caller can relate later decisions to it.
pub fn time_until(due: i64) -> (r: (i64, Option<u64>))
    ensures
        r.1 == wait_spec(r.0, due),
{
    let now = unix_now();
    if now < due {
        let w: u64 = ((due as i128) - (now as i128)) as u64;
        (now, Some(w))
    } else {
        (now, None)
    }
}

} // verus!
