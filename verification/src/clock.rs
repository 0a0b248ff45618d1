//! The wall clock, read as whole seconds since the Unix epoch.

use vstd::prelude::*;

verus! {

/// Relies on chrono's `Utc::now` and `DateTime::timestamp` for the current
/// wall-clock time as whole seconds since the Unix epoch. The value depends
/// on the machine's clock; nothing is promised of it.
#[verifier::external_body]
fn utc_timestamp() -> i64 {
    chrono::Utc::now().timestamp()
}

/// An epoch timestamp in the engine's instant form: whole seconds, clamped
/// to zero for times before the epoch.
pub open spec fn spec_instant_from_timestamp(t: i64) -> u64 {
    if t >= 0 {
        t as u64
    } else {
        0
    }
}

pub fn instant_from_timestamp(t: i64) -> (r: u64)
    ensures
        r == spec_instant_from_timestamp(t),
{
    if t >= 0 {
        t as u64
    } else {
        0
    }
}

/// The current instant. The value comes from the machine's clock, so nothing
/// is known of it; the engine states what holds of every instant it is
/// handed.
pub fn now_instant() -> u64 {
    instant_from_timestamp(utc_timestamp())
}

} // verus!
