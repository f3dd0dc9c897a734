//! The system clock, as std's `SystemTime` reads it.
//!
//! Nothing is stated of what these calls return: the clock's reading depends
//! on the moment of the call.

use vstd::prelude::*;
use std::time::{Duration, SystemTime};

verus! {

#[verifier::external_type_specification]
#[verifier::external_body]
pub struct ExSystemTime(SystemTime);

/// Calls `SystemTime::now`; the reading is the machine's, and nothing is stated of it.
#[verifier::external_body]
pub(crate) fn system_time_now() -> SystemTime {
    SystemTime::now()
}

/// Calls `SystemTime::duration_since` with the Unix epoch; `None` where the time lies before it.
#[verifier::external_body]
pub(crate) fn since_unix_epoch(t: &SystemTime) -> Option<Duration> {
    t.duration_since(std::time::UNIX_EPOCH).ok()
}

/// Calls `Duration::as_millis`: the whole milliseconds of a duration.
#[verifier::external_body]
pub(crate) fn duration_millis(d: &Duration) -> u128 {
    d.as_millis()
}

/// What `UNIX_EPOCH.checked_add(Duration::from_millis(ms))` gives: the time `ms`
/// milliseconds after the Unix epoch, or none where the platform cannot represent it.
pub uninterp spec fn time_at_millis(ms: u64) -> Option<SystemTime>;

/// Calls `SystemTime::checked_add` on the Unix epoch with `Duration::from_millis(ms)`.
/// Stated: the result is a function of `ms`. Which times a platform can represent
/// is left to std and not stated.
#[verifier::external_body]
pub(crate) fn epoch_plus_millis(ms: u64) -> (r: Option<SystemTime>)
    ensures
        r == time_at_millis(ms),
{
    std::time::UNIX_EPOCH.checked_add(Duration::from_millis(ms))
}

/// The low 64 bits of a count of milliseconds, as `as u64` keeps them.
pub fn truncate_millis(ms: u128) -> (r: u64)
    ensures
        r == ms % 0x1_0000_0000_0000_0000,
{
    let r = (ms % 0x1_0000_0000_0000_0000u128) as u64;
    r
}

} // verus!
