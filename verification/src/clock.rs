//! Clock readings in nanoseconds: the system clock since the Unix epoch, and
//! the monotonic clock since a starting instant.

use vstd::prelude::*;
use std::time::{Duration, Instant, SystemTime, SystemTimeError};

verus! {

#[verifier::external_type_specification]
#[verifier::external_body]
pub struct ExSystemTime(SystemTime);

#[verifier::external_type_specification]
#[verifier::external_body]
pub struct ExSystemTimeError(SystemTimeError);

#[verifier::external_type_specification]
#[verifier::external_body]
pub struct ExInstant(Instant);

/// The most nanoseconds a `Duration` holds: `u64::MAX` seconds and
/// 999,999,999 nanoseconds.
pub open spec fn max_duration_nanos() -> nat {
    18_446_744_073_709_551_615 * 1_000_000_000 + 999_999_999
}

/// The system clock now, by `SystemTime::now`. Nothing is claimed of it.
#[verifier::external_body]
fn system_now() -> SystemTime {
    SystemTime::now()
}

/// The time from the Unix epoch to `t`, by `SystemTime::duration_since`
/// with `UNIX_EPOCH`; an error when `t` is before the epoch. Nothing is
/// claimed of the value.
#[verifier::external_body]
fn since_unix_epoch(t: &SystemTime) -> Result<Duration, SystemTimeError> {
    t.duration_since(std::time::UNIX_EPOCH)
}

/// The monotonic clock now, by `Instant::now`. Nothing is claimed of it.
#[verifier::external_body]
pub(crate) fn instant_now() -> Instant {
    Instant::now()
}

/// The time from `earlier` to `later`, by `Instant::duration_since`, which
/// gives zero when `earlier` is the later one. Nothing is claimed of the value.
#[verifier::external_body]
fn instant_since(later: &Instant, earlier: &Instant) -> Duration {
    later.duration_since(*earlier)
}

/// The whole nanoseconds of `d`, by `Duration::as_nanos`. The contract
/// claims only what `Duration` documents: at most `u64::MAX` seconds and
/// fewer than a billion nanoseconds besides.
#[verifier::external_body]
fn duration_nanos(d: &Duration) -> (r: u128)
    ensures
        r <= max_duration_nanos(),
{
    d.as_nanos()
}

/// Nanoseconds since the Unix epoch by the system clock, or 0 when the clock
/// reads before the epoch.
pub(crate) fn unix_time_nanos() -> (r: u128)
    ensures
        r <= max_duration_nanos(),
{
    let t = system_now();
    match since_unix_epoch(&t) {
        Ok(d) => duration_nanos(&d),
        Err(_) => 0,
    }
}

/// Nanoseconds on the monotonic clock since `origin` (0 if `origin` is later).
pub(crate) fn nanos_since(origin: &Instant) -> (r: u128)
    ensures
        r <= max_duration_nanos(),
{
    let now = instant_now();
    let d = instant_since(&now, origin);
    duration_nanos(&d)
}

} // verus!
