//! The clocks, behind trusted wrappers. Nothing is known of the values they
//! return: they depend on when the calls are made.

use std::time::{Duration, Instant, SystemTime};
use vstd::prelude::*;

verus! {

/// `std::time::Instant`, an opaque point in time.
#[verifier::external_type_specification]
#[verifier::external_body]
pub struct ExInstant(Instant);

/// Calls `Instant::now`: the current instant. Nothing is stated of it.
#[verifier::external_body]
pub(crate) fn now() -> Instant {
    Instant::now()
}

/// Calls `Instant::elapsed`: the time passed since `since`. Nothing is stated of it.
#[verifier::external_body]
pub(crate) fn elapsed_since(since: &Instant) -> Duration {
    since.elapsed()
}

/// Calls `Duration::as_millis`: the whole milliseconds in `d`. `Duration` is
/// opaque here, so nothing is stated of the number.
#[verifier::external_body]
pub(crate) fn whole_millis(d: &Duration) -> u128 {
    d.as_millis()
}

/// Milliseconds passed since `since`, truncated to 64 bits as the timer stores them.
pub fn millis_since(since: &Instant) -> u64 {
    let d = elapsed_since(since);
    let ms = whole_millis(&d);
    ms as u64
}

/// Whole seconds passed since `since`.
pub fn seconds_since(since: &Instant) -> u64 {
    let d = elapsed_since(since);
    whole_seconds(&d)
}

/// `std::time::SystemTime`, an opaque reading of the system clock.
#[verifier::external_type_specification]
#[verifier::external_body]
pub struct ExSystemTime(SystemTime);

/// Calls `SystemTime::now`: the current time of the system clock. Nothing is stated of it.
#[verifier::external_body]
pub(crate) fn system_now() -> SystemTime {
    SystemTime::now()
}

/// Calls `SystemTime::duration_since` with `UNIX_EPOCH`: the time from
/// 1970-01-01 00:00 UTC to `t`, or `None` when `t` lies before it. Nothing is
/// stated of the value.
#[verifier::external_body]
pub(crate) fn since_unix_epoch(t: &SystemTime) -> Option<Duration> {
    t.duration_since(SystemTime::UNIX_EPOCH).ok()
}

/// Calls `Duration::as_secs`: the whole seconds in `d`. `Duration` is opaque
/// here, so nothing is stated of the number.
#[verifier::external_body]
pub(crate) fn whole_seconds(d: &Duration) -> u64 {
    d.as_secs()
}

/// Whole seconds since 1970-01-01 00:00 UTC by the system clock, or 0 when the
/// clock reads an earlier time.
pub fn seconds_since_unix_epoch() -> u64 {
    let t = system_now();
    match since_unix_epoch(&t) {
        Some(d) => whole_seconds(&d),
        None => 0,
    }
}

/// Calls `Instant::duration_since`: the time from `earlier` to `later`, zero
/// when `earlier` is the later one. Nothing is stated of it.
#[verifier::external_body]
pub(crate) fn duration_between(later: &Instant, earlier: &Instant) -> Duration {
    later.duration_since(*earlier)
}

/// Calls `Duration::as_nanos`: the whole nanoseconds in `d`. Nothing is stated
/// of the number.
#[verifier::external_body]
pub(crate) fn whole_nanos(d: &Duration) -> u128 {
    d.as_nanos()
}

/// Nanoseconds since 1970-01-01 00:00 UTC by the system clock, truncated to
/// 64 bits, or 0 when the clock reads an earlier time.
pub fn nanos_since_unix_epoch() -> u64 {
    let t = system_now();
    match since_unix_epoch(&t) {
        Some(d) => {
            let n = whole_nanos(&d);
            #[verifier::truncate] (n as u64)
        },
        None => 0,
    }
}

/// The time from `start` to `now` in whole milliseconds, truncated to 32
/// bits, and in whole seconds.
pub fn age_since(now: &Instant, start: &Instant) -> (u32, u64) {
    let d = duration_between(now, start);
    let ms = whole_millis(&d);
    (#[verifier::truncate] (ms as u32), whole_seconds(&d))
}

} // verus!
