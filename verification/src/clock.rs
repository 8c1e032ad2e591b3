//! Durations and instants as the library sees them: a duration is its length
//! in nanoseconds.

use std::time::{Duration, Instant};
use vstd::prelude::*;

verus! {

/// Declares `std::time::Instant` so that signatures and fields can hold it.
#[verifier::external_type_specification]
#[verifier::external_body]
pub struct ExInstant(Instant);

/// The length of a duration in nanoseconds (`Duration::as_nanos`).
pub uninterp spec fn duration_nanos(d: Duration) -> nat;

/// Nanoseconds in `Duration::MAX` (`u64::MAX` seconds and 999,999,999 ns).
pub open spec fn max_duration_nanos() -> nat {
    18446744073709551615nat * 1_000_000_000nat + 999_999_999nat
}

/// Calls `Duration::as_nanos`: the total number of nanoseconds, which std
/// documents as at most that of `Duration::MAX`.
#[verifier::external_body]
pub(crate) fn nanos_of(d: Duration) -> (n: u128)
    ensures
        n == duration_nanos(d),
        n <= max_duration_nanos(),
{
    d.as_nanos()
}

/// Calls `Duration::new(secs, nanos)`: the duration of `secs` seconds and
/// `nanos` nanoseconds (no carry, since `nanos` is below one second).
#[verifier::external_body]
pub(crate) fn duration_new(secs: u64, nanos: u32) -> (d: Duration)
    requires
        nanos < 1_000_000_000,
    ensures
        duration_nanos(d) == secs * 1_000_000_000 + nanos,
{
    Duration::new(secs, nanos)
}

/// Calls `Instant::now`. Nothing is promised of the reading.
#[verifier::external_body]
pub(crate) fn instant_now() -> (t: Instant) {
    Instant::now()
}

/// The time from `earlier` to `later` in nanoseconds, as
/// `Instant::duration_since` reports it.
pub uninterp spec fn instant_gap_nanos(later: Instant, earlier: Instant) -> nat;

/// Calls `Instant::duration_since(later, earlier)`. Its length is named
/// `instant_gap_nanos`; nothing more is stated of it.
#[verifier::external_body]
pub(crate) fn elapsed_between(later: Instant, earlier: Instant) -> (d: Duration)
    ensures
        duration_nanos(d) == instant_gap_nanos(later, earlier),
{
    later.duration_since(earlier)
}

/// A duration of `millis` milliseconds, built from whole seconds and
/// nanoseconds.
pub fn duration_from_millis(millis: u64) -> (d: Duration)
    ensures
        duration_nanos(d) == millis * 1_000_000,
{
    let secs = millis / 1000;
    let rem = millis % 1000;
    let nanos: u32 = (rem * 1_000_000) as u32;
    let d = duration_new(secs, nanos);
    assert(secs * 1_000_000_000 + nanos == millis * 1_000_000) by (nonlinear_arith)
        requires secs == millis / 1000, rem == millis % 1000, nanos == rem * 1_000_000;
    d
}

/// A duration of `nanos` nanoseconds, for values up to `Duration::MAX`.
pub fn duration_from_nanos(nanos: u128) -> (d: Duration)
    requires
        nanos <= max_duration_nanos(),
    ensures
        duration_nanos(d) == nanos,
{
    let secs = nanos / 1_000_000_000;
    let sub = nanos % 1_000_000_000;
    assert(secs <= 18446744073709551615) by (nonlinear_arith)
        requires secs == nanos / 1_000_000_000, nanos <= max_duration_nanos();
    let d = duration_new(secs as u64, sub as u32);
    assert(secs * 1_000_000_000 + sub == nanos) by (nonlinear_arith)
        requires secs == nanos / 1_000_000_000, sub == nanos % 1_000_000_000;
    d
}

} // verus!
