//! Specifications for the parts of `std::time::Duration` that the scheduler
//! and the configuration resolver rely on.

use std::time::Duration;
use vstd::prelude::*;

verus! {

/// Number of nanoseconds in one second.
pub const NANOS_PER_SEC: u128 = 1_000_000_000;

/// The length of a `Duration` in whole nanoseconds.
pub uninterp spec fn duration_nanos(d: Duration) -> nat;

/// `Duration::from_secs` builds a span of exactly `secs` seconds.
pub assume_specification[ Duration::from_secs ](secs: u64) -> (d: Duration)
    ensures
        duration_nanos(d) == secs as nat * 1_000_000_000,
;

/// `Duration::as_secs` returns the whole seconds of the span.
pub assume_specification[ Duration::as_secs ](d: &Duration) -> (secs: u64)
    ensures
        secs as nat == duration_nanos(*d) / 1_000_000_000,
;

/// `Duration::subsec_nanos` returns the part of the span below one second,
/// in nanoseconds.
pub assume_specification[ Duration::subsec_nanos ](d: &Duration) -> (nanos: u32)
    ensures
        nanos as nat == duration_nanos(*d) % 1_000_000_000,
;

/// `Duration::new` builds a span of `secs` seconds and `nanos` nanoseconds.
/// It panics where the nanoseconds carry over into seconds that overflow, so
/// only calls with less than one second of nanoseconds are admitted.
pub assume_specification[ Duration::new ](secs: u64, nanos: u32) -> (d: Duration)
    requires
        nanos < 1_000_000_000,
    ensures
        duration_nanos(d) == secs as nat * 1_000_000_000 + nanos as nat,
;

/// The length of `d` in nanoseconds.
pub fn total_nanos(d: &Duration) -> (n: u128)
    ensures
        n as nat == duration_nanos(*d),
        n / NANOS_PER_SEC <= u64::MAX,
{
    let secs = d.as_secs();
    let sub = d.subsec_nanos();
    let n: u128 = secs as u128 * NANOS_PER_SEC + sub as u128;
    assert(n / NANOS_PER_SEC == secs) by (nonlinear_arith)
        requires
            n == secs as u128 * NANOS_PER_SEC + sub as u128,
            sub < NANOS_PER_SEC,
            NANOS_PER_SEC == 1_000_000_000,
    ;
    n
}

/// The span of `n` nanoseconds.
pub fn from_total_nanos(n: u128) -> (d: Duration)
    requires
        n / NANOS_PER_SEC <= u64::MAX,
    ensures
        duration_nanos(d) == n as nat,
{
    let secs: u64 = (n / NANOS_PER_SEC) as u64;
    let sub: u32 = (n % NANOS_PER_SEC) as u32;
    Duration::new(secs, sub)
}

} // verus!
