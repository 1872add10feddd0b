//! Lengths of time.

use std::time::Duration;

use vstd::prelude::*;

verus! {

/// The number of nanoseconds in a second.
pub const NANOS_PER_SEC: u32 = 1_000_000_000;

/// The whole seconds of a length of time.
pub uninterp spec fn whole_secs(d: Duration) -> nat;

/// The nanoseconds of a length of time that are left over the whole seconds.
pub uninterp spec fn extra_nanos(d: Duration) -> nat;

/// A length of time in nanoseconds.
pub open spec fn nanos(d: Duration) -> nat {
    whole_secs(d) * 1_000_000_000 + extra_nanos(d)
}

/// The nanoseconds of the longest length of time.
pub open spec fn max_nanos() -> nat {
    u64::MAX as nat * 1_000_000_000 + 999_999_999
}

/// `Duration::as_secs` of std gives the whole seconds.
pub assume_specification[ std::time::Duration::as_secs ](d: &std::time::Duration) -> (out: u64)
    ensures
        out == whole_secs(*d),
;

/// `Duration::subsec_nanos` of std gives what is left over the whole seconds, always less than a
/// second.
pub assume_specification[ std::time::Duration::subsec_nanos ](d: &std::time::Duration) -> (out:
    u32)
    ensures
        out == extra_nanos(*d),
        out < 1_000_000_000,
;

/// `Duration::new` of std makes a length of time from whole seconds and nanoseconds. With less
/// than a second of nanoseconds nothing is carried over, so nothing can overflow.
pub assume_specification[ std::time::Duration::new ](s: u64, n: u32) -> (out: std::time::Duration)
    requires
        n < 1_000_000_000,
    ensures
        whole_secs(out) == s,
        extra_nanos(out) == n,
;

/// A length of time in nanoseconds.
pub fn to_nanos(d: Duration) -> (out: u128)
    ensures
        out == nanos(d),
        out <= max_nanos(),
{
    let secs: u64 = d.as_secs();
    let extra: u32 = d.subsec_nanos();
    secs as u128 * 1_000_000_000 + extra as u128
}

/// The length of time that `n` nanoseconds make.
pub fn from_nanos(n: u128) -> (out: Duration)
    requires
        n <= max_nanos(),
    ensures
        nanos(out) == n,
{
    let secs: u128 = n / 1_000_000_000;
    let extra: u128 = n % 1_000_000_000;
    Duration::new(secs as u64, extra as u32)
}

} // verus!
