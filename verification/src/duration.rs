//! Lengths of time.

use std::time::Duration;
use vstd::prelude::*;

verus! {

/// The length of a `Duration` in nanoseconds, as `Duration::as_nanos` gives it.
pub uninterp spec fn nanos(d: Duration) -> nat;

/// `Duration::as_nanos`: the whole length in nanoseconds, which is at most `u64::MAX` seconds
/// and 999,999,999 nanoseconds.
pub assume_specification[ std::time::Duration::as_nanos ](d: &std::time::Duration) -> (r: u128)
    ensures
        r == nanos(*d),
        r <= 18_446_744_073_709_551_615_999_999_999,
;

/// `Duration::from_secs`: so many seconds.
pub assume_specification[ std::time::Duration::from_secs ](secs: u64) -> (r: std::time::Duration)
    ensures
        nanos(r) == secs as nat * 1_000_000_000,
;

/// `Duration::from_millis`: so many thousandths of a second.
pub assume_specification[ std::time::Duration::from_millis ](millis: u64) -> (r: std::time::Duration)
    ensures
        nanos(r) == millis as nat * 1_000_000,
;

/// `Duration::new`: so many seconds and nanoseconds. The call panics where the nanoseconds
/// carry over into more seconds than there can be.
pub assume_specification[ std::time::Duration::new ](secs: u64, rest: u32) -> (r: std::time::Duration)
    requires
        rest < 1_000_000_000,
    ensures
        nanos(r) == secs as nat * 1_000_000_000 + rest,
;

/// So many nanoseconds in whole milliseconds, of which the lowest 64 bits are kept.
pub open spec fn millis_of(n: nat) -> u64 {
    ((n / 1_000_000) as u128) as u64
}

/// So many nanoseconds in whole milliseconds.
pub fn whole_millis(n: u128) -> (r: u64)
    ensures
        r == millis_of(n as nat),
{
    #[verifier::truncate]
    ((n / 1_000_000) as u64)
}

} // verus!
