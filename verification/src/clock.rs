//! Time as the library sees it.
//!
//! A point in time is a number of nanoseconds on a monotonic clock whose origin the caller
//! chooses. A length of time is a `Duration`.
use std::time::Duration;
use vstd::prelude::*;

verus! {

/// The nanoseconds in one second.
pub const NANOS_PER_SEC: u64 = 1_000_000_000;

/// The total number of nanoseconds in `d`, as `Duration::as_nanos` returns it.
pub uninterp spec fn nanos(d: Duration) -> nat;

/// `Duration::from_secs` makes a length of exactly `secs` seconds.
pub assume_specification[ Duration::from_secs ](secs: u64) -> (d: Duration)
    ensures
        nanos(d) == secs * NANOS_PER_SEC,
;

/// `Duration::as_nanos` returns the total number of nanoseconds of a length.
pub assume_specification[ Duration::as_nanos ](d: &Duration) -> (n: u128)
    ensures
        n == nanos(*d),
;

/// The point that lies `ttl` after `now`, or the last representable point if that one is
/// beyond it.
pub open spec fn deadline(now: u64, ttl: Duration) -> u128 {
    if now + nanos(ttl) <= u128::MAX {
        (now + nanos(ttl)) as u128
    } else {
        u128::MAX
    }
}

/// The time that has passed from `since` to `now`; none if `since` is later.
pub open spec fn elapsed(now: u64, since: u64) -> nat {
    if now >= since {
        (now - since) as nat
    } else {
        0
    }
}

/// The point that lies `ttl` after `now`.
pub fn deadline_after(now: u64, ttl: Duration) -> (at: u128)
    ensures
        at == deadline(now, ttl),
{
    (now as u128).saturating_add(ttl.as_nanos())
}

/// Whether less than `ttl` has passed from `since` to `now`.
pub fn is_within(now: u64, since: u64, ttl: Duration) -> (within: bool)
    ensures
        within == (elapsed(now, since) < nanos(ttl)),
{
    (now.saturating_sub(since) as u128) < ttl.as_nanos()
}

/// The time that has passed is what separates the two points, and none if they are in the other
/// order.
pub proof fn law_elapsed(now: u64, since: u64)
    ensures
        since <= now ==> since + elapsed(now, since) == now,
        now <= since ==> elapsed(now, since) == 0,
{
}

/// A deadline lies as far after a point as the length says, unless no such point can be written
/// down; then it is later than every point.
pub proof fn law_deadline(now: u64, ttl: Duration, later: u64)
    ensures
        now + nanos(ttl) <= u128::MAX ==> deadline(now, ttl) == now + nanos(ttl),
        now + nanos(ttl) > u128::MAX ==> deadline(now, ttl) > later,
{
}

} // verus!
