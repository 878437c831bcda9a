//! The monotonic clock, as nanoseconds since a fixed origin.
use std::time::{Duration, Instant};
use vstd::prelude::*;

verus! {

/// `std::time::Instant`, an opaque reading of the monotonic clock.
#[verifier::external_type_specification]
#[verifier::external_body]
pub struct ExInstant(Instant);

/// `std::time::Instant::now`: the present reading of the clock, of which nothing is
/// claimed.
pub assume_specification[ Instant::now ]() -> (reading: Instant);

/// `std::time::Instant::elapsed`: the time that has passed since the reading, of which
/// nothing is claimed.
pub assume_specification[ Instant::elapsed ](reading: &Instant) -> (passed: Duration);

/// The number of whole nanoseconds in a `Duration`, as `Duration::as_nanos` gives it.
pub uninterp spec fn duration_nanos(duration: Duration) -> nat;

/// `std::time::Duration::as_nanos`: the total number of whole nanoseconds.
pub assume_specification[ Duration::as_nanos ](duration: &Duration) -> (nanos: u128)
    ensures
        nanos == duration_nanos(*duration),
;

/// `std::time::Duration::from_secs`: a duration of that many whole seconds.
pub assume_specification[ Duration::from_secs ](secs: u64) -> (duration: Duration)
    ensures
        duration_nanos(duration) == secs * 1_000_000_000,
;

/// `std::time::Duration::from_nanos`: a duration of that many nanoseconds.
pub assume_specification[ Duration::from_nanos ](nanos: u64) -> (duration: Duration)
    ensures
        duration_nanos(duration) == nanos,
;

/// The nanoseconds in one second.
pub const NANOS_PER_SEC: u64 = 1_000_000_000;

/// The time from `earlier` to `later`, or zero if `later` does not come later.
pub open spec fn time_between(earlier: nat, later: nat) -> nat {
    if later >= earlier {
        (later - earlier) as nat
    } else {
        0
    }
}

/// The time from `earlier` to `later`, or zero if `later` does not come later.
pub fn nanos_between(earlier: u64, later: u64) -> (nanos: u64)
    ensures
        nanos == time_between(earlier as nat, later as nat),
{
    if later >= earlier {
        later - earlier
    } else {
        0
    }
}

/// The time from `earlier` to `later` as a duration.
pub fn duration_between(earlier: u64, later: u64) -> (duration: Duration)
    ensures
        duration_nanos(duration) == time_between(earlier as nat, later as nat),
{
    Duration::from_nanos(nanos_between(earlier, later))
}

/// A number of nanoseconds as a `u64` can hold it: one beyond its range is the largest
/// value.
pub open spec fn counted(nanos: nat) -> nat {
    if nanos <= u64::MAX {
        nanos
    } else {
        u64::MAX as nat
    }
}

/// The nanoseconds in a duration. Those of one that is longer than a `u64` can count are
/// the largest value.
pub fn nanos_in(duration: Duration) -> (nanos: u64)
    ensures
        nanos == counted(duration_nanos(duration)),
{
    let nanos: u128 = duration.as_nanos();
    if nanos > u64::MAX as u128 {
        u64::MAX
    } else {
        nanos as u64
    }
}

/// A clock that counts nanoseconds from the moment it was started.
#[derive(Clone, Copy, Debug)]
pub struct Clock {
    origin: Instant,
}

impl Clock {
    /// Starts a clock.
    pub fn start() -> Clock {
        Clock { origin: Instant::now() }
    }

    /// The nanoseconds since the start: those of the duration that has passed, whichever it
    /// is. A clock that has run for longer than a `u64` can count stays at the largest value.
    pub fn now(&self) -> (now: u64)
        ensures
            exists|passed: Duration| now == counted(#[trigger] duration_nanos(passed)),
    {
        let passed = self.origin.elapsed();
        nanos_in(passed)
    }
}

/// The time between two readings is what brings the earlier one to the later one, and
/// there is none if the readings come in the other order.
pub proof fn law_time_between_adds_up(earlier: nat, later: nat, passed: nat)
    ensures
        time_between(earlier, earlier + passed) == passed,
        later <= earlier ==> time_between(earlier, later) == 0,
        earlier <= later ==> earlier + time_between(earlier, later) == later,
{
}

/// A count of nanoseconds that fits in 64 bits is kept as it is; a larger one stops at the
/// largest.
pub proof fn law_counts_stop_at_the_largest(nanos: nat)
    ensures
        nanos <= 0xffff_ffff_ffff_ffff ==> counted(nanos) == nanos,
        nanos > 0xffff_ffff_ffff_ffff ==> counted(nanos) == 0xffff_ffff_ffff_ffff,
{
}

} // verus!
