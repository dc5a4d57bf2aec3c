//! The wall clock that bounds a search.

use vstd::prelude::*;

verus! {

/// `std::time::Instant`, a reading of the monotonic clock, as an opaque
/// type.
#[verifier::external_type_specification]
#[verifier::external_body]
pub struct ExInstant(std::time::Instant);

/// `Instant::now` reads the monotonic clock. Nothing is claimed of the
/// reading.
pub assume_specification[ std::time::Instant::now ]() -> (now: std::time::Instant)
;

/// `Instant::elapsed` is the time that has passed since the instant was
/// taken. Nothing is claimed of its length.
pub assume_specification[ std::time::Instant::elapsed ](start: &std::time::Instant) -> (spent:
    core::time::Duration)
;

/// `Duration::as_nanos` is the duration in whole nanoseconds. Nothing is
/// claimed of the number.
pub assume_specification[ core::time::Duration::as_nanos ](d: &core::time::Duration) -> (nanos:
    u128)
;

/// A time budget that started to run when the clock was made. Once the
/// clock has been seen expired it stays so.
pub struct Clock {
    pub start: std::time::Instant,
    pub limit_nanos: u128,
    pub expired: bool,
}

impl Clock {
    /// A clock that expires `limit_nanos` nanoseconds from now.
    pub fn start(limit_nanos: u128) -> (clock: Clock)
        ensures
            !clock.expired,
            clock.limit_nanos == limit_nanos,
    {
        Clock { start: std::time::Instant::now(), limit_nanos, expired: false }
    }

    /// Takes a reading of the time spent since the start, in nanoseconds:
    /// the clock is expired if it was so before or if the reading has
    /// reached the limit.
    pub fn observe(&mut self, spent_nanos: u128) -> (expired: bool)
        ensures
            expired == (old(self).expired || spent_nanos >= old(self).limit_nanos),
            final(self).expired == expired,
            final(self).limit_nanos == old(self).limit_nanos,
            final(self).start == old(self).start,
    {
        if spent_nanos >= self.limit_nanos {
            self.expired = true;
        }
        self.expired
    }

    /// Whether the budget is spent: reads the wall clock and hands the
    /// reading to `observe`. A clock that has expired stays expired, and a
    /// clock with a budget of 0 expires at the first reading, whatever it is.
    pub fn check(&mut self) -> (expired: bool)
        ensures
            expired == final(self).expired,
            old(self).expired ==> expired,
            old(self).limit_nanos == 0 ==> expired,
            final(self).limit_nanos == old(self).limit_nanos,
            final(self).start == old(self).start,
    {
        let spent = self.start.elapsed();
        self.observe(spent.as_nanos())
    }
}

} // verus!
