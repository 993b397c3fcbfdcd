//! Moments on a monotonic clock.

use vstd::prelude::*;
use crate::binary64::Binary64;

verus! {

pub const NANOS_PER_SEC: u64 = 1_000_000_000;

/// A moment, in nanoseconds since some fixed earlier moment.
#[derive(Clone, Copy, Debug)]
pub struct Instant {
    pub nanos: u64,
}

/// A span of nanoseconds, in seconds.
pub open spec fn seconds_of(nanos: int) -> Binary64 {
    Binary64::integer(nanos / NANOS_PER_SEC as int).sum(
        Binary64::integer(nanos % NANOS_PER_SEC as int).quotient(
            Binary64::integer(NANOS_PER_SEC as int),
        ),
    )
}

impl Instant {
    /// The seconds from this moment to `now`, 0 if this moment is later.
    pub open spec fn age_at(self, now: Instant) -> Binary64 {
        seconds_of(
            if now.nanos > self.nanos {
                now.nanos - self.nanos
            } else {
                0
            },
        )
    }

    pub fn elapsed_secs(self, now: Instant) -> (secs: Binary64)
        ensures
            secs == self.age_at(now),
    {
        let nanos: u64 = now.nanos.saturating_sub(self.nanos);
        let whole: Binary64 = Binary64::from_u64(nanos / NANOS_PER_SEC);
        let part: Binary64 = Binary64::from_u64(nanos % NANOS_PER_SEC);
        whole.add(part.div(Binary64::from_u64(NANOS_PER_SEC)))
    }
}

} // verus!
