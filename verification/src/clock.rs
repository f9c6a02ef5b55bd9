//! The wall clock of a handler: instants are whole nanoseconds since the clock
//! was started.

use vstd::prelude::*;

verus! {

#[verifier::external_type_specification]
#[verifier::external_body]
pub struct ExInstant(tokio::time::Instant);

/// `tokio::time::Instant::now` reads the monotonic clock. What it reads depends
/// on when it is called, so nothing is claimed of the reading.
pub assume_specification[ tokio::time::Instant::now ]() -> (now: tokio::time::Instant)
;

/// `tokio::time::Instant::elapsed` gives the time from the instant to the
/// present reading of the clock, and zero where the instant lies ahead of it.
/// The length depends on when it is called, so nothing is claimed of it.
pub assume_specification[ tokio::time::Instant::elapsed ](at: &tokio::time::Instant) -> (elapsed:
    core::time::Duration)
;

/// `core::time::Duration::as_nanos` gives the length of a duration in whole
/// nanoseconds. A duration is opaque here, so nothing is claimed of the number.
pub assume_specification[ core::time::Duration::as_nanos ](d: &core::time::Duration) -> (nanos:
    u128)
;

/// The number `n` where it is an instant, and the last instant otherwise.
pub open spec fn saturated(n: nat) -> nat {
    if n <= u64::MAX {
        n
    } else {
        u64::MAX as nat
    }
}

/// Brings a count of nanoseconds into the range of instants.
pub fn saturate(nanos: u128) -> (at: u64)
    ensures
        at as nat == saturated(nanos as nat),
{
    if nanos <= u64::MAX as u128 {
        nanos as u64
    } else {
        u64::MAX
    }
}

/// A clock that counts nanoseconds from the moment it was started.
#[derive(Debug, Clone, Copy)]
pub struct Clock {
    origin: tokio::time::Instant,
}

impl Clock {
    /// Starts a clock at the present moment.
    pub fn start() -> Clock {
        Clock { origin: tokio::time::Instant::now() }
    }

    /// The present instant: the nanoseconds since the clock was started, or the
    /// last instant once they no longer fit.
    pub fn now(&self) -> u64 {
        let elapsed = self.origin.elapsed();
        saturate(elapsed.as_nanos())
    }
}

} // verus!
