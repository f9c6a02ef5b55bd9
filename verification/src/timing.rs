//! Instants, ages and the windows that decide when pending state expires.

use vstd::prelude::*;

verus! {

/// Time elapsed between the instant `at` and the later reading `now`; zero when
/// `now` does not lie after `at`.
pub open spec fn age(now: nat, at: nat) -> nat {
    if now >= at {
        (now - at) as nat
    } else {
        0
    }
}

/// Computes how long ago `at` was, seen from `now`.
pub fn age_of(now: u64, at: u64) -> (elapsed: u64)
    ensures
        elapsed as nat == age(now as nat, at as nat),
{
    if now >= at {
        now - at
    } else {
        0
    }
}

/// The windows of a handler as plain numbers, all in the unit of its instants.
pub struct TimingView {
    /// Least time between two sweeps.
    pub cadence: nat,
    /// Age beyond which an unmatched rename-from counts as a removal.
    pub dangling_timeout: nat,
    /// Age at which the marker of a resolved rename is dropped.
    pub suppression_window: nat,
    /// Age at which a pending update is flushed.
    pub flush_delay: nat,
}

impl TimingView {
    /// A burst must be seen at rest before it is flushed, so the flush delay is
    /// longer than the time between two sweeps.
    pub open spec fn wf(self) -> bool {
        self.flush_delay > self.cadence
    }

    /// The windows that follow from a base cadence alone.
    pub open spec fn of_cadence(cadence: nat) -> TimingView {
        TimingView {
            cadence,
            dangling_timeout: cadence,
            suppression_window: cadence,
            flush_delay: 5 * cadence,
        }
    }
}

/// Why a set of windows was refused.
#[derive(Debug, Clone, Copy, PartialEq, Eq)]
pub enum TimingError {
    /// The flush delay is not longer than the cadence.
    FlushNotAfterCadence,
    /// A window derived from the cadence does not fit the instants' range.
    OutOfRange,
}

/// The windows of a handler, all in the unit of its instants.
#[derive(Debug, Clone, Copy, PartialEq, Eq)]
pub struct Timing {
    cadence: u64,
    dangling_timeout: u64,
    suppression_window: u64,
    flush_delay: u64,
}

impl View for Timing {
    type V = TimingView;

    closed spec fn view(&self) -> TimingView {
        TimingView {
            cadence: self.cadence as nat,
            dangling_timeout: self.dangling_timeout as nat,
            suppression_window: self.suppression_window as nat,
            flush_delay: self.flush_delay as nat,
        }
    }
}

impl Timing {
    /// The flush delay is longer than the cadence.
    #[verifier::type_invariant]
    pub open spec fn inv(&self) -> bool {
        self@.wf()
    }

    /// Windows chosen one by one. They are refused when the flush delay is not
    /// longer than the cadence.
    pub fn new(
        cadence: u64,
        dangling_timeout: u64,
        suppression_window: u64,
        flush_delay: u64,
    ) -> (made: Result<Timing, TimingError>)
        ensures
            flush_delay > cadence ==> made is Ok && made->Ok_0@ == (TimingView {
                cadence: cadence as nat,
                dangling_timeout: dangling_timeout as nat,
                suppression_window: suppression_window as nat,
                flush_delay: flush_delay as nat,
            }),
            flush_delay <= cadence ==> made == Err::<Timing, TimingError>(
                TimingError::FlushNotAfterCadence,
            ),
    {
        if flush_delay > cadence {
            Ok(Timing { cadence, dangling_timeout, suppression_window, flush_delay })
        } else {
            Err(TimingError::FlushNotAfterCadence)
        }
    }

    /// The usual windows for a base cadence: a rename-from dangles for one
    /// cadence, a resolved rename is remembered for one cadence, and an update
    /// is flushed five cadences after its last event.
    pub fn from_cadence(cadence: u64) -> (made: Result<Timing, TimingError>)
        ensures
            0 < cadence && 5 * cadence <= u64::MAX ==> made is Ok && made->Ok_0@
                == TimingView::of_cadence(cadence as nat),
            cadence == 0 ==> made == Err::<Timing, TimingError>(TimingError::FlushNotAfterCadence),
            5 * cadence > u64::MAX ==> made == Err::<Timing, TimingError>(TimingError::OutOfRange),
    {
        if cadence == 0 {
            Err(TimingError::FlushNotAfterCadence)
        } else if cadence > u64::MAX / 5 {
            Err(TimingError::OutOfRange)
        } else {
            Ok(
                Timing {
                    cadence,
                    dangling_timeout: cadence,
                    suppression_window: cadence,
                    flush_delay: 5 * cadence,
                },
            )
        }
    }

    /// Least time between two sweeps.
    pub fn cadence(&self) -> (c: u64)
        ensures
            c as nat == self@.cadence,
    {
        self.cadence
    }

    /// Age beyond which an unmatched rename-from counts as a removal.
    pub fn dangling_timeout(&self) -> (d: u64)
        ensures
            d as nat == self@.dangling_timeout,
    {
        self.dangling_timeout
    }

    /// Age at which the marker of a resolved rename is dropped.
    pub fn suppression_window(&self) -> (w: u64)
        ensures
            w as nat == self@.suppression_window,
    {
        self.suppression_window
    }

    /// Age at which a pending update is flushed.
    pub fn flush_delay(&self) -> (f: u64)
        ensures
            f as nat == self@.flush_delay,
    {
        self.flush_delay
    }
}

} // verus!
