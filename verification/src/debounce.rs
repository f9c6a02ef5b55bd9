//! Coalesces bursts of data events on one path into a single deferred update.

use vstd::prelude::*;
use crate::table::{aged, distinct, fresh, paths_of, recorded, stamp_of, PathTable, Stamped};

verus! {

/// The paths with content changes that have not been flushed yet, each with the
/// instant of its latest event.
#[derive(Debug)]
pub struct UpdateDebouncer {
    pending: PathTable,
}

impl View for UpdateDebouncer {
    type V = Seq<Stamped>;

    closed spec fn view(&self) -> Seq<Stamped> {
        self.pending@
    }
}

impl UpdateDebouncer {
    /// No path waits twice.
    #[verifier::type_invariant]
    pub open spec fn inv(&self) -> bool {
        distinct(self@)
    }

    fn take_pending(&mut self) -> (pending: PathTable)
        ensures
            pending@ == old(self)@,
    {
        let mut pending = PathTable::new();
        core::mem::swap(&mut self.pending, &mut pending);
        pending
    }

    /// A debouncer with nothing pending.
    pub fn new() -> (d: UpdateDebouncer)
        ensures
            d@ == Seq::<Stamped>::empty(),
            distinct(d@),
    {
        UpdateDebouncer { pending: PathTable::new() }
    }

    /// Notes that `path` changed at the instant `now`. This restarts the wait
    /// for the path: what was pending for it before is replaced.
    pub fn on_data_event(&mut self, path: String, now: u64)
        ensures
            final(self)@ == recorded(old(self)@, path@, now as nat),
            distinct(final(self)@),
    {
        let mut pending = self.take_pending();
        pending.record(path, now);
        self.pending = pending;
    }

    /// Hands out, in the order of their latest events, the paths whose latest
    /// event is at least `flush_age` old at the instant `now`, and stops
    /// waiting for them. Younger entries stay as they are.
    pub fn sweep(&mut self, now: u64, flush_age: u64) -> (due: Vec<String>)
        ensures
            final(self)@ == fresh(old(self)@, now as nat, flush_age as nat),
            distinct(final(self)@),
            due.deep_view() == paths_of(aged(old(self)@, now as nat, flush_age as nat)),
    {
        let mut pending = self.take_pending();
        let due = pending.drain_aged(now, flush_age);
        self.pending = pending;
        due
    }

    /// The instant of the latest event on `path` that has not been flushed.
    pub fn pending_since(&self, path: &String) -> (at: Option<u64>)
        ensures
            stamp_of(self@, path@) == match at {
                Some(a) => Some(a as nat),
                None => None,
            },
    {
        self.pending.stamp(path)
    }

    /// The number of paths that wait for a flush.
    pub fn len(&self) -> (n: usize)
        ensures
            n == self@.len(),
    {
        self.pending.len()
    }
}

} // verus!
