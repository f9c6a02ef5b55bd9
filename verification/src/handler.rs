//! The handler of one watched location: it owns the pending state, takes the
//! classified events and the ticks of the clock, and says what to ask of the
//! index.

use vstd::prelude::*;
use crate::action::{Action, ActionView, EventError};
use crate::clock::Clock;
use crate::debounce::UpdateDebouncer;
use crate::mutation::{
    push_removals, push_updates, removals_for, updates_for, Emission, EmissionView, Mutation,
    MutationView,
};
use crate::rename::{
    lemma_rename_both_wf, lemma_rename_from_wf, lemma_sweeps_wf, RenameCorrelator, RenamesView,
};
use crate::table::{
    aged, distinct, fresh, lemma_fresh_lookup, lemma_recorded_lookup, paths_of, recorded,
    stamp_of, Stamped,
};
use crate::timing::{age, age_of, Timing, TimingView};

verus! {

/// How the lookup of the metadata that an action needs went. For an action that
/// needs none, either value is taken to mean that nothing stands in its way.
#[derive(Debug, Clone, Copy, PartialEq, Eq)]
pub enum Probe {
    Found,
    Failed,
}

/// The state of a handler as plain values.
pub struct HandlerView {
    pub timing: TimingView,
    /// The instant of the latest sweep, or of the start where there was none.
    pub last_check: nat,
    /// Paths with content changes that have not been flushed.
    pub updates: Seq<Stamped>,
    pub renames: RenamesView,
}

impl HandlerView {
    /// The windows and all three tables are well formed.
    pub open spec fn wf(self) -> bool {
        &&& self.timing.wf()
        &&& distinct(self.updates)
        &&& self.renames.wf()
    }

    /// The state of a handler that starts at the instant `now`.
    pub open spec fn started(timing: TimingView, now: nat) -> HandlerView {
        HandlerView {
            timing,
            last_check: now,
            updates: Seq::empty(),
            renames: RenamesView { dangling: Seq::empty(), resolved: Seq::empty() },
        }
    }

    /// Whether the action cannot be handled because its metadata is missing.
    pub open spec fn refused(action: ActionView, probe: Probe) -> bool {
        action.metadata_path() is Some && probe is Failed
    }

    /// The state after the action was handled at the instant `now`. A refused
    /// action changes nothing.
    pub open spec fn after_event(self, action: ActionView, probe: Probe, now: nat) -> HandlerView {
        if Self::refused(action, probe) {
            self
        } else {
            match action {
                ActionView::CreateFile(path) => HandlerView {
                    updates: recorded(self.updates, path, now),
                    ..self
                },
                ActionView::DataChanged(path) => HandlerView {
                    updates: recorded(self.updates, path, now),
                    ..self
                },
                ActionView::RenameFrom(path) => HandlerView {
                    renames: self.renames.after_rename_from(path, now),
                    ..self
                },
                ActionView::RenameBoth { new_path, old_path } => HandlerView {
                    renames: self.renames.after_rename_both(old_path, now),
                    ..self
                },
                _ => self,
            }
        }
    }

    /// What handling the action asks of the index at once. Content changes and
    /// the first half of a rename ask nothing yet.
    pub open spec fn event_emission(action: ActionView) -> EmissionView {
        match action {
            ActionView::CreateDir(path) => EmissionView {
                mutations: seq![MutationView::CreateDir(path)],
                notify_changed: false,
            },
            ActionView::RenameBoth { new_path, old_path } => EmissionView {
                mutations: seq![MutationView::Rename { new_path, old_path }],
                notify_changed: true,
            },
            ActionView::Remove(path) => EmissionView {
                mutations: seq![MutationView::Remove(path)],
                notify_changed: true,
            },
            _ => EmissionView::nothing(),
        }
    }

    /// The result of handling the action.
    pub open spec fn event_outcome(action: ActionView, probe: Probe) -> Result<
        EmissionView,
        EventError,
    > {
        if Self::refused(action, probe) {
            Err(EventError::MetadataUnavailable)
        } else {
            Ok(Self::event_emission(action))
        }
    }

    /// What a sweep at the instant `now` asks of the index: first an update for
    /// each path whose latest change is at least the flush delay old, then a
    /// removal for each path that has dangled for longer than the timeout.
    pub open spec fn sweep_mutations(self, now: nat) -> Seq<MutationView> {
        updates_for(paths_of(aged(self.updates, now, self.timing.flush_delay))) + removals_for(
            self.renames.overdue(now, self.timing.dangling_timeout),
        )
    }

    /// What a sweep at the instant `now` hands out. One signal stands for all
    /// its mutations.
    pub open spec fn sweep_emission(self, now: nat) -> EmissionView {
        EmissionView {
            mutations: self.sweep_mutations(now),
            notify_changed: self.sweep_mutations(now).len() > 0,
        }
    }

    /// The state after a sweep at the instant `now`: what was handed out is no
    /// longer pending, old markers are dropped, and the cadence counts from
    /// `now`.
    pub open spec fn after_sweep(self, now: nat) -> HandlerView {
        HandlerView {
            timing: self.timing,
            last_check: now,
            updates: fresh(self.updates, now, self.timing.flush_delay),
            renames: self.renames.after_dangling_sweep(
                now,
                self.timing.dangling_timeout,
            ).after_marker_sweep(now, self.timing.suppression_window),
        }
    }

    /// Whether more than a cadence has passed since the latest sweep.
    pub open spec fn tick_due(self, now: nat) -> bool {
        age(now, self.last_check) > self.timing.cadence
    }

    /// The state after a tick at the instant `now`.
    pub open spec fn after_tick(self, now: nat) -> HandlerView {
        if self.tick_due(now) {
            self.after_sweep(now)
        } else {
            self
        }
    }

    /// What a tick at the instant `now` hands out.
    pub open spec fn tick_emission(self, now: nat) -> EmissionView {
        if self.tick_due(now) {
            self.sweep_emission(now)
        } else {
            EmissionView::nothing()
        }
    }
}

/// Handling an action keeps the state well formed.
pub proof fn lemma_event_wf(s: HandlerView, action: ActionView, probe: Probe, now: nat)
    requires
        s.wf(),
    ensures
        s.after_event(action, probe, now).wf(),
{
    match action {
        ActionView::CreateFile(path) => {
            lemma_recorded_lookup(s.updates, path, now, path);
        },
        ActionView::DataChanged(path) => {
            lemma_recorded_lookup(s.updates, path, now, path);
        },
        ActionView::RenameFrom(path) => {
            lemma_rename_from_wf(s.renames, path, now);
        },
        ActionView::RenameBoth { new_path, old_path } => {
            lemma_rename_both_wf(s.renames, old_path, now);
        },
        _ => {},
    }
}

/// A sweep and a tick keep the state well formed.
pub proof fn lemma_sweep_wf(s: HandlerView, now: nat)
    requires
        s.wf(),
    ensures
        s.after_sweep(now).wf(),
        s.after_tick(now).wf(),
{
    lemma_fresh_lookup(s.updates, now, s.timing.flush_delay, Seq::empty());
    lemma_sweeps_wf(s.renames, now, s.timing.dangling_timeout);
    lemma_sweeps_wf(
        s.renames.after_dangling_sweep(now, s.timing.dangling_timeout),
        now,
        s.timing.suppression_window,
    );
}

/// The handler of one watched location.
#[derive(Debug)]
pub struct WatchHandler {
    timing: Timing,
    last_check: u64,
    debouncer: UpdateDebouncer,
    correlator: RenameCorrelator,
}

impl View for WatchHandler {
    type V = HandlerView;

    closed spec fn view(&self) -> HandlerView {
        HandlerView {
            timing: self.timing@,
            last_check: self.last_check as nat,
            updates: self.debouncer@,
            renames: self.correlator@,
        }
    }
}

impl WatchHandler {
    /// A handler with nothing pending, whose cadence counts from `now`.
    pub fn new(timing: Timing, now: u64) -> (handler: WatchHandler)
        ensures
            handler@ == HandlerView::started(timing@, now as nat),
            handler@.wf(),
    {
        proof {
            use_type_invariant(&timing);
        }
        WatchHandler {
            timing,
            last_check: now,
            debouncer: UpdateDebouncer::new(),
            correlator: RenameCorrelator::new(),
        }
    }

    /// A handler with nothing pending, whose cadence counts from the present
    /// reading of `clock`. The reading is the first part of the result.
    pub fn start(timing: Timing, clock: &Clock) -> (started: (u64, WatchHandler))
        ensures
            started.1@ == HandlerView::started(timing@, started.0 as nat),
            started.1@.wf(),
    {
        let now = clock.now();
        (now, WatchHandler::new(timing, now))
    }

    /// Handles one classified event at the instant `now`. `probe` says how the
    /// lookup of the metadata went that [`Action::metadata_path`] asked for.
    ///
    /// Content changes are noted for a later flush. A new directory, a whole
    /// rename and a removal are handed out at once. Where the metadata is
    /// missing, the event fails and nothing changes.
    pub fn handle_event(&mut self, action: Action, probe: Probe, now: u64) -> (out: Result<
        Emission,
        EventError,
    >)
        ensures
            final(self)@ == old(self)@.after_event(action.deep_view(), probe, now as nat),
            final(self)@.wf(),
            match out {
                Ok(emission) => HandlerView::event_outcome(action.deep_view(), probe) == Ok::<
                    EmissionView,
                    EventError,
                >(emission.deep_view()),
                Err(error) => HandlerView::event_outcome(action.deep_view(), probe) == Err::<
                    EmissionView,
                    EventError,
                >(error),
            },
    {
        proof {
            use_type_invariant(&self.timing);
            use_type_invariant(&self.debouncer);
            use_type_invariant(&self.correlator);
            lemma_event_wf(self@, action.deep_view(), probe, now as nat);
        }
        match action {
            Action::CreateFile(path) => {
                self.debouncer.on_data_event(path, now);
                Ok(Emission::nothing())
            },
            Action::DataChanged(path) => {
                self.debouncer.on_data_event(path, now);
                Ok(Emission::nothing())
            },
            Action::CreateDir(path) => match probe {
                Probe::Found => Ok(Emission::single(Mutation::CreateDir(path), false)),
                Probe::Failed => Err(EventError::MetadataUnavailable),
            },
            Action::RenameFrom(path) => {
                let _ = self.correlator.on_rename_from(path, now);
                Ok(Emission::nothing())
            },
            Action::RenameBoth { new_path, old_path } => match probe {
                Probe::Found => {
                    let rename = self.correlator.on_rename_both(new_path, old_path, now);
                    Ok(Emission::single(rename, true))
                },
                Probe::Failed => Err(EventError::MetadataUnavailable),
            },
            Action::Remove(path) => Ok(Emission::single(Mutation::Remove(path), true)),
            Action::Ignored => Ok(Emission::nothing()),
        }
    }

    /// Reads `clock` and handles the event at that instant, as
    /// [`WatchHandler::handle_event`] does. The reading is the first part of
    /// the result.
    pub fn handle_event_now(&mut self, clock: &Clock, action: Action, probe: Probe) -> (out: (
        u64,
        Result<Emission, EventError>,
    ))
        ensures
            final(self)@ == old(self)@.after_event(action.deep_view(), probe, out.0 as nat),
            final(self)@.wf(),
            match out.1 {
                Ok(emission) => HandlerView::event_outcome(action.deep_view(), probe) == Ok::<
                    EmissionView,
                    EventError,
                >(emission.deep_view()),
                Err(error) => HandlerView::event_outcome(action.deep_view(), probe) == Err::<
                    EmissionView,
                    EventError,
                >(error),
            },
    {
        let now = clock.now();
        let outcome = self.handle_event(action, probe, now);
        (now, outcome)
    }

    /// Sweeps all pending state at the instant `now`, whatever the cadence:
    /// flushes the updates that are due, gives up the renames that dangled too
    /// long, drops old markers, and lets the cadence count from `now`.
    pub fn sweep(&mut self, now: u64) -> (out: Emission)
        ensures
            final(self)@ == old(self)@.after_sweep(now as nat),
            final(self)@.wf(),
            out.deep_view() == old(self)@.sweep_emission(now as nat),
    {
        proof {
            use_type_invariant(&self.timing);
            use_type_invariant(&self.debouncer);
            use_type_invariant(&self.correlator);
            lemma_sweep_wf(self@, now as nat);
        }
        let mut mutations: Vec<Mutation> = Vec::new();
        assert(mutations.deep_view() =~= Seq::<MutationView>::empty());
        let due = self.debouncer.sweep(now, self.timing.flush_delay());
        push_updates(&mut mutations, due);
        let gone = self.correlator.sweep_dangling_renames(now, self.timing.dangling_timeout());
        push_removals(&mut mutations, gone);
        self.correlator.sweep_resolved_markers(now, self.timing.suppression_window());
        self.last_check = now;
        assert(mutations.deep_view() =~= old(self)@.sweep_mutations(now as nat));
        let notify_changed = mutations.len() > 0;
        Emission { mutations, notify_changed }
    }

    /// Whether more than a cadence has passed since the latest sweep.
    pub fn tick_due(&self, now: u64) -> (due: bool)
        ensures
            due == self@.tick_due(now as nat),
    {
        age_of(now, self.last_check) > self.timing.cadence()
    }

    /// The periodic step: a sweep, unless the latest one is no more than a
    /// cadence ago; then nothing happens and the cadence goes on counting from
    /// that sweep.
    pub fn tick(&mut self, now: u64) -> (out: Emission)
        ensures
            final(self)@ == old(self)@.after_tick(now as nat),
            final(self)@.wf(),
            out.deep_view() == old(self)@.tick_emission(now as nat),
    {
        proof {
            use_type_invariant(&self.timing);
            use_type_invariant(&self.debouncer);
            use_type_invariant(&self.correlator);
        }
        if self.tick_due(now) {
            self.sweep(now)
        } else {
            Emission::nothing()
        }
    }

    /// Reads `clock` and takes the periodic step at that instant, as
    /// [`WatchHandler::tick`] does. The reading is the first part of the
    /// result.
    pub fn tick_now(&mut self, clock: &Clock) -> (out: (u64, Emission))
        ensures
            final(self)@ == old(self)@.after_tick(out.0 as nat),
            final(self)@.wf(),
            out.1.deep_view() == old(self)@.tick_emission(out.0 as nat),
    {
        let now = clock.now();
        let emission = self.tick(now);
        (now, emission)
    }

    /// The windows that the handler was made with.
    pub fn timing(&self) -> (timing: Timing)
        ensures
            timing@ == self@.timing,
    {
        self.timing
    }

    /// The instant of the latest sweep, or of the start where there was none.
    pub fn last_check(&self) -> (at: u64)
        ensures
            at as nat == self@.last_check,
    {
        self.last_check
    }

    /// The instant of the latest content change on `path` that waits for a
    /// flush.
    pub fn pending_update(&self, path: &String) -> (at: Option<u64>)
        ensures
            stamp_of(self@.updates, path@) == match at {
                Some(a) => Some(a as nat),
                None => None,
            },
    {
        self.debouncer.pending_since(path)
    }

    /// The instant from which `path` has dangled as the source of a move.
    pub fn dangling_since(&self, path: &String) -> (at: Option<u64>)
        ensures
            stamp_of(self@.renames.dangling, path@) == match at {
                Some(a) => Some(a as nat),
                None => None,
            },
    {
        self.correlator.dangling_since(path)
    }

    /// The instant at which a rename away from `path` was resolved, while its
    /// marker lasts.
    pub fn resolved_at(&self, path: &String) -> (at: Option<u64>)
        ensures
            stamp_of(self@.renames.resolved, path@) == match at {
                Some(a) => Some(a as nat),
                None => None,
            },
    {
        self.correlator.resolved_at(path)
    }
}

} // verus!
