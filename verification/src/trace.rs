//! Runs of a handler: what a sequence of events and ticks leaves behind and what
//! it asks of the index along the way. The laws of the crate are stated over
//! such runs.

use vstd::prelude::*;
use crate::action::ActionView;
use crate::handler::{lemma_event_wf, lemma_sweep_wf, HandlerView, Probe};
use crate::mutation::{removals_for, updates_for, MutationView};
use crate::table::{aged, distinct, holds, lemma_aged_lookup, paths_of, stamp_of, Stamped};
use crate::timing::age;

verus! {

/// One thing that happens to a handler.
pub enum Input {
    /// A classified event, with the outcome of its metadata lookup.
    Event { action: ActionView, probe: Probe, now: nat },
    /// A tick of the clock.
    Tick { now: nat },
}

impl Input {
    /// The instant at which it happens.
    pub open spec fn at(self) -> nat {
        match self {
            Input::Event { action, probe, now } => now,
            Input::Tick { now } => now,
        }
    }

    /// Whether it is a content change on `path`: the file was created or its
    /// data changed.
    pub open spec fn changes(self, path: Seq<char>) -> bool {
        match self {
            Input::Event { action, probe, now } => action == ActionView::CreateFile(path)
                || action == ActionView::DataChanged(path),
            Input::Tick { now } => false,
        }
    }

    /// Whether it is a content change on some path.
    pub open spec fn is_content_event(self) -> bool {
        match self {
            Input::Event { action, probe, now } => action is CreateFile || action is DataChanged,
            Input::Tick { now } => false,
        }
    }

    /// Whether it is one half of a rename or a whole one.
    pub open spec fn is_rename_event(self) -> bool {
        match self {
            Input::Event { action, probe, now } => action is RenameFrom || action is RenameBoth,
            Input::Tick { now } => false,
        }
    }

    /// Whether it is a rename-from on `path`.
    pub open spec fn starts_move(self, path: Seq<char>) -> bool {
        match self {
            Input::Event { action, probe, now } => action == ActionView::RenameFrom(path),
            Input::Tick { now } => false,
        }
    }

    /// Whether it is an event that moves something away from `path` or removes
    /// what is there.
    pub open spec fn displaces(self, path: Seq<char>) -> bool {
        match self {
            Input::Event { action, probe, now } => match action {
                ActionView::RenameFrom(p) => p == path,
                ActionView::RenameBoth { new_path, old_path } => old_path == path,
                ActionView::Remove(p) => p == path,
                _ => false,
            },
            Input::Tick { now } => false,
        }
    }
}

/// The state after one input.
pub open spec fn step(s: HandlerView, input: Input) -> HandlerView {
    match input {
        Input::Event { action, probe, now } => s.after_event(action, probe, now),
        Input::Tick { now } => s.after_tick(now),
    }
}

/// The mutations that one input hands out. An event that fails hands out none.
pub open spec fn output(s: HandlerView, input: Input) -> Seq<MutationView> {
    match input {
        Input::Event { action, probe, now } => match HandlerView::event_outcome(action, probe) {
            Ok(emission) => emission.mutations,
            Err(_) => Seq::empty(),
        },
        Input::Tick { now } => s.tick_emission(now).mutations,
    }
}

/// The state after all inputs of `trace`, taken in order.
pub open spec fn run(s: HandlerView, trace: Seq<Input>) -> HandlerView
    decreases trace.len(),
{
    if trace.len() == 0 {
        s
    } else {
        step(run(s, trace.drop_last()), trace.last())
    }
}

/// All mutations that the inputs of `trace` hand out, in order.
pub open spec fn outputs(s: HandlerView, trace: Seq<Input>) -> Seq<MutationView>
    decreases trace.len(),
{
    if trace.len() == 0 {
        Seq::empty()
    } else {
        outputs(s, trace.drop_last()) + output(run(s, trace.drop_last()), trace.last())
    }
}

/// The inputs come in the order of their instants.
pub open spec fn in_order(trace: Seq<Input>) -> bool {
    forall|i: int, j: int| 0 <= i <= j < trace.len() ==> trace[i].at() <= trace[j].at()
}

/// How often `m` stands in `ms`.
pub open spec fn occurrences(ms: Seq<MutationView>, m: MutationView) -> nat {
    ms.filter(|x: MutationView| x == m).len()
}

/// Counting over two sequences in a row is counting each and adding up.
pub proof fn lemma_occurrences_concat(a: Seq<MutationView>, b: Seq<MutationView>, m: MutationView)
    ensures
        occurrences(a + b, m) == occurrences(a, m) + occurrences(b, m),
{
    Seq::filter_distributes_over_add(a, b, |x: MutationView| x == m);
}

/// One more mutation at the end counts where it is the one looked for.
pub proof fn lemma_occurrences_push(ms: Seq<MutationView>, x: MutationView, m: MutationView)
    ensures
        occurrences(ms.push(x), m) == occurrences(ms, m) + if x == m {
            1nat
        } else {
            0nat
        },
        occurrences(Seq::empty(), m) == 0,
{
    reveal(Seq::filter);
    assert(ms.push(x).drop_last() =~= ms);
}

/// Among the mutations made from the paths of a table, one for each, a given
/// mutation stands once where the table knows its path and never otherwise.
pub proof fn lemma_made_count(
    t: Seq<Stamped>,
    make: spec_fn(Seq<char>) -> MutationView,
    path: Seq<char>,
    m: MutationView,
)
    requires
        distinct(t),
        forall|p: Seq<char>, q: Seq<char>| #[trigger] make(p) == #[trigger] make(q) ==> p == q,
    ensures
        occurrences(paths_of(t).map_values(make), make(path)) == if holds(t, path) {
            1nat
        } else {
            0nat
        },
        (forall|p: Seq<char>| #[trigger] make(p) != m) ==> occurrences(
            paths_of(t).map_values(make),
            m,
        ) == 0,
    decreases t.len(),
{
    let made = paths_of(t).map_values(make);
    if t.len() == 0 {
        assert(made =~= Seq::empty());
        lemma_occurrences_push(Seq::empty(), m, m);
    } else {
        let front = t.drop_last();
        let last = t.last();
        assert forall|i: int, j: int| 0 <= i < j < front.len() implies (#[trigger] front[i]).path
            != (#[trigger] front[j]).path by {
            assert(front[i] == t[i] && front[j] == t[j]);
        }
        lemma_made_count(front, make, path, m);
        let before = paths_of(front).map_values(make);
        assert(made =~= before.push(make(last.path)));
        lemma_occurrences_push(before, make(last.path), make(path));
        lemma_occurrences_push(before, make(last.path), m);
        if holds(front, path) {
            let i = choose|i: int| 0 <= i < front.len() && (#[trigger] front[i]).path == path;
            assert(t[i].path == path);
            assert(t[i].path != t[t.len() - 1].path);
        } else if holds(t, path) {
            let i = choose|i: int| 0 <= i < t.len() && (#[trigger] t[i]).path == path;
            if i < front.len() {
                assert(front[i].path == path);
            }
        } else {
            assert(t[t.len() - 1].path != path);
        }
    }
}

/// How often a sweep asks for an update of `path`: once where the path is
/// pending and its latest change is at least the flush delay old, never
/// otherwise.
pub proof fn lemma_sweep_updates(s: HandlerView, now: nat, path: Seq<char>)
    requires
        s.wf(),
    ensures
        occurrences(s.sweep_mutations(now), MutationView::UpdateFile(path)) == match stamp_of(
            s.updates,
            path,
        ) {
            Some(at) => if age(now, at) >= s.timing.flush_delay {
                1nat
            } else {
                0nat
            },
            None => 0nat,
        },
{
    let m = MutationView::UpdateFile(path);
    let due = aged(s.updates, now, s.timing.flush_delay);
    let gone = aged(s.renames.dangling, now, s.timing.dangling_timeout + 1);
    lemma_aged_lookup(s.updates, now, s.timing.flush_delay, path);
    lemma_aged_lookup(s.renames.dangling, now, s.timing.dangling_timeout + 1, path);
    lemma_made_count(due, |p: Seq<char>| MutationView::UpdateFile(p), path, m);
    lemma_made_count(gone, |p: Seq<char>| MutationView::Remove(p), path, m);
    lemma_occurrences_concat(
        updates_for(paths_of(due)),
        removals_for(s.renames.overdue(now, s.timing.dangling_timeout)),
        m,
    );
}

/// How often a sweep asks for the removal of `path`: once where the path has
/// dangled for longer than the timeout, never otherwise.
pub proof fn lemma_sweep_removals(s: HandlerView, now: nat, path: Seq<char>)
    requires
        s.wf(),
    ensures
        occurrences(s.sweep_mutations(now), MutationView::Remove(path)) == match stamp_of(
            s.renames.dangling,
            path,
        ) {
            Some(at) => if age(now, at) > s.timing.dangling_timeout {
                1nat
            } else {
                0nat
            },
            None => 0nat,
        },
{
    let m = MutationView::Remove(path);
    let due = aged(s.updates, now, s.timing.flush_delay);
    let gone = aged(s.renames.dangling, now, s.timing.dangling_timeout + 1);
    lemma_aged_lookup(s.updates, now, s.timing.flush_delay, path);
    lemma_aged_lookup(s.renames.dangling, now, s.timing.dangling_timeout + 1, path);
    lemma_made_count(due, |p: Seq<char>| MutationView::UpdateFile(p), path, m);
    lemma_made_count(gone, |p: Seq<char>| MutationView::Remove(p), path, m);
    lemma_occurrences_concat(
        updates_for(paths_of(due)),
        removals_for(s.renames.overdue(now, s.timing.dangling_timeout)),
        m,
    );
}

/// A sweep asks for updates and removals only.
pub proof fn lemma_sweep_others(s: HandlerView, now: nat, m: MutationView)
    requires
        s.wf(),
        !(m is UpdateFile),
        !(m is Remove),
    ensures
        occurrences(s.sweep_mutations(now), m) == 0,
{
    let due = aged(s.updates, now, s.timing.flush_delay);
    let gone = aged(s.renames.dangling, now, s.timing.dangling_timeout + 1);
    lemma_aged_lookup(s.updates, now, s.timing.flush_delay, Seq::empty());
    lemma_aged_lookup(s.renames.dangling, now, s.timing.dangling_timeout + 1, Seq::empty());
    lemma_made_count(due, |p: Seq<char>| MutationView::UpdateFile(p), Seq::empty(), m);
    lemma_made_count(gone, |p: Seq<char>| MutationView::Remove(p), Seq::empty(), m);
    lemma_occurrences_concat(
        updates_for(paths_of(due)),
        removals_for(s.renames.overdue(now, s.timing.dangling_timeout)),
        m,
    );
}

/// One input keeps the state well formed.
pub proof fn lemma_step_wf(s: HandlerView, input: Input)
    requires
        s.wf(),
    ensures
        step(s, input).wf(),
{
    match input {
        Input::Event { action, probe, now } => lemma_event_wf(s, action, probe, now),
        Input::Tick { now } => lemma_sweep_wf(s, now),
    }
}

/// A run keeps the state well formed.
pub proof fn lemma_run_wf(s: HandlerView, trace: Seq<Input>)
    requires
        s.wf(),
    ensures
        run(s, trace).wf(),
    decreases trace.len(),
{
    if trace.len() > 0 {
        lemma_run_wf(s, trace.drop_last());
        lemma_step_wf(run(s, trace.drop_last()), trace.last());
    }
}

/// Running two traces in a row is running the second from where the first
/// ends.
pub proof fn lemma_run_concat(s: HandlerView, a: Seq<Input>, b: Seq<Input>)
    ensures
        run(s, a + b) == run(run(s, a), b),
        outputs(s, a + b) == outputs(s, a) + outputs(run(s, a), b),
    decreases b.len(),
{
    if b.len() == 0 {
        assert(a + b =~= a);
        assert(outputs(s, a) + Seq::<MutationView>::empty() =~= outputs(s, a));
    } else {
        lemma_run_concat(s, a, b.drop_last());
        assert((a + b).drop_last() =~= a + b.drop_last());
        assert((a + b).last() == b.last());
        let tail = output(run(run(s, a), b.drop_last()), b.last());
        assert((outputs(s, a) + outputs(run(s, a), b.drop_last())) + tail =~= outputs(s, a) + (
        outputs(run(s, a), b.drop_last()) + tail));
    }
}

/// A run of one input is one step.
pub proof fn lemma_run_one(s: HandlerView, input: Input)
    ensures
        run(s, seq![input]) == step(s, input),
        outputs(s, seq![input]) == output(s, input),
{
    let one = seq![input];
    assert(one.drop_last() =~= Seq::<Input>::empty());
    assert(one.last() == input);
    assert(run(s, one.drop_last()) == s);
    assert(outputs(s, one.drop_last()) + output(s, input) =~= output(s, input));
}

} // verus!
