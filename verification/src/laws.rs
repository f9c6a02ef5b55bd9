//! What holds of every run of a handler.

use vstd::prelude::*;
use crate::action::ActionView;
use crate::handler::{HandlerView, Probe};
use crate::mutation::{removals_for, updates_for, EmissionView, MutationView};
use crate::rename::RenamesView;
use crate::table::{
    aged, holds, lemma_filter_uniform, lemma_fresh_lookup, lemma_recorded_lookup,
    lemma_sweep_settles, lemma_without_lookup, paths_of, stamp_of,
};
use crate::timing::age;
use crate::trace::{
    in_order, lemma_occurrences_concat, lemma_occurrences_push, lemma_run_concat, lemma_run_one,
    lemma_step_wf, lemma_sweep_others, lemma_sweep_removals, lemma_sweep_updates,
    occurrences, output, outputs, run, step, Input,
};

verus! {

/// Sweep idempotence. A second sweep at the instant of the first hands out
/// nothing and changes nothing.
pub proof fn law_sweep_idempotent(s: HandlerView, now: nat)
    requires
        s.wf(),
    ensures
        s.after_sweep(now).sweep_emission(now) == EmissionView::nothing(),
        s.after_sweep(now).after_sweep(now) == s.after_sweep(now),
{
    let once = s.after_sweep(now);
    lemma_sweep_settles(s.updates, now, s.timing.flush_delay);
    lemma_sweep_settles(s.renames.dangling, now, s.timing.dangling_timeout + 1);
    lemma_sweep_settles(s.renames.resolved, now, s.timing.suppression_window);
    assert(paths_of(aged(once.updates, now, s.timing.flush_delay)) =~= Seq::empty());
    assert(once.renames.overdue(now, s.timing.dangling_timeout) =~= Seq::empty());
    assert(once.sweep_mutations(now) =~= Seq::empty());
}

/// Tick idempotence. A second tick at the instant of the first hands out
/// nothing and changes nothing, whether the first was due or not.
pub proof fn law_tick_idempotent(s: HandlerView, now: nat)
    requires
        s.wf(),
    ensures
        s.after_tick(now).tick_emission(now) == EmissionView::nothing(),
        s.after_tick(now).after_tick(now) == s.after_tick(now),
{
}

/// After a tick that was due, a tick that comes no more than a cadence later
/// hands out nothing and changes nothing.
pub proof fn law_tick_waits_for_cadence(s: HandlerView, now: nat, again: nat)
    requires
        s.wf(),
        s.tick_due(now),
        age(again, now) <= s.timing.cadence,
    ensures
        s.after_tick(now).tick_emission(again) == EmissionView::nothing(),
        s.after_tick(now).after_tick(again) == s.after_tick(now),
{
}

/// How often the input at place `k` of the trace hands out `m`.
pub open spec fn emitted_at(s: HandlerView, trace: Seq<Input>, k: int, m: MutationView) -> nat {
    occurrences(output(run(s, trace.take(k)), trace[k]), m)
}

/// The instant of the latest content change on `path` in the trace.
pub open spec fn last_change(trace: Seq<Input>, path: Seq<char>) -> nat
    decreases trace.len(),
{
    if trace.len() == 0 {
        0
    } else if trace.last().changes(path) {
        trace.last().at()
    } else {
        last_change(trace.drop_last(), path)
    }
}

/// The trace begins with a content change on `path`, its inputs come in the
/// order of their instants, and every content change on `path` in it comes less
/// than `window` after the first.
pub open spec fn is_burst(trace: Seq<Input>, path: Seq<char>, window: nat) -> bool {
    &&& trace.len() >= 1
    &&& in_order(trace)
    &&& trace[0].changes(path)
    &&& forall|i: int|
        0 <= i < trace.len() && (#[trigger] trace[i]).changes(path) ==> trace[i].at()
            - trace[0].at() < window
}

/// What holds after the first `k` inputs of a burst on `path`: either no update
/// of the path was asked for and the path waits since its latest change, or one
/// was asked for, by a tick that came at least the flush delay after the latest
/// change, and the path waits no longer.
pub open spec fn burst_inv(s: HandlerView, trace: Seq<Input>, path: Seq<char>, k: int) -> bool {
    let m = MutationView::UpdateFile(path);
    let seen = trace.take(k);
    let st = run(s, seen);
    let n = occurrences(outputs(s, seen), m);
    let last = last_change(seen, path);
    let delay = s.timing.flush_delay;
    &&& st.wf()
    &&& st.timing == s.timing
    &&& last >= trace[0].at()
    &&& {
        ||| {
            &&& n == 0
            &&& stamp_of(st.updates, path) == Some(last)
            &&& forall|j: int| 0 <= j < k ==> #[trigger] emitted_at(s, trace, j, m) == 0
        }
        ||| {
            &&& n == 1
            &&& !holds(st.updates, path)
            &&& trace[k - 1].at() >= trace[0].at() + delay
            &&& forall|j: int|
                0 <= j < k && #[trigger] emitted_at(s, trace, j, m) > 0 ==> trace[j] is Tick
                    && age(trace[j].at(), last) >= delay
        }
    }
}

/// An event never asks for an update.
pub proof fn lemma_event_asks_no_update(action: ActionView, probe: Probe, path: Seq<char>)
    ensures
        occurrences(
            match HandlerView::event_outcome(action, probe) {
                Ok(emission) => emission.mutations,
                Err(_) => Seq::empty(),
            },
            MutationView::UpdateFile(path),
        ) == 0,
{
    let m = MutationView::UpdateFile(path);
    lemma_occurrences_push(Seq::empty(), m, m);
    match HandlerView::event_outcome(action, probe) {
        Ok(emission) => {
            if emission.mutations.len() > 0 {
                let x = emission.mutations[0];
                assert(emission.mutations =~= Seq::<MutationView>::empty().push(x));
                lemma_occurrences_push(Seq::empty(), x, m);
            } else {
                assert(emission.mutations =~= Seq::<MutationView>::empty());
            }
        },
        Err(_) => {},
    }
}

proof fn lemma_burst(s: HandlerView, trace: Seq<Input>, path: Seq<char>, k: int)
    requires
        s.wf(),
        is_burst(trace, path, s.timing.flush_delay),
        1 <= k <= trace.len(),
    ensures
        burst_inv(s, trace, path, k),
    decreases k,
{
    let m = MutationView::UpdateFile(path);
    let delay = s.timing.flush_delay;
    let seen = trace.take(k);
    let before = trace.take(k - 1);
    let x = trace[k - 1];
    assert(seen.drop_last() =~= before);
    assert(seen.last() == x);
    let prev = run(s, before);
    let st = run(s, seen);
    assert(st == step(prev, x));
    assert(outputs(s, seen) == outputs(s, before) + output(prev, x));
    lemma_occurrences_concat(outputs(s, before), output(prev, x), m);
    assert(emitted_at(s, trace, k - 1, m) == occurrences(output(prev, x), m));
    assert(trace[0].at() <= x.at());
    if k == 1 {
        assert(before =~= Seq::<Input>::empty());
        lemma_occurrences_push(Seq::empty(), m, m);
        lemma_step_wf(s, x);
        match x {
            Input::Event { action, probe, now } => {
                lemma_event_asks_no_update(action, probe, path);
                lemma_recorded_lookup(s.updates, path, now, path);
            },
            Input::Tick { now } => {},
        }
    } else {
        lemma_burst(s, trace, path, k - 1);
        lemma_step_wf(prev, x);
        let n = occurrences(outputs(s, before), m);
        assert(trace[k - 2].at() <= x.at());
        match x {
            Input::Event { action, probe, now } => {
                lemma_event_asks_no_update(action, probe, path);
                match action {
                    ActionView::CreateFile(p) => {
                        lemma_recorded_lookup(prev.updates, p, now, path);
                    },
                    ActionView::DataChanged(p) => {
                        lemma_recorded_lookup(prev.updates, p, now, path);
                    },
                    _ => {},
                }
            },
            Input::Tick { now } => {
                lemma_sweep_updates(prev, now, path);
                lemma_fresh_lookup(prev.updates, now, delay, path);
                lemma_occurrences_push(Seq::empty(), m, m);
            },
        }
    }
}

/// Debounce coalescing. Take a burst of content changes on one path: a trace
/// that begins with such a change, in which every such change comes less than
/// the flush delay after the first, with any ticks and any events on other
/// paths in between and after. Over the whole trace at most one update of the
/// path is asked for. While none was asked for, the path waits since the latest
/// change of the burst. Once it was asked for, the path waits no longer. No
/// input asks for the update sooner than the flush delay after the latest
/// change.
pub proof fn law_debounce_coalescing(s: HandlerView, trace: Seq<Input>, path: Seq<char>)
    requires
        s.wf(),
        is_burst(trace, path, s.timing.flush_delay),
    ensures
        occurrences(outputs(s, trace), MutationView::UpdateFile(path)) <= 1,
        occurrences(outputs(s, trace), MutationView::UpdateFile(path)) == 0 ==> stamp_of(
            run(s, trace).updates,
            path,
        ) == Some(last_change(trace, path)),
        occurrences(outputs(s, trace), MutationView::UpdateFile(path)) == 1 ==> !holds(
            run(s, trace).updates,
            path,
        ),
        forall|k: int|
            0 <= k < trace.len() && #[trigger] emitted_at(
                s,
                trace,
                k,
                MutationView::UpdateFile(path),
            ) > 0 ==> trace[k] is Tick && age(trace[k].at(), last_change(trace, path))
                >= s.timing.flush_delay,
{
    lemma_burst(s, trace, path, trace.len() as int);
    assert(trace.take(trace.len() as int) =~= trace);
}

/// The flush comes due. After a burst on a path for which no update was asked
/// yet, a tick that is due at least the flush delay after the latest change of
/// the burst asks for the update exactly once, signals the change, and leaves
/// the path waiting no longer.
pub proof fn law_burst_is_flushed(s: HandlerView, trace: Seq<Input>, path: Seq<char>, now: nat)
    requires
        s.wf(),
        is_burst(trace, path, s.timing.flush_delay),
        occurrences(outputs(s, trace), MutationView::UpdateFile(path)) == 0,
        run(s, trace).tick_due(now),
        age(now, last_change(trace, path)) >= s.timing.flush_delay,
    ensures
        occurrences(
            run(s, trace).tick_emission(now).mutations,
            MutationView::UpdateFile(path),
        ) == 1,
        run(s, trace).tick_emission(now).notify_changed,
        !holds(run(s, trace).after_tick(now).updates, path),
{
    let end = run(s, trace);
    let update = MutationView::UpdateFile(path);
    lemma_burst(s, trace, path, trace.len() as int);
    assert(trace.take(trace.len() as int) =~= trace);
    lemma_sweep_updates(end, now, path);
    lemma_fresh_lookup(end.updates, now, end.timing.flush_delay, path);
    if end.sweep_mutations(now).len() == 0 {
        assert(end.sweep_mutations(now) =~= Seq::empty());
        lemma_occurrences_push(Seq::empty(), update, update);
    }
}

/// How often a sequence of at most one mutation holds `m`.
pub proof fn lemma_occurrences_short(ms: Seq<MutationView>, m: MutationView)
    requires
        ms.len() <= 1,
    ensures
        occurrences(ms, m) == if ms.len() == 1 && ms[0] == m {
            1nat
        } else {
            0nat
        },
{
    lemma_occurrences_push(Seq::empty(), m, m);
    if ms.len() == 1 {
        assert(ms =~= Seq::<MutationView>::empty().push(ms[0]));
        lemma_occurrences_push(Seq::empty(), ms[0], m);
    } else {
        assert(ms =~= Seq::<MutationView>::empty());
    }
}

/// No input of the trace from place `from` on moves anything away from `path`
/// or removes what is there.
pub open spec fn undisturbed(trace: Seq<Input>, path: Seq<char>, from: int) -> bool {
    forall|i: int| from <= i < trace.len() ==> !(#[trigger] trace[i]).displaces(path)
}

/// Every input of the trace comes no later than `until`.
pub open spec fn all_by(trace: Seq<Input>, until: nat) -> bool {
    forall|i: int| 0 <= i < trace.len() ==> (#[trigger] trace[i]).at() <= until
}

/// What one input that does not displace `path` does to the rename state of the
/// path and asks about it.
proof fn lemma_quiet_step(s: HandlerView, x: Input, path: Seq<char>, other: Seq<char>)
    requires
        s.wf(),
        !x.displaces(path),
    ensures
        step(s, x).wf(),
        step(s, x).timing == s.timing,
        occurrences(
            output(s, x),
            MutationView::Rename { new_path: other, old_path: path },
        ) == 0,
        occurrences(output(s, x), MutationView::Remove(path)) == match stamp_of(
            s.renames.dangling,
            path,
        ) {
            Some(at) => if x is Tick && s.tick_due(x.at()) && age(x.at(), at)
                > s.timing.dangling_timeout {
                1nat
            } else {
                0nat
            },
            None => 0nat,
        },
        stamp_of(step(s, x).renames.dangling, path) == match stamp_of(s.renames.dangling, path) {
            Some(at) => if x is Tick && s.tick_due(x.at()) && age(x.at(), at)
                > s.timing.dangling_timeout {
                None
            } else {
                Some(at)
            },
            None => None,
        },
        stamp_of(step(s, x).renames.resolved, path) == match stamp_of(s.renames.resolved, path) {
            Some(at) => if x is Tick && s.tick_due(x.at()) && age(x.at(), at)
                >= s.timing.suppression_window {
                None
            } else {
                Some(at)
            },
            None => None,
        },
{
    let rename = MutationView::Rename { new_path: other, old_path: path };
    let remove = MutationView::Remove(path);
    lemma_step_wf(s, x);
    match x {
        Input::Event { action, probe, now } => {
            lemma_occurrences_short(output(s, x), rename);
            lemma_occurrences_short(output(s, x), remove);
            match action {
                ActionView::RenameFrom(p) => {
                    lemma_without_lookup(s.renames.resolved, p, path);
                    lemma_recorded_lookup(s.renames.dangling, p, now, path);
                },
                ActionView::RenameBoth { new_path, old_path } => {
                    lemma_without_lookup(s.renames.dangling, old_path, path);
                    lemma_recorded_lookup(s.renames.resolved, old_path, now, path);
                },
                _ => {},
            }
        },
        Input::Tick { now } => {
            lemma_occurrences_push(Seq::empty(), rename, rename);
            lemma_occurrences_push(Seq::empty(), remove, remove);
            lemma_sweep_others(s, now, rename);
            lemma_sweep_removals(s, now, path);
            lemma_fresh_lookup(s.renames.dangling, now, s.timing.dangling_timeout + 1, path);
            lemma_fresh_lookup(s.renames.resolved, now, s.timing.suppression_window, path);
        },
    }
}

/// What holds after the first `k` inputs of a trace that begins with a
/// rename-from on `path` and does not displace the path again: either no removal
/// of the path was asked for and the path dangles since the rename-from, or one
/// was asked for, by a tick that came more than the timeout after the
/// rename-from, and the path dangles no longer.
pub open spec fn dangling_inv(s: HandlerView, trace: Seq<Input>, path: Seq<char>, k: int) -> bool {
    let m = MutationView::Remove(path);
    let st = run(s, trace.take(k));
    let n = occurrences(outputs(s, trace.take(k)), m);
    &&& st.wf()
    &&& st.timing == s.timing
    &&& {
        ||| {
            &&& n == 0
            &&& stamp_of(st.renames.dangling, path) == Some(trace[0].at())
            &&& forall|j: int| 0 <= j < k ==> #[trigger] emitted_at(s, trace, j, m) == 0
        }
        ||| {
            &&& n == 1
            &&& !holds(st.renames.dangling, path)
            &&& forall|j: int|
                0 <= j < k && #[trigger] emitted_at(s, trace, j, m) > 0 ==> trace[j] is Tick
                    && age(trace[j].at(), trace[0].at()) > s.timing.dangling_timeout
        }
    }
}

/// The trace begins with a rename-from on `path` and does not displace the path
/// again.
pub open spec fn is_lone_rename_from(trace: Seq<Input>, path: Seq<char>) -> bool {
    &&& trace.len() >= 1
    &&& trace[0].starts_move(path)
    &&& undisturbed(trace, path, 1)
}

proof fn lemma_dangling(s: HandlerView, trace: Seq<Input>, path: Seq<char>, k: int)
    requires
        s.wf(),
        !holds(s.renames.resolved, path),
        is_lone_rename_from(trace, path),
        1 <= k <= trace.len(),
    ensures
        dangling_inv(s, trace, path, k),
    decreases k,
{
    let m = MutationView::Remove(path);
    let seen = trace.take(k);
    let before = trace.take(k - 1);
    let x = trace[k - 1];
    assert(seen.drop_last() =~= before);
    assert(seen.last() == x);
    let prev = run(s, before);
    assert(run(s, seen) == step(prev, x));
    assert(outputs(s, seen) == outputs(s, before) + output(prev, x));
    lemma_occurrences_concat(outputs(s, before), output(prev, x), m);
    assert(emitted_at(s, trace, k - 1, m) == occurrences(output(prev, x), m));
    if k == 1 {
        assert(before =~= Seq::<Input>::empty());
        lemma_occurrences_push(Seq::empty(), m, m);
        lemma_step_wf(s, x);
        lemma_occurrences_short(output(s, x), m);
        lemma_recorded_lookup(s.renames.dangling, path, x.at(), path);
    } else {
        lemma_dangling(s, trace, path, k - 1);
        lemma_quiet_step(prev, x, path, path);
    }
}

/// Dangling rename-from. Take a rename-from on a path that is not the late half
/// of a resolved rename, followed by any inputs that do not displace the path
/// again. Over the whole trace at most one removal of the path is asked for.
/// While none was asked for, the path dangles since the rename-from. Once it
/// was asked for, the path dangles no longer, so it is not asked for again. No
/// input asks for the removal before more than the timeout has passed since the
/// rename-from.
pub proof fn law_dangling_rename_is_removed(s: HandlerView, trace: Seq<Input>, path: Seq<char>)
    requires
        s.wf(),
        !holds(s.renames.resolved, path),
        is_lone_rename_from(trace, path),
    ensures
        occurrences(outputs(s, trace), MutationView::Remove(path)) <= 1,
        occurrences(outputs(s, trace), MutationView::Remove(path)) == 0 ==> stamp_of(
            run(s, trace).renames.dangling,
            path,
        ) == Some(trace[0].at()),
        occurrences(outputs(s, trace), MutationView::Remove(path)) == 1 ==> !holds(
            run(s, trace).renames.dangling,
            path,
        ),
        forall|k: int|
            0 <= k < trace.len() && #[trigger] emitted_at(s, trace, k, MutationView::Remove(path))
                > 0 ==> trace[k] is Tick && age(trace[k].at(), trace[0].at())
                > s.timing.dangling_timeout,
{
    lemma_dangling(s, trace, path, trace.len() as int);
    assert(trace.take(trace.len() as int) =~= trace);
}

/// The removal comes due. After a lone rename-from on a path whose removal was
/// not asked for yet, a tick that is due more than the timeout after the
/// rename-from asks for the removal exactly once, signals the change, and
/// leaves the path dangling no longer; a tick right after it asks nothing.
pub proof fn law_dangling_rename_times_out(
    s: HandlerView,
    trace: Seq<Input>,
    path: Seq<char>,
    now: nat,
)
    requires
        s.wf(),
        !holds(s.renames.resolved, path),
        is_lone_rename_from(trace, path),
        occurrences(outputs(s, trace), MutationView::Remove(path)) == 0,
        run(s, trace).tick_due(now),
        age(now, trace[0].at()) > s.timing.dangling_timeout,
    ensures
        occurrences(run(s, trace).tick_emission(now).mutations, MutationView::Remove(path)) == 1,
        run(s, trace).tick_emission(now).notify_changed,
        !holds(run(s, trace).after_tick(now).renames.dangling, path),
        run(s, trace).after_tick(now).tick_emission(now) == EmissionView::nothing(),
{
    let end = run(s, trace);
    lemma_dangling(s, trace, path, trace.len() as int);
    assert(trace.take(trace.len() as int) =~= trace);
    lemma_quiet_step(end, Input::Tick { now }, path, path);
    if end.sweep_mutations(now).len() == 0 {
        assert(end.sweep_mutations(now) =~= Seq::empty());
        lemma_occurrences_push(
            Seq::empty(),
            MutationView::Remove(path),
            MutationView::Remove(path),
        );
    }
}

/// A stretch of inputs that do not displace `path` asks for no rename away from
/// the path; where the path does not dangle at its start, it asks for no
/// removal of the path and the path does not dangle at its end; and where the
/// path has no marker at its start, it has none at its end.
pub proof fn lemma_quiet_absent(s: HandlerView, seg: Seq<Input>, path: Seq<char>, other: Seq<char>)
    requires
        s.wf(),
        undisturbed(seg, path, 0),
    ensures
        run(s, seg).wf(),
        run(s, seg).timing == s.timing,
        occurrences(
            outputs(s, seg),
            MutationView::Rename { new_path: other, old_path: path },
        ) == 0,
        !holds(s.renames.dangling, path) ==> !holds(run(s, seg).renames.dangling, path)
            && occurrences(outputs(s, seg), MutationView::Remove(path)) == 0,
        !holds(s.renames.resolved, path) ==> !holds(run(s, seg).renames.resolved, path),
    decreases seg.len(),
{
    let rename = MutationView::Rename { new_path: other, old_path: path };
    let remove = MutationView::Remove(path);
    if seg.len() == 0 {
        lemma_occurrences_push(Seq::empty(), rename, rename);
        lemma_occurrences_push(Seq::empty(), remove, remove);
    } else {
        let front = seg.drop_last();
        let x = seg.last();
        assert forall|i: int| 0 <= i < front.len() implies !(#[trigger] front[i]).displaces(
            path,
        ) by {
            assert(front[i] == seg[i]);
        }
        lemma_quiet_absent(s, front, path, other);
        lemma_quiet_step(run(s, front), x, path, other);
        lemma_occurrences_concat(outputs(s, front), output(run(s, front), x), rename);
        lemma_occurrences_concat(outputs(s, front), output(run(s, front), x), remove);
    }
}

/// A stretch of inputs that do not displace `path` and all come by the instant
/// `until` asks for no removal of a path that has dangled for no longer than
/// the timeout at `until`, and leaves it dangling; and it leaves a marker for
/// the path in place that is younger than the suppression window at `until`.
pub proof fn lemma_quiet_young(s: HandlerView, seg: Seq<Input>, path: Seq<char>, until: nat)
    requires
        s.wf(),
        undisturbed(seg, path, 0),
        all_by(seg, until),
    ensures
        run(s, seg).wf(),
        run(s, seg).timing == s.timing,
        match stamp_of(s.renames.dangling, path) {
            Some(at) => age(until, at) <= s.timing.dangling_timeout ==> stamp_of(
                run(s, seg).renames.dangling,
                path,
            ) == Some(at) && occurrences(outputs(s, seg), MutationView::Remove(path)) == 0,
            None => true,
        },
        match stamp_of(s.renames.resolved, path) {
            Some(at) => age(until, at) < s.timing.suppression_window ==> stamp_of(
                run(s, seg).renames.resolved,
                path,
            ) == Some(at),
            None => true,
        },
    decreases seg.len(),
{
    let remove = MutationView::Remove(path);
    if seg.len() == 0 {
        lemma_occurrences_push(Seq::empty(), remove, remove);
    } else {
        let front = seg.drop_last();
        let x = seg.last();
        assert forall|i: int| 0 <= i < front.len() implies !(#[trigger] front[i]).displaces(path)
            && front[i].at() <= until by {
            assert(front[i] == seg[i]);
        }
        lemma_quiet_young(s, front, path, until);
        lemma_quiet_step(run(s, front), x, path, path);
        lemma_occurrences_concat(outputs(s, front), output(run(s, front), x), remove);
        assert(x.at() <= until);
    }
}

/// The trace of a rename whose halves both arrive: a rename-from on `old_path`
/// at `t1`, the inputs of `between`, the whole rename to `new_path` at `t2`
/// with its metadata found, and the inputs of `after`.
pub open spec fn halves_in_order(
    old_path: Seq<char>,
    new_path: Seq<char>,
    t1: nat,
    t2: nat,
    probe: Probe,
    between: Seq<Input>,
    after: Seq<Input>,
) -> Seq<Input> {
    seq![Input::Event { action: ActionView::RenameFrom(old_path), probe, now: t1 }] + between
        + seq![
        Input::Event {
            action: ActionView::RenameBoth { new_path, old_path },
            probe: Probe::Found,
            now: t2,
        },
    ] + after
}

/// The trace of a rename whose first half arrives late: the whole rename to
/// `new_path` at `t1` with its metadata found, the inputs of `between`, a
/// rename-from on `old_path` at `t2`, and the inputs of `after`.
pub open spec fn halves_reversed(
    old_path: Seq<char>,
    new_path: Seq<char>,
    t1: nat,
    t2: nat,
    probe: Probe,
    between: Seq<Input>,
    after: Seq<Input>,
) -> Seq<Input> {
    seq![
        Input::Event {
            action: ActionView::RenameBoth { new_path, old_path },
            probe: Probe::Found,
            now: t1,
        },
    ] + between + seq![Input::Event { action: ActionView::RenameFrom(old_path), probe, now: t2 }]
        + after
}

/// What a trace of four parts, the second and the fourth of one input each,
/// leaves behind and hands out.
proof fn lemma_run_four(s: HandlerView, a: Input, mid: Seq<Input>, b: Input, rest: Seq<Input>)
    ensures
        run(s, seq![a] + mid + seq![b] + rest) == run(
            step(run(step(s, a), mid), b),
            rest,
        ),
        outputs(s, seq![a] + mid + seq![b] + rest) == output(s, a) + outputs(step(s, a), mid)
            + output(run(step(s, a), mid), b) + outputs(step(run(step(s, a), mid), b), rest),
{
    let s1 = step(s, a);
    let s2 = run(s1, mid);
    lemma_run_one(s, a);
    lemma_run_one(s2, b);
    lemma_run_concat(s, seq![a], mid);
    lemma_run_concat(s, seq![a] + mid, seq![b]);
    lemma_run_concat(s, seq![a] + mid + seq![b], rest);
}

/// Rename happy path. A rename-from on a path, followed within the dangling
/// timeout by the whole rename away from that path, asks for that rename
/// exactly once and never for the removal of the path, whatever ticks and
/// events that do not displace the path come in between and after; and the path
/// does not dangle at the end.
pub proof fn law_rename_happy_path(
    s: HandlerView,
    old_path: Seq<char>,
    new_path: Seq<char>,
    t1: nat,
    t2: nat,
    probe: Probe,
    between: Seq<Input>,
    after: Seq<Input>,
)
    requires
        s.wf(),
        age(t2, t1) <= s.timing.dangling_timeout,
        all_by(between, t2),
        undisturbed(between, old_path, 0),
        undisturbed(after, old_path, 0),
    ensures
        ({
            let trace = halves_in_order(old_path, new_path, t1, t2, probe, between, after);
            &&& occurrences(outputs(s, trace), MutationView::Rename { new_path, old_path }) == 1
            &&& occurrences(outputs(s, trace), MutationView::Remove(old_path)) == 0
            &&& !holds(run(s, trace).renames.dangling, old_path)
        }),
{
    let rename = MutationView::Rename { new_path, old_path };
    let remove = MutationView::Remove(old_path);
    let a = Input::Event { action: ActionView::RenameFrom(old_path), probe, now: t1 };
    let b = Input::Event {
        action: ActionView::RenameBoth { new_path, old_path },
        probe: Probe::Found,
        now: t2,
    };
    let s1 = step(s, a);
    let s2 = run(s1, between);
    let s3 = step(s2, b);
    lemma_run_four(s, a, between, b, after);
    lemma_step_wf(s, a);
    lemma_occurrences_short(output(s, a), rename);
    lemma_occurrences_short(output(s, a), remove);
    lemma_without_lookup(s.renames.resolved, old_path, old_path);
    lemma_recorded_lookup(s.renames.dangling, old_path, t1, old_path);
    lemma_quiet_absent(s1, between, old_path, new_path);
    lemma_quiet_young(s1, between, old_path, t2);
    lemma_step_wf(s2, b);
    lemma_occurrences_short(output(s2, b), rename);
    lemma_occurrences_short(output(s2, b), remove);
    lemma_without_lookup(s2.renames.dangling, old_path, old_path);
    lemma_quiet_absent(s3, after, old_path, new_path);
    lemma_occurrences_concat(output(s, a), outputs(s1, between), rename);
    lemma_occurrences_concat(output(s, a) + outputs(s1, between), output(s2, b), rename);
    lemma_occurrences_concat(
        output(s, a) + outputs(s1, between) + output(s2, b),
        outputs(s3, after),
        rename,
    );
    lemma_occurrences_concat(output(s, a), outputs(s1, between), remove);
    lemma_occurrences_concat(output(s, a) + outputs(s1, between), output(s2, b), remove);
    lemma_occurrences_concat(
        output(s, a) + outputs(s1, between) + output(s2, b),
        outputs(s3, after),
        remove,
    );
}

/// Rename suppression. A whole rename away from a path, followed within the
/// suppression window by a rename-from on that path, asks for the rename
/// exactly once and never for the removal of the path, whatever ticks and
/// events that do not displace the path come in between and after: the late
/// half asks nothing. At the end the path neither dangles nor has a marker.
pub proof fn law_rename_suppression(
    s: HandlerView,
    old_path: Seq<char>,
    new_path: Seq<char>,
    t1: nat,
    t2: nat,
    probe: Probe,
    between: Seq<Input>,
    after: Seq<Input>,
)
    requires
        s.wf(),
        age(t2, t1) < s.timing.suppression_window,
        all_by(between, t2),
        undisturbed(between, old_path, 0),
        undisturbed(after, old_path, 0),
    ensures
        ({
            let trace = halves_reversed(old_path, new_path, t1, t2, probe, between, after);
            &&& occurrences(outputs(s, trace), MutationView::Rename { new_path, old_path }) == 1
            &&& occurrences(outputs(s, trace), MutationView::Remove(old_path)) == 0
            &&& !holds(run(s, trace).renames.dangling, old_path)
            &&& !holds(run(s, trace).renames.resolved, old_path)
        }),
{
    let rename = MutationView::Rename { new_path, old_path };
    let remove = MutationView::Remove(old_path);
    let a = Input::Event {
        action: ActionView::RenameBoth { new_path, old_path },
        probe: Probe::Found,
        now: t1,
    };
    let b = Input::Event { action: ActionView::RenameFrom(old_path), probe, now: t2 };
    let s1 = step(s, a);
    let s2 = run(s1, between);
    let s3 = step(s2, b);
    lemma_run_four(s, a, between, b, after);
    lemma_step_wf(s, a);
    lemma_occurrences_short(output(s, a), rename);
    lemma_occurrences_short(output(s, a), remove);
    lemma_without_lookup(s.renames.dangling, old_path, old_path);
    lemma_recorded_lookup(s.renames.resolved, old_path, t1, old_path);
    lemma_quiet_absent(s1, between, old_path, new_path);
    lemma_quiet_young(s1, between, old_path, t2);
    lemma_step_wf(s2, b);
    lemma_occurrences_short(output(s2, b), rename);
    lemma_occurrences_short(output(s2, b), remove);
    lemma_without_lookup(s2.renames.resolved, old_path, old_path);
    lemma_quiet_absent(s3, after, old_path, new_path);
    lemma_occurrences_concat(output(s, a), outputs(s1, between), rename);
    lemma_occurrences_concat(output(s, a) + outputs(s1, between), output(s2, b), rename);
    lemma_occurrences_concat(
        output(s, a) + outputs(s1, between) + output(s2, b),
        outputs(s3, after),
        rename,
    );
    lemma_occurrences_concat(output(s, a), outputs(s1, between), remove);
    lemma_occurrences_concat(output(s, a) + outputs(s1, between), output(s2, b), remove);
    lemma_occurrences_concat(
        output(s, a) + outputs(s1, between) + output(s2, b),
        outputs(s3, after),
        remove,
    );
}

/// The trace with its content changes left out.
pub open spec fn without_content_events(trace: Seq<Input>) -> Seq<Input> {
    trace.filter(|x: Input| !x.is_content_event())
}

/// The trace with its rename events left out.
pub open spec fn without_rename_events(trace: Seq<Input>) -> Seq<Input> {
    trace.filter(|x: Input| !x.is_rename_event())
}

/// The updates among the mutations, in order.
pub open spec fn updates_among(ms: Seq<MutationView>) -> Seq<MutationView> {
    ms.filter(|m: MutationView| m is UpdateFile)
}

/// The mutations that are no updates, in order.
pub open spec fn others_among(ms: Seq<MutationView>) -> Seq<MutationView> {
    ms.filter(|m: MutationView| !(m is UpdateFile))
}

/// The updates of a sweep are those of the pending changes alone, and its other
/// mutations are those of the dangling renames alone.
pub proof fn lemma_sweep_parts(s: HandlerView, now: nat)
    ensures
        updates_among(s.sweep_mutations(now)) == updates_for(
            paths_of(aged(s.updates, now, s.timing.flush_delay)),
        ),
        others_among(s.sweep_mutations(now)) == removals_for(
            s.renames.overdue(now, s.timing.dangling_timeout),
        ),
{
    let ups = updates_for(paths_of(aged(s.updates, now, s.timing.flush_delay)));
    let rems = removals_for(s.renames.overdue(now, s.timing.dangling_timeout));
    let is_update = |m: MutationView| m is UpdateFile;
    let is_other = |m: MutationView| !(m is UpdateFile);
    Seq::filter_distributes_over_add(ups, rems, is_update);
    Seq::filter_distributes_over_add(ups, rems, is_other);
    lemma_filter_uniform(ups, is_update);
    lemma_filter_uniform(ups, is_other);
    lemma_filter_uniform(rems, is_update);
    lemma_filter_uniform(rems, is_other);
    assert(ups + rems.filter(is_update) =~= ups);
    assert(ups.filter(is_other) + rems =~= rems);
}

/// What an event hands out does not depend on the state, and a content change
/// hands out nothing.
proof fn lemma_event_parts(s: HandlerView, x: Input)
    requires
        x is Event,
    ensures
        output(s, x).len() <= 1,
        x.is_content_event() ==> output(s, x) == Seq::<MutationView>::empty(),
        updates_among(output(s, x)) == Seq::<MutationView>::empty(),
{
    lemma_filter_uniform(output(s, x), |m: MutationView| m is UpdateFile);
    assert(updates_among(output(s, x)) =~= Seq::<MutationView>::empty());
}

proof fn lemma_project_renames(s: HandlerView, trace: Seq<Input>)
    ensures
        run(s, trace).renames == run(s, without_content_events(trace)).renames,
        run(s, trace).timing == run(s, without_content_events(trace)).timing,
        run(s, trace).last_check == run(s, without_content_events(trace)).last_check,
        others_among(outputs(s, trace)) == others_among(
            outputs(s, without_content_events(trace)),
        ),
    decreases trace.len(),
{
    reveal(Seq::filter);
    if trace.len() > 0 {
        let front = trace.drop_last();
        let x = trace.last();
        let kept = without_content_events(front);
        let full = run(s, front);
        let proj = run(s, kept);
        let is_other = |m: MutationView| !(m is UpdateFile);
        lemma_project_renames(s, front);
        Seq::filter_distributes_over_add(outputs(s, front), output(full, x), is_other);
        if x.is_content_event() {
            lemma_event_parts(full, x);
            assert(without_content_events(trace) == kept);
            assert(outputs(s, front) + output(full, x) =~= outputs(s, front));
        } else {
            assert(without_content_events(trace) == kept.push(x));
            assert(kept.push(x).drop_last() =~= kept);
            Seq::filter_distributes_over_add(outputs(s, kept), output(proj, x), is_other);
            match x {
                Input::Event { action, probe, now } => {},
                Input::Tick { now } => {
                    lemma_sweep_parts(full, now);
                    lemma_sweep_parts(proj, now);
                },
            }
        }
    }
}

proof fn lemma_project_updates(s: HandlerView, trace: Seq<Input>)
    ensures
        run(s, trace).updates == run(s, without_rename_events(trace)).updates,
        run(s, trace).timing == run(s, without_rename_events(trace)).timing,
        run(s, trace).last_check == run(s, without_rename_events(trace)).last_check,
        updates_among(outputs(s, trace)) == updates_among(
            outputs(s, without_rename_events(trace)),
        ),
    decreases trace.len(),
{
    reveal(Seq::filter);
    if trace.len() > 0 {
        let front = trace.drop_last();
        let x = trace.last();
        let kept = without_rename_events(front);
        let full = run(s, front);
        let proj = run(s, kept);
        let is_update = |m: MutationView| m is UpdateFile;
        lemma_project_updates(s, front);
        Seq::filter_distributes_over_add(outputs(s, front), output(full, x), is_update);
        if x.is_rename_event() {
            lemma_event_parts(full, x);
            assert(without_rename_events(trace) == kept);
            assert(updates_among(outputs(s, front)) + Seq::<MutationView>::empty()
                =~= updates_among(outputs(s, front)));
        } else {
            assert(without_rename_events(trace) == kept.push(x));
            assert(kept.push(x).drop_last() =~= kept);
            Seq::filter_distributes_over_add(outputs(s, kept), output(proj, x), is_update);
            match x {
                Input::Event { action, probe, now } => {},
                Input::Tick { now } => {
                    lemma_sweep_parts(full, now);
                    lemma_sweep_parts(proj, now);
                },
            }
        }
    }
}

/// Independence. Content changes and renames do not interact, not even on one
/// path. The rename state after a trace, and everything but the updates that
/// the trace asks for, are those of the trace with its content changes left
/// out. The pending updates after a trace, and the updates that it asks for,
/// are those of the trace with its rename events left out.
pub proof fn law_independence(s: HandlerView, trace: Seq<Input>)
    ensures
        run(s, trace).renames == run(s, without_content_events(trace)).renames,
        others_among(outputs(s, trace)) == others_among(
            outputs(s, without_content_events(trace)),
        ),
        run(s, trace).updates == run(s, without_rename_events(trace)).updates,
        updates_among(outputs(s, trace)) == updates_among(
            outputs(s, without_rename_events(trace)),
        ),
{
    lemma_project_renames(s, trace);
    lemma_project_updates(s, trace);
}

/// A flush leaves the renames alone, and a timeout leaves the updates alone: a
/// sweep changes the rename state as it would with nothing pending, and the
/// pending updates as it would with no rename in flight.
pub proof fn law_sweep_keeps_apart(s: HandlerView, now: nat)
    ensures
        s.after_sweep(now).renames == (HandlerView { updates: Seq::empty(), ..s }).after_sweep(
            now,
        ).renames,
        s.after_sweep(now).updates == (HandlerView {
            renames: RenamesView { dangling: Seq::empty(), resolved: Seq::empty() },
            ..s
        }).after_sweep(now).updates,
{
}

} // verus!
