//! Puts the two halves of a rename together, turns a half that stays alone into
//! a removal, and ignores a late first half of a rename that is already done.

use vstd::prelude::*;
use crate::mutation::{Mutation, MutationView};
use crate::table::{
    aged, distinct, fresh, holds, is_aged, lemma_filter_lookup, lemma_filter_uniform,
    lemma_recorded_lookup, lemma_without_lookup, paths_of, recorded, stamp_of, without,
    PathTable, Stamped,
};
use crate::timing::age;

verus! {

/// The state of a correlator as plain values.
pub struct RenamesView {
    /// Sources of moves whose destination is not known yet.
    pub dangling: Seq<Stamped>,
    /// Sources of moves that were resolved a short while ago.
    pub resolved: Seq<Stamped>,
}

impl RenamesView {
    /// Neither table names a path twice, and no path is in both.
    pub open spec fn wf(self) -> bool {
        &&& distinct(self.dangling)
        &&& distinct(self.resolved)
        &&& forall|path: Seq<char>| !(holds(self.dangling, path) && holds(self.resolved, path))
    }

    /// Whether a rename-from on `path` is the late half of a resolved rename.
    pub open spec fn suppresses(self, path: Seq<char>) -> bool {
        holds(self.resolved, path)
    }

    /// The state after a rename-from on `path` at the instant `now`: a late
    /// half uses up its marker, any other starts to dangle.
    pub open spec fn after_rename_from(self, path: Seq<char>, now: nat) -> RenamesView {
        if self.suppresses(path) {
            RenamesView { dangling: self.dangling, resolved: without(self.resolved, path) }
        } else {
            RenamesView { dangling: recorded(self.dangling, path, now), resolved: self.resolved }
        }
    }

    /// The state after a rename away from `old_path` was seen whole at the
    /// instant `now`.
    pub open spec fn after_rename_both(self, old_path: Seq<char>, now: nat) -> RenamesView {
        RenamesView {
            dangling: without(self.dangling, old_path),
            resolved: recorded(self.resolved, old_path, now),
        }
    }

    /// The paths that have dangled for longer than `max_age` at the instant
    /// `now`, in the order in which they began to.
    pub open spec fn overdue(self, now: nat, max_age: nat) -> Seq<Seq<char>> {
        paths_of(aged(self.dangling, now, max_age + 1))
    }

    /// The state after the paths that dangled for longer than `max_age` were
    /// given up.
    pub open spec fn after_dangling_sweep(self, now: nat, max_age: nat) -> RenamesView {
        RenamesView { dangling: fresh(self.dangling, now, max_age + 1), resolved: self.resolved }
    }

    /// The state after the markers that are at least `max_age` old were dropped.
    pub open spec fn after_marker_sweep(self, now: nat, max_age: nat) -> RenamesView {
        RenamesView { dangling: self.dangling, resolved: fresh(self.resolved, now, max_age) }
    }
}

/// A rename-from keeps the state well formed.
pub proof fn lemma_rename_from_wf(s: RenamesView, path: Seq<char>, now: nat)
    requires
        s.wf(),
    ensures
        s.after_rename_from(path, now).wf(),
{
    let next = s.after_rename_from(path, now);
    assert forall|other: Seq<char>| !(holds(next.dangling, other) && holds(next.resolved, other)) by {
        assert(!(holds(s.dangling, other) && holds(s.resolved, other)));
        if s.suppresses(path) {
            lemma_without_lookup(s.resolved, path, other);
        } else {
            lemma_recorded_lookup(s.dangling, path, now, other);
        }
    }
    if s.suppresses(path) {
        lemma_without_lookup(s.resolved, path, path);
    } else {
        lemma_recorded_lookup(s.dangling, path, now, path);
    }
}

/// A whole rename keeps the state well formed.
pub proof fn lemma_rename_both_wf(s: RenamesView, old_path: Seq<char>, now: nat)
    requires
        s.wf(),
    ensures
        s.after_rename_both(old_path, now).wf(),
{
    let next = s.after_rename_both(old_path, now);
    lemma_without_lookup(s.dangling, old_path, old_path);
    lemma_recorded_lookup(s.resolved, old_path, now, old_path);
    assert forall|other: Seq<char>| !(holds(next.dangling, other) && holds(next.resolved, other)) by {
        assert(!(holds(s.dangling, other) && holds(s.resolved, other)));
        lemma_without_lookup(s.dangling, old_path, other);
        lemma_recorded_lookup(s.resolved, old_path, now, other);
    }
}

/// Both sweeps keep the state well formed.
pub proof fn lemma_sweeps_wf(s: RenamesView, now: nat, max_age: nat)
    requires
        s.wf(),
    ensures
        s.after_dangling_sweep(now, max_age).wf(),
        s.after_marker_sweep(now, max_age).wf(),
{
    let a = s.after_dangling_sweep(now, max_age);
    let b = s.after_marker_sweep(now, max_age);
    let stay_a = |e: Stamped| !is_aged(e, now, max_age + 1);
    let stay_b = |e: Stamped| !is_aged(e, now, max_age);
    lemma_filter_lookup(s.dangling, stay_a, Seq::empty());
    lemma_filter_lookup(s.resolved, stay_b, Seq::empty());
    assert forall|other: Seq<char>| !(holds(a.dangling, other) && holds(a.resolved, other)) by {
        assert(!(holds(s.dangling, other) && holds(s.resolved, other)));
        lemma_filter_lookup(s.dangling, stay_a, other);
    }
    assert forall|other: Seq<char>| !(holds(b.dangling, other) && holds(b.resolved, other)) by {
        assert(!(holds(s.dangling, other) && holds(s.resolved, other)));
        lemma_filter_lookup(s.resolved, stay_b, other);
    }
}

/// Correlates the halves of renames.
#[derive(Debug)]
pub struct RenameCorrelator {
    dangling: PathTable,
    resolved: PathTable,
}

impl View for RenameCorrelator {
    type V = RenamesView;

    closed spec fn view(&self) -> RenamesView {
        RenamesView { dangling: self.dangling@, resolved: self.resolved@ }
    }
}

impl RenameCorrelator {
    /// Neither table names a path twice, and no path is in both.
    #[verifier::type_invariant]
    pub open spec fn inv(&self) -> bool {
        self@.wf()
    }

    /// A correlator that has seen nothing.
    pub fn new() -> (c: RenameCorrelator)
        ensures
            c@ == (RenamesView { dangling: Seq::empty(), resolved: Seq::empty() }),
            c@.wf(),
    {
        RenameCorrelator { dangling: PathTable::new(), resolved: PathTable::new() }
    }

    fn take_tables(&mut self) -> (tables: (PathTable, PathTable))
        ensures
            tables.0@ == old(self)@.dangling,
            tables.1@ == old(self)@.resolved,
            old(self)@.wf(),
    {
        proof {
            use_type_invariant(&*self);
        }
        let mut dangling = PathTable::new();
        let mut resolved = PathTable::new();
        core::mem::swap(&mut self.dangling, &mut dangling);
        core::mem::swap(&mut self.resolved, &mut resolved);
        (dangling, resolved)
    }

    /// Handles the first half of a rename, seen at the instant `now`. Where a
    /// whole rename away from `path` was seen a short while ago, this half
    /// comes late: it uses up the marker, changes nothing else, and the result
    /// is `true`. Otherwise the path starts to dangle from `now` on.
    pub fn on_rename_from(&mut self, path: String, now: u64) -> (suppressed: bool)
        ensures
            suppressed == old(self)@.suppresses(path@),
            final(self)@ == old(self)@.after_rename_from(path@, now as nat),
            final(self)@.wf(),
    {
        let (mut dangling, mut resolved) = self.take_tables();
        proof {
            lemma_rename_from_wf(old(self)@, path@, now as nat);
        }
        let suppressed = resolved.forget(&path).is_some();
        if !suppressed {
            proof {
                lemma_filter_uniform(old(self)@.resolved, |e: Stamped| e.path != path@);
            }
            dangling.record(path, now);
        }
        *self = RenameCorrelator { dangling, resolved };
        suppressed
    }

    /// Handles a rename seen whole at the instant `now`: `old_path` dangles no
    /// longer, a late first half for it will be ignored for a while, and the
    /// result is the rename to apply to the index.
    pub fn on_rename_both(&mut self, new_path: String, old_path: String, now: u64) -> (rename:
        Mutation)
        ensures
            final(self)@ == old(self)@.after_rename_both(old_path@, now as nat),
            final(self)@.wf(),
            rename.deep_view() == (MutationView::Rename {
                new_path: new_path@,
                old_path: old_path@,
            }),
    {
        let (mut dangling, mut resolved) = self.take_tables();
        proof {
            lemma_rename_both_wf(old(self)@, old_path@, now as nat);
        }
        let _ = dangling.forget(&old_path);
        resolved.record(old_path.clone(), now);
        *self = RenameCorrelator { dangling, resolved };
        Mutation::Rename { new_path, old_path }
    }

    /// Gives up the paths that have dangled for longer than `max_age` at the
    /// instant `now`: what was moved away from them has left the watched tree.
    /// The result names them in the order in which they began to dangle.
    pub fn sweep_dangling_renames(&mut self, now: u64, max_age: u64) -> (gone: Vec<String>)
        ensures
            final(self)@ == old(self)@.after_dangling_sweep(now as nat, max_age as nat),
            final(self)@.wf(),
            gone.deep_view() == old(self)@.overdue(now as nat, max_age as nat),
    {
        let (mut dangling, resolved) = self.take_tables();
        proof {
            lemma_sweeps_wf(old(self)@, now as nat, max_age as nat);
        }
        let gone = if max_age < u64::MAX {
            dangling.drain_aged(now, max_age + 1)
        } else {
            proof {
                let t = old(self)@.dangling;
                let limit = (max_age + 1) as nat;
                assert forall|i: int| 0 <= i < t.len() implies !is_aged(
                    #[trigger] t[i],
                    now as nat,
                    limit,
                ) by {
                    assert(age(now as nat, t[i].at) <= now);
                }
                lemma_filter_uniform(t, |e: Stamped| !is_aged(e, now as nat, limit));
                lemma_filter_uniform(t, |e: Stamped| is_aged(e, now as nat, limit));
                assert(paths_of(aged(t, now as nat, limit)) =~= Seq::<Seq<char>>::empty());
            }
            let none: Vec<String> = Vec::new();
            assert(none.deep_view() =~= Seq::<Seq<char>>::empty());
            none
        };
        *self = RenameCorrelator { dangling, resolved };
        gone
    }

    /// Drops the markers of resolved renames that are at least `max_age` old at
    /// the instant `now`. Nothing is asked of the index.
    pub fn sweep_resolved_markers(&mut self, now: u64, max_age: u64)
        ensures
            final(self)@ == old(self)@.after_marker_sweep(now as nat, max_age as nat),
            final(self)@.wf(),
    {
        let (dangling, mut resolved) = self.take_tables();
        proof {
            lemma_sweeps_wf(old(self)@, now as nat, max_age as nat);
        }
        let _ = resolved.drain_aged(now, max_age);
        *self = RenameCorrelator { dangling, resolved };
    }

    /// The instant from which `path` has dangled, if it does.
    pub fn dangling_since(&self, path: &String) -> (at: Option<u64>)
        ensures
            stamp_of(self@.dangling, path@) == match at {
                Some(a) => Some(a as nat),
                None => None,
            },
    {
        self.dangling.stamp(path)
    }

    /// The instant at which a rename away from `path` was resolved, while its
    /// marker lasts.
    pub fn resolved_at(&self, path: &String) -> (at: Option<u64>)
        ensures
            stamp_of(self@.resolved, path@) == match at {
                Some(a) => Some(a as nat),
                None => None,
            },
    {
        self.resolved.stamp(path)
    }
}

} // verus!
