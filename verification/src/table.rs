//! A table of paths, each stamped with the instant of its latest record.
//!
//! The table keeps its entries in the order in which they were recorded, so that
//! what a sweep hands out is a function of the table alone.

use vstd::prelude::*;
use crate::timing::{age, age_of};

verus! {

/// A path and the instant at which it was recorded.
pub struct Stamped {
    pub path: Seq<char>,
    pub at: nat,
}

/// Whether some entry of `t` is about `path`.
pub open spec fn holds(t: Seq<Stamped>, path: Seq<char>) -> bool {
    exists|i: int| 0 <= i < t.len() && (#[trigger] t[i]).path == path
}

/// The instant recorded for `path`, if `t` has an entry about it.
pub open spec fn stamp_of(t: Seq<Stamped>, path: Seq<char>) -> Option<nat> {
    if holds(t, path) {
        Some(t[choose|i: int| 0 <= i < t.len() && (#[trigger] t[i]).path == path].at)
    } else {
        None
    }
}

/// No two entries of `t` are about the same path.
pub open spec fn distinct(t: Seq<Stamped>) -> bool {
    forall|i: int, j: int|
        0 <= i < j < t.len() ==> (#[trigger] t[i]).path != (#[trigger] t[j]).path
}

/// `t` with the entry about `path` taken out.
pub open spec fn without(t: Seq<Stamped>, path: Seq<char>) -> Seq<Stamped> {
    t.filter(|e: Stamped| e.path != path)
}

/// `t` after `path` was recorded at the instant `at`: an earlier entry about the
/// path is gone and the new one stands last.
pub open spec fn recorded(t: Seq<Stamped>, path: Seq<char>, at: nat) -> Seq<Stamped> {
    without(t, path).push(Stamped { path, at })
}

/// Whether the entry has reached the age `min_age` at the instant `now`.
pub open spec fn is_aged(e: Stamped, now: nat, min_age: nat) -> bool {
    age(now, e.at) >= min_age
}

/// The entries of `t` that have reached the age `min_age`, in table order.
pub open spec fn aged(t: Seq<Stamped>, now: nat, min_age: nat) -> Seq<Stamped> {
    t.filter(|e: Stamped| is_aged(e, now, min_age))
}

/// The entries of `t` that have not reached the age `min_age`, in table order.
pub open spec fn fresh(t: Seq<Stamped>, now: nat, min_age: nat) -> Seq<Stamped> {
    t.filter(|e: Stamped| !is_aged(e, now, min_age))
}

/// The paths of the entries of `t`, in table order.
pub open spec fn paths_of(t: Seq<Stamped>) -> Seq<Seq<char>> {
    t.map_values(|e: Stamped| e.path)
}

/// Filtering a prefix that is one entry longer either appends that entry or
/// changes nothing.
pub proof fn lemma_filter_next(t: Seq<Stamped>, keep: spec_fn(Stamped) -> bool, i: int)
    requires
        0 <= i < t.len(),
    ensures
        t.take(i + 1).filter(keep) == if keep(t[i]) {
            t.take(i).filter(keep).push(t[i])
        } else {
            t.take(i).filter(keep)
        },
{
    reveal(Seq::filter);
    assert(t.take(i + 1).drop_last() =~= t.take(i));
}

/// Every entry of a filtered table is an entry of the table that the filter
/// keeps, and the filter loses none of those.
pub proof fn lemma_filter_entries(t: Seq<Stamped>, keep: spec_fn(Stamped) -> bool)
    ensures
        forall|k: int|
            0 <= k < t.filter(keep).len() ==> keep(#[trigger] t.filter(keep)[k]) && t.contains(
                t.filter(keep)[k],
            ),
        forall|i: int| 0 <= i < t.len() && keep(t[i]) ==> t.filter(keep).contains(#[trigger] t[i]),
    decreases t.len(),
{
    reveal(Seq::filter);
    if t.len() > 0 {
        let front = t.drop_last();
        lemma_filter_entries(front, keep);
        let out = t.filter(keep);
        assert forall|k: int| 0 <= k < out.len() implies keep(#[trigger] out[k]) && t.contains(
            out[k],
        ) by {
            if k < front.filter(keep).len() {
                let e = front.filter(keep)[k];
                assert(front.contains(e));
                let i = choose|i: int| 0 <= i < front.len() && front[i] == e;
                assert(t[i] == e);
            } else {
                assert(out[k] == t[t.len() - 1]);
            }
        }
        assert forall|i: int| 0 <= i < t.len() && keep(t[i]) implies out.contains(
            #[trigger] t[i],
        ) by {
            if i < front.len() {
                assert(front[i] == t[i]);
                assert(front.filter(keep).contains(front[i]));
                let k = choose|k: int|
                    0 <= k < front.filter(keep).len() && front.filter(keep)[k] == front[i];
                assert(out[k] == t[i]);
            } else {
                assert(out[out.len() - 1] == t[i]);
            }
        }
    }
}

/// Filtering keeps a table free of repeated paths.
pub proof fn lemma_filter_distinct(t: Seq<Stamped>, keep: spec_fn(Stamped) -> bool)
    requires
        distinct(t),
    ensures
        distinct(t.filter(keep)),
    decreases t.len(),
{
    reveal(Seq::filter);
    if t.len() > 0 {
        let front = t.drop_last();
        assert forall|i: int, j: int| 0 <= i < j < front.len() implies (#[trigger] front[i]).path
            != (#[trigger] front[j]).path by {
            assert(front[i] == t[i] && front[j] == t[j]);
        }
        lemma_filter_distinct(front, keep);
        lemma_filter_entries(front, keep);
        let out = t.filter(keep);
        assert forall|i: int, j: int| 0 <= i < j < out.len() implies (#[trigger] out[i]).path != (
        #[trigger] out[j]).path by {
            if j < front.filter(keep).len() {
                assert(out[i] == front.filter(keep)[i] && out[j] == front.filter(keep)[j]);
            } else {
                let e = front.filter(keep)[i];
                assert(out[i] == e);
                assert(front.contains(e));
                let k = choose|k: int| 0 <= k < front.len() && front[k] == e;
                assert(t[k] == e);
                assert(out[j] == t[t.len() - 1]);
            }
        }
    }
}

/// In a table without repeated paths, the entry at `i` is the one that a lookup
/// of its path finds.
pub proof fn lemma_stamp_at(t: Seq<Stamped>, i: int)
    requires
        distinct(t),
        0 <= i < t.len(),
    ensures
        holds(t, t[i].path),
        stamp_of(t, t[i].path) == Some(t[i].at),
{
    let p = t[i].path;
    assert(holds(t, p));
    let c = choose|c: int| 0 <= c < t.len() && (#[trigger] t[c]).path == p;
    if c < i {
        assert(t[c].path != t[i].path);
    } else if i < c {
        assert(t[i].path != t[c].path);
    }
}

/// A filtered table knows a path exactly when the table knows it and the filter
/// keeps its entry; the instant is then unchanged.
pub proof fn lemma_filter_lookup(t: Seq<Stamped>, keep: spec_fn(Stamped) -> bool, path: Seq<char>)
    requires
        distinct(t),
    ensures
        distinct(t.filter(keep)),
        stamp_of(t.filter(keep), path) == match stamp_of(t, path) {
            Some(at) => if keep(Stamped { path, at }) {
                Some(at)
            } else {
                None
            },
            None => None,
        },
{
    let out = t.filter(keep);
    lemma_filter_distinct(t, keep);
    lemma_filter_entries(t, keep);
    if holds(out, path) {
        let k = choose|k: int| 0 <= k < out.len() && (#[trigger] out[k]).path == path;
        assert(t.contains(out[k]));
        let i = choose|i: int| 0 <= i < t.len() && t[i] == out[k];
        lemma_stamp_at(t, i);
        lemma_stamp_at(out, k);
    } else if holds(t, path) {
        let i = choose|i: int| 0 <= i < t.len() && (#[trigger] t[i]).path == path;
        lemma_stamp_at(t, i);
        if keep(t[i]) {
            assert(out.contains(t[i]));
            let k = choose|k: int| 0 <= k < out.len() && out[k] == t[i];
            assert(out[k].path == path);
        }
    }
}

/// Taking a path out of a table removes its entry and touches no other.
pub proof fn lemma_without_lookup(t: Seq<Stamped>, path: Seq<char>, other: Seq<char>)
    requires
        distinct(t),
    ensures
        distinct(without(t, path)),
        stamp_of(without(t, path), other) == if other == path {
            None
        } else {
            stamp_of(t, other)
        },
{
    lemma_filter_lookup(t, |e: Stamped| e.path != path, other);
}

/// Recording a path sets its instant and touches no other entry.
pub proof fn lemma_recorded_lookup(t: Seq<Stamped>, path: Seq<char>, at: nat, other: Seq<char>)
    requires
        distinct(t),
    ensures
        distinct(recorded(t, path, at)),
        stamp_of(recorded(t, path, at), other) == if other == path {
            Some(at)
        } else {
            stamp_of(t, other)
        },
{
    let rest = without(t, path);
    let out = recorded(t, path, at);
    lemma_without_lookup(t, path, path);
    lemma_without_lookup(t, path, other);
    assert forall|i: int, j: int| 0 <= i < j < out.len() implies (#[trigger] out[i]).path != (
    #[trigger] out[j]).path by {
        if j < rest.len() {
            assert(out[i] == rest[i] && out[j] == rest[j]);
        } else {
            assert(out[i] == rest[i]);
            assert(holds(rest, rest[i].path));
        }
    }
    let last = out.len() - 1;
    assert(out[last] == Stamped { path, at });
    if other == path {
        lemma_stamp_at(out, last);
    } else if holds(rest, other) {
        let i = choose|i: int| 0 <= i < rest.len() && (#[trigger] rest[i]).path == other;
        lemma_stamp_at(rest, i);
        assert(out[i] == rest[i]);
        lemma_stamp_at(out, i);
    } else if holds(out, other) {
        let k = choose|k: int| 0 <= k < out.len() && (#[trigger] out[k]).path == other;
        assert(out[k] == rest[k]);
    }
}

/// The entries that a sweep keeps are those that had not reached the age.
pub proof fn lemma_fresh_lookup(t: Seq<Stamped>, now: nat, min_age: nat, path: Seq<char>)
    requires
        distinct(t),
    ensures
        distinct(fresh(t, now, min_age)),
        stamp_of(fresh(t, now, min_age), path) == match stamp_of(t, path) {
            Some(at) => if age(now, at) < min_age {
                Some(at)
            } else {
                None
            },
            None => None,
        },
{
    lemma_filter_lookup(t, |e: Stamped| !is_aged(e, now, min_age), path);
}

/// The entries that a sweep hands out are those that had reached the age.
pub proof fn lemma_aged_lookup(t: Seq<Stamped>, now: nat, min_age: nat, path: Seq<char>)
    requires
        distinct(t),
    ensures
        distinct(aged(t, now, min_age)),
        stamp_of(aged(t, now, min_age), path) == match stamp_of(t, path) {
            Some(at) => if age(now, at) >= min_age {
                Some(at)
            } else {
                None
            },
            None => None,
        },
{
    lemma_filter_lookup(t, |e: Stamped| is_aged(e, now, min_age), path);
}

/// A filter that keeps every entry changes nothing, and one that keeps none
/// leaves nothing.
pub proof fn lemma_filter_uniform<A>(t: Seq<A>, keep: spec_fn(A) -> bool)
    ensures
        (forall|i: int| 0 <= i < t.len() ==> keep(#[trigger] t[i])) ==> t.filter(keep) == t,
        (forall|i: int| 0 <= i < t.len() ==> !keep(#[trigger] t[i])) ==> t.filter(keep).len() == 0,
    decreases t.len(),
{
    reveal(Seq::filter);
    if t.len() > 0 {
        let front = t.drop_last();
        lemma_filter_uniform(front, keep);
        assert(forall|i: int| 0 <= i < front.len() ==> front[i] == t[i]);
        if forall|i: int| 0 <= i < t.len() ==> keep(#[trigger] t[i]) {
            assert(front.push(t.last()) =~= t);
        }
    }
}

/// In a table without repeated paths, taking out the path of the entry at `i`
/// removes that entry and no other.
pub proof fn lemma_without_at(t: Seq<Stamped>, i: int)
    requires
        distinct(t),
        0 <= i < t.len(),
    ensures
        without(t, t[i].path) == t.remove(i),
    decreases t.len(),
{
    reveal(Seq::filter);
    let path = t[i].path;
    let keep = |e: Stamped| e.path != path;
    let front = t.drop_last();
    if i == t.len() - 1 {
        assert forall|k: int| 0 <= k < front.len() implies keep(#[trigger] front[k]) by {
            assert(front[k] == t[k]);
            assert(t[k].path != t[i].path);
        }
        lemma_filter_uniform(front, keep);
        assert(t.remove(i) =~= front);
    } else {
        assert(front[i] == t[i]);
        assert forall|a: int, b: int| 0 <= a < b < front.len() implies (#[trigger] front[a]).path
            != (#[trigger] front[b]).path by {
            assert(front[a] == t[a] && front[b] == t[b]);
        }
        lemma_without_at(front, i);
        assert(t[i].path != t[t.len() - 1].path);
        assert(t.remove(i) =~= front.remove(i).push(t.last()));
    }
}

/// Right after a sweep, a second sweep at the same instant finds nothing aged
/// and keeps everything.
pub proof fn lemma_sweep_settles(t: Seq<Stamped>, now: nat, min_age: nat)
    ensures
        aged(fresh(t, now, min_age), now, min_age).len() == 0,
        fresh(fresh(t, now, min_age), now, min_age) == fresh(t, now, min_age),
{
    let kept = fresh(t, now, min_age);
    lemma_filter_entries(t, |e: Stamped| !is_aged(e, now, min_age));
    lemma_filter_uniform(kept, |e: Stamped| is_aged(e, now, min_age));
    lemma_filter_uniform(kept, |e: Stamped| !is_aged(e, now, min_age));
}

/// An entry of a [`PathTable`]: a path and the instant of its latest record.
#[derive(Debug, Clone, PartialEq, Eq)]
pub struct Entry {
    pub path: String,
    pub at: u64,
}

impl DeepView for Entry {
    type V = Stamped;

    open spec fn deep_view(&self) -> Stamped {
        Stamped { path: self.path@, at: self.at as nat }
    }
}

/// Paths in the order of their latest record, each with the instant of it.
#[derive(Debug)]
pub struct PathTable {
    entries: Vec<Entry>,
}

impl View for PathTable {
    type V = Seq<Stamped>;

    closed spec fn view(&self) -> Seq<Stamped> {
        self.entries.deep_view()
    }
}

impl PathTable {
    /// No path stands twice in a table.
    #[verifier::type_invariant]
    pub open spec fn inv(&self) -> bool {
        distinct(self@)
    }

    /// A table without entries.
    pub fn new() -> (t: PathTable)
        ensures
            t@ == Seq::<Stamped>::empty(),
            distinct(t@),
    {
        let t = PathTable { entries: Vec::new() };
        assert(t@ =~= Seq::<Stamped>::empty());
        t
    }

    /// The number of paths in the table.
    pub fn len(&self) -> (n: usize)
        ensures
            n == self@.len(),
    {
        self.entries.len()
    }

    fn take_entries(&mut self) -> (entries: Vec<Entry>)
        ensures
            entries.deep_view() == old(self)@,
            final(self)@ == Seq::<Stamped>::empty(),
    {
        let mut entries: Vec<Entry> = Vec::new();
        assert(entries.deep_view() =~= Seq::<Stamped>::empty());
        core::mem::swap(&mut self.entries, &mut entries);
        entries
    }

    fn position(&self, path: &String) -> (found: Option<usize>)
        ensures
            match found {
                Some(i) => i < self@.len() && self@[i as int].path == path@,
                None => !holds(self@, path@),
            },
    {
        let mut i: usize = 0;
        while i < self.entries.len()
            invariant
                i <= self.entries.len(),
                forall|k: int| 0 <= k < i ==> (#[trigger] self@[k]).path != path@,
            decreases self.entries.len() - i,
        {
            if self.entries[i].path == *path {
                return Some(i);
            }
            i += 1;
        }
        None
    }

    /// The instant recorded for `path`, if the table knows the path.
    pub fn stamp(&self, path: &String) -> (at: Option<u64>)
        ensures
            stamp_of(self@, path@) == match at {
                Some(a) => Some(a as nat),
                None => None,
            },
    {
        proof {
            use_type_invariant(self);
        }
        match self.position(path) {
            Some(i) => {
                proof {
                    lemma_stamp_at(self@, i as int);
                }
                Some(self.entries[i].at)
            },
            None => None,
        }
    }

    /// Whether the table knows `path`.
    pub fn contains(&self, path: &String) -> (known: bool)
        ensures
            known == holds(self@, path@),
    {
        self.position(path).is_some()
    }

    /// Takes `path` out of the table and returns the instant that was recorded
    /// for it, if there was one.
    pub fn forget(&mut self, path: &String) -> (at: Option<u64>)
        ensures
            final(self)@ == without(old(self)@, path@),
            distinct(final(self)@),
            stamp_of(old(self)@, path@) == match at {
                Some(a) => Some(a as nat),
                None => None,
            },
    {
        proof {
            use_type_invariant(&*self);
        }
        match self.position(path) {
            Some(i) => {
                let mut entries = self.take_entries();
                proof {
                    let t = entries.deep_view();
                    lemma_stamp_at(t, i as int);
                    lemma_without_at(t, i as int);
                    lemma_filter_distinct(t, |e: Stamped| e.path != path@);
                    assert(t.remove(i as int) =~= entries@.remove(i as int).map_values(
                        |e: Entry| e.deep_view(),
                    ));
                }
                let gone = entries.remove(i);
                assert(entries.deep_view() =~= old(self)@.remove(i as int));
                self.entries = entries;
                Some(gone.at)
            },
            None => {
                proof {
                    lemma_filter_uniform(self@, |e: Stamped| e.path != path@);
                }
                None
            },
        }
    }

    /// Records `path` at the instant `at`, in place of what was recorded for it
    /// before.
    pub fn record(&mut self, path: String, at: u64)
        ensures
            final(self)@ == recorded(old(self)@, path@, at as nat),
            distinct(final(self)@),
    {
        proof {
            use_type_invariant(&*self);
            lemma_recorded_lookup(self@, path@, at as nat, path@);
        }
        let _ = self.forget(&path);
        let mut entries = self.take_entries();
        entries.push(Entry { path, at });
        assert(entries.deep_view() =~= recorded(old(self)@, path@, at as nat));
        self.entries = entries;
    }

    /// Takes out every entry that has reached the age `min_age` at the instant
    /// `now`, and returns the paths of those entries in table order.
    pub fn drain_aged(&mut self, now: u64, min_age: u64) -> (out: Vec<String>)
        ensures
            final(self)@ == fresh(old(self)@, now as nat, min_age as nat),
            distinct(final(self)@),
            out.deep_view() == paths_of(aged(old(self)@, now as nat, min_age as nat)),
    {
        proof {
            use_type_invariant(&*self);
        }
        let entries = self.take_entries();
        let ghost all = entries.deep_view();
        let ghost stay = |e: Stamped| !is_aged(e, now as nat, min_age as nat);
        let ghost leave = |e: Stamped| is_aged(e, now as nat, min_age as nat);
        let mut kept: Vec<Entry> = Vec::new();
        let mut out: Vec<String> = Vec::new();
        assert(all.take(0).filter(stay) =~= Seq::<Stamped>::empty()) by {
            lemma_filter_uniform(all.take(0), stay);
        }
        assert(all.take(0).filter(leave) =~= Seq::<Stamped>::empty()) by {
            lemma_filter_uniform(all.take(0), leave);
        }
        assert(kept.deep_view() =~= all.take(0).filter(stay));
        assert(out.deep_view() =~= paths_of(all.take(0).filter(leave)));
        for e in it: entries
            invariant
                it.seq() == entries@,
                all == entries.deep_view(),
                stay == |e: Stamped| !is_aged(e, now as nat, min_age as nat),
                leave == |e: Stamped| is_aged(e, now as nat, min_age as nat),
                kept.deep_view() == all.take(it.index()).filter(stay),
                out.deep_view() == paths_of(all.take(it.index()).filter(leave)),
        {
            proof {
                lemma_filter_next(all, stay, it.index());
                lemma_filter_next(all, leave, it.index());
            }
            if age_of(now, e.at) >= min_age {
                let ghost before = all.take(it.index()).filter(leave);
                assert(all[it.index()] == e.deep_view());
                assert(paths_of(before.push(all[it.index()])) =~= paths_of(before).push(e.path@));
                out.push(e.path);
                assert(out.deep_view() =~= paths_of(before).push(e.path@));
            } else {
                kept.push(e);
                assert(kept.deep_view() =~= all.take(it.index() + 1).filter(stay));
            }
        }
        proof {
            assert(all.take(all.len() as int) =~= all);
            lemma_filter_distinct(all, stay);
        }
        self.entries = kept;
        out
    }
}

} // verus!
