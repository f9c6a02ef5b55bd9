//! What the engine asks of the index.

use vstd::prelude::*;

verus! {

/// One change to apply to the index.
#[derive(Debug, Clone, PartialEq, Eq)]
pub enum Mutation {
    /// Add the directory at this path.
    CreateDir(String),
    /// Read the file at this path again.
    UpdateFile(String),
    /// Drop what the index holds for this path.
    Remove(String),
    /// Move what the index holds for `old_path` to `new_path`.
    Rename { new_path: String, old_path: String },
}

/// A [`Mutation`] with its paths as sequences of characters.
pub enum MutationView {
    CreateDir(Seq<char>),
    UpdateFile(Seq<char>),
    Remove(Seq<char>),
    Rename { new_path: Seq<char>, old_path: Seq<char> },
}

impl DeepView for Mutation {
    type V = MutationView;

    open spec fn deep_view(&self) -> MutationView {
        match *self {
            Mutation::CreateDir(p) => MutationView::CreateDir(p@),
            Mutation::UpdateFile(p) => MutationView::UpdateFile(p@),
            Mutation::Remove(p) => MutationView::Remove(p@),
            Mutation::Rename { new_path, old_path } => MutationView::Rename {
                new_path: new_path@,
                old_path: old_path@,
            },
        }
    }
}

/// What one step of the handler hands to the index: the mutations in the order
/// in which to apply them, and whether to signal afterwards that something
/// changed.
#[derive(Debug, Clone, PartialEq, Eq)]
pub struct Emission {
    pub mutations: Vec<Mutation>,
    pub notify_changed: bool,
}

/// An [`Emission`] with its mutations as a sequence of views.
pub struct EmissionView {
    pub mutations: Seq<MutationView>,
    pub notify_changed: bool,
}

impl DeepView for Emission {
    type V = EmissionView;

    open spec fn deep_view(&self) -> EmissionView {
        EmissionView {
            mutations: self.mutations.deep_view(),
            notify_changed: self.notify_changed,
        }
    }
}

impl Emission {
    /// Nothing to apply and nothing to signal.
    pub fn nothing() -> (e: Emission)
        ensures
            e.deep_view() == EmissionView::nothing(),
    {
        let e = Emission { mutations: Vec::new(), notify_changed: false };
        assert(e.deep_view().mutations =~= Seq::<MutationView>::empty());
        e
    }

    /// One mutation, with or without a signal after it.
    pub fn single(mutation: Mutation, notify_changed: bool) -> (e: Emission)
        ensures
            e.deep_view() == (EmissionView {
                mutations: seq![mutation.deep_view()],
                notify_changed,
            }),
    {
        let mut mutations: Vec<Mutation> = Vec::new();
        mutations.push(mutation);
        let e = Emission { mutations, notify_changed };
        assert(e.deep_view().mutations =~= seq![mutation.deep_view()]);
        e
    }
}

impl EmissionView {
    /// Nothing to apply and nothing to signal.
    pub open spec fn nothing() -> EmissionView {
        EmissionView { mutations: Seq::empty(), notify_changed: false }
    }
}

/// An update for each of the paths, in their order.
pub open spec fn updates_for(paths: Seq<Seq<char>>) -> Seq<MutationView> {
    paths.map_values(|p: Seq<char>| MutationView::UpdateFile(p))
}

/// A removal for each of the paths, in their order.
pub open spec fn removals_for(paths: Seq<Seq<char>>) -> Seq<MutationView> {
    paths.map_values(|p: Seq<char>| MutationView::Remove(p))
}

/// Appends an update for each of the paths.
pub fn push_updates(mutations: &mut Vec<Mutation>, paths: Vec<String>)
    ensures
        final(mutations).deep_view() == old(mutations).deep_view() + updates_for(
            paths.deep_view(),
        ),
{
    let ghost before = mutations.deep_view();
    let ghost all = paths.deep_view();
    assert(mutations.deep_view() =~= before + updates_for(all.take(0)));
    for path in it: paths
        invariant
            it.seq() == paths@,
            all == paths.deep_view(),
            mutations.deep_view() == before + updates_for(all.take(it.index())),
    {
        assert(updates_for(all.take(it.index() + 1)) =~= updates_for(all.take(it.index())).push(
            MutationView::UpdateFile(path@),
        ));
        let ghost p = path@;
        let ghost prev = mutations.deep_view();
        assert(all[it.index()] == p);
        mutations.push(Mutation::UpdateFile(path));
        assert(mutations.deep_view() =~= prev.push(MutationView::UpdateFile(p)));
        assert(mutations.deep_view() =~= before + updates_for(all.take(it.index() + 1)));
    }
    assert(all.take(all.len() as int) =~= all);
}

/// Appends a removal for each of the paths.
pub fn push_removals(mutations: &mut Vec<Mutation>, paths: Vec<String>)
    ensures
        final(mutations).deep_view() == old(mutations).deep_view() + removals_for(
            paths.deep_view(),
        ),
{
    let ghost before = mutations.deep_view();
    let ghost all = paths.deep_view();
    assert(mutations.deep_view() =~= before + removals_for(all.take(0)));
    for path in it: paths
        invariant
            it.seq() == paths@,
            all == paths.deep_view(),
            mutations.deep_view() == before + removals_for(all.take(it.index())),
    {
        assert(removals_for(all.take(it.index() + 1)) =~= removals_for(
            all.take(it.index()),
        ).push(MutationView::Remove(path@)));
        let ghost p = path@;
        let ghost prev = mutations.deep_view();
        assert(all[it.index()] == p);
        mutations.push(Mutation::Remove(path));
        assert(mutations.deep_view() =~= prev.push(MutationView::Remove(p)));
        assert(mutations.deep_view() =~= before + removals_for(all.take(it.index() + 1)));
    }
    assert(all.take(all.len() as int) =~= all);
}

} // verus!
