//! What a raw notification means: the closed set of actions that the rest of the
//! crate works on, and the mapping from raw events to them.

use vstd::prelude::*;

verus! {

/// What was created, as far as the backend could tell.
#[derive(Debug, Clone, Copy, PartialEq, Eq)]
pub enum CreateKind {
    Any,
    File,
    Folder,
    Other,
}

/// How the content of a file changed, as far as the backend could tell.
#[derive(Debug, Clone, Copy, PartialEq, Eq)]
pub enum DataChange {
    Any,
    Size,
    Content,
    Other,
}

/// Which half of a rename an event reports.
#[derive(Debug, Clone, Copy, PartialEq, Eq)]
pub enum RenameMode {
    Any,
    /// Reported on the new name.
    To,
    /// Reported on the old name.
    From,
    /// Reported once, with the old name first and the new name second.
    Both,
    Other,
}

/// What was modified.
#[derive(Debug, Clone, Copy, PartialEq, Eq)]
pub enum ModifyKind {
    Any,
    Data(DataChange),
    Metadata,
    Name(RenameMode),
    Other,
}

/// The kind of a raw notification.
#[derive(Debug, Clone, Copy, PartialEq, Eq)]
pub enum RawKind {
    Any,
    Access,
    Create(CreateKind),
    Modify(ModifyKind),
    Remove,
    Other,
}

/// A raw notification: its kind and the paths it is about, in the order in which
/// the backend gave them.
#[derive(Debug, Clone, PartialEq, Eq)]
pub struct RawEvent {
    pub kind: RawKind,
    pub paths: Vec<String>,
}

/// What a notification asks of the index.
#[derive(Debug, Clone, PartialEq, Eq)]
pub enum Action {
    /// A file appeared; its content may still be changing.
    CreateFile(String),
    /// A directory appeared.
    CreateDir(String),
    /// The content of a file changed.
    DataChanged(String),
    /// Something was moved away from this path; where to is not known yet.
    RenameFrom(String),
    /// Something was moved from `old_path` to `new_path`.
    RenameBoth { new_path: String, old_path: String },
    /// Something was removed.
    Remove(String),
    /// Nothing that concerns the index.
    Ignored,
}

/// An [`Action`] with its paths as sequences of characters.
pub enum ActionView {
    CreateFile(Seq<char>),
    CreateDir(Seq<char>),
    DataChanged(Seq<char>),
    RenameFrom(Seq<char>),
    RenameBoth { new_path: Seq<char>, old_path: Seq<char> },
    Remove(Seq<char>),
    Ignored,
}

impl DeepView for Action {
    type V = ActionView;

    open spec fn deep_view(&self) -> ActionView {
        match *self {
            Action::CreateFile(p) => ActionView::CreateFile(p@),
            Action::CreateDir(p) => ActionView::CreateDir(p@),
            Action::DataChanged(p) => ActionView::DataChanged(p@),
            Action::RenameFrom(p) => ActionView::RenameFrom(p@),
            Action::RenameBoth { new_path, old_path } => ActionView::RenameBoth {
                new_path: new_path@,
                old_path: old_path@,
            },
            Action::Remove(p) => ActionView::Remove(p@),
            Action::Ignored => ActionView::Ignored,
        }
    }
}

impl ActionView {
    /// The path whose metadata must be looked up before the action is handled:
    /// a new directory, or the new name of a rename.
    pub open spec fn metadata_path(self) -> Option<Seq<char>> {
        match self {
            ActionView::CreateDir(p) => Some(p),
            ActionView::RenameBoth { new_path, old_path } => Some(new_path),
            _ => None,
        }
    }
}

/// Why a single event could not be handled. The handler goes on with the next.
#[derive(Debug, Clone, Copy, PartialEq, Eq)]
pub enum EventError {
    /// The event names fewer paths than its kind calls for.
    MissingPath,
    /// The metadata that the action needs could not be read.
    MetadataUnavailable,
}

/// How many paths an event of this kind must name.
pub open spec fn paths_needed(kind: RawKind) -> nat {
    match kind {
        RawKind::Create(CreateKind::File) => 1,
        RawKind::Create(CreateKind::Folder) => 1,
        RawKind::Modify(ModifyKind::Data(DataChange::Any)) => 1,
        RawKind::Modify(ModifyKind::Name(RenameMode::From)) => 1,
        RawKind::Modify(ModifyKind::Name(RenameMode::Both)) => 2,
        RawKind::Remove => 1,
        _ => 0,
    }
}

/// The action that an event of this kind about these paths stands for.
pub open spec fn classified(kind: RawKind, paths: Seq<Seq<char>>) -> Result<
    ActionView,
    EventError,
> {
    if paths.len() < paths_needed(kind) {
        Err(EventError::MissingPath)
    } else {
        Ok(
            match kind {
                RawKind::Create(CreateKind::File) => ActionView::CreateFile(paths[0]),
                RawKind::Create(CreateKind::Folder) => ActionView::CreateDir(paths[0]),
                RawKind::Modify(ModifyKind::Data(DataChange::Any)) => ActionView::DataChanged(
                    paths[0],
                ),
                RawKind::Modify(ModifyKind::Name(RenameMode::From)) => ActionView::RenameFrom(
                    paths[0],
                ),
                RawKind::Modify(ModifyKind::Name(RenameMode::Both)) => ActionView::RenameBoth {
                    new_path: paths[1],
                    old_path: paths[0],
                },
                RawKind::Remove => ActionView::Remove(paths[0]),
                _ => ActionView::Ignored,
            },
        )
    }
}

/// Maps a raw notification to the action it stands for. An event that names
/// fewer paths than its kind calls for is refused; paths beyond those are not
/// looked at.
pub fn classify(event: RawEvent) -> (action: Result<Action, EventError>)
    ensures
        match action {
            Ok(a) => classified(event.kind, event.paths.deep_view()) == Ok::<
                ActionView,
                EventError,
            >(a.deep_view()),
            Err(e) => classified(event.kind, event.paths.deep_view()) == Err::<
                ActionView,
                EventError,
            >(e),
        },
{
    let RawEvent { kind, paths } = event;
    let mut paths = paths;
    match kind {
        RawKind::Create(CreateKind::File) => {
            if paths.len() < 1 {
                return Err(EventError::MissingPath);
            }
            Ok(Action::CreateFile(paths.swap_remove(0)))
        },
        RawKind::Create(CreateKind::Folder) => {
            if paths.len() < 1 {
                return Err(EventError::MissingPath);
            }
            Ok(Action::CreateDir(paths.swap_remove(0)))
        },
        RawKind::Modify(ModifyKind::Data(DataChange::Any)) => {
            if paths.len() < 1 {
                return Err(EventError::MissingPath);
            }
            Ok(Action::DataChanged(paths.swap_remove(0)))
        },
        RawKind::Modify(ModifyKind::Name(RenameMode::From)) => {
            if paths.len() < 1 {
                return Err(EventError::MissingPath);
            }
            Ok(Action::RenameFrom(paths.swap_remove(0)))
        },
        RawKind::Modify(ModifyKind::Name(RenameMode::Both)) => {
            if paths.len() < 2 {
                return Err(EventError::MissingPath);
            }
            let new_path = paths.swap_remove(1);
            let old_path = paths.swap_remove(0);
            Ok(Action::RenameBoth { new_path, old_path })
        },
        RawKind::Remove => {
            if paths.len() < 1 {
                return Err(EventError::MissingPath);
            }
            Ok(Action::Remove(paths.swap_remove(0)))
        },
        _ => Ok(Action::Ignored),
    }
}

impl Action {
    /// The path whose metadata must be looked up before the action is handled.
    pub fn metadata_path(&self) -> (path: Option<&String>)
        ensures
            match path {
                Some(p) => self.deep_view().metadata_path() == Some(p@),
                None => self.deep_view().metadata_path() is None,
            },
    {
        match self {
            Action::CreateDir(p) => Some(p),
            Action::RenameBoth { new_path, old_path: _ } => Some(new_path),
            _ => None,
        }
    }
}

} // verus!
