//! Which changes below the configuration's directory lead to a reload.

use vstd::prelude::*;
use vstd::string::*;

use crate::text;

verus! {

/// How long to wait for more changes before reloading.
pub const DEBOUNCE_MS: u64 = 100;

/// What about a file was modified.
#[derive(Clone, Copy, Debug, PartialEq, Eq, Structural)]
pub enum ModifyKind {
    Any,
    Data,
    Metadata,
    Name,
    Other,
}

/// What happened to a file.
#[derive(Clone, Copy, Debug, PartialEq, Eq, Structural)]
pub enum EventKind {
    Any,
    Access,
    Create,
    Modify(ModifyKind),
    Remove,
    Other,
}

/// Whether a file may hold something else afterwards.
pub open spec fn writes(kind: EventKind) -> bool {
    match kind {
        EventKind::Create => true,
        EventKind::Remove => true,
        EventKind::Modify(m) => m != ModifyKind::Metadata,
        _ => false,
    }
}

/// Whether a file may hold something else afterwards.
pub fn is_write_kind(kind: &EventKind) -> (r: bool)
    ensures
        r == writes(*kind),
{
    match kind {
        EventKind::Create => true,
        EventKind::Remove => true,
        EventKind::Modify(m) => *m != ModifyKind::Metadata,
        _ => false,
    }
}

/// Whether one of the paths, each by its last part where it has one, is called
/// `basename`.
pub open spec fn touches(names: Seq<Option<String>>, basename: Seq<char>) -> bool {
    exists|i: int| 0 <= i < names.len() && text::opt(#[trigger] names[i]) == Some(basename)
}

/// Whether an event is about the file called `basename`.
pub fn event_touches(names: &Vec<Option<String>>, basename: &str) -> (r: bool)
    ensures
        r == touches(names@, basename@),
{
    let mut i: usize = 0;
    while i < names.len()
        invariant
            i <= names@.len(),
            forall|k: int| 0 <= k < i ==> text::opt(#[trigger] names@[k]) != Some(basename@),
        decreases names.len() - i,
    {
        if let Some(name) = &names[i] {
            if text::str_eq(name.as_str(), basename) {
                assert(text::opt(names@[i as int]) == Some(basename@));
                return true;
            }
        }
        i = i + 1;
    }
    false
}

/// What the watcher hears.
#[derive(Debug)]
pub enum Heard {
    /// Something happened to the files whose paths have these last parts.
    Event { kind: EventKind, names: Vec<Option<String>> },
    /// Something went wrong.
    Failure,
    /// Nothing came until the end of the wait.
    Quiet,
    /// Nothing will come any more.
    Closed,
}

/// What the watcher does.
#[derive(Clone, Copy, Debug, PartialEq, Eq, Structural)]
pub enum Reaction {
    /// Waits for an event, however long that takes.
    Listen,
    /// Starts to wait [`DEBOUNCE_MS`] for more.
    StartWait,
    /// Goes on waiting until the end of the wait that was started.
    KeepWaiting,
    /// Reloads, and waits for an event.
    Reload,
    /// Reloads, and leaves.
    ReloadAndStop,
    /// Leaves.
    Stop,
}

/// What the watcher does on what it hears, in a wait or outside of one.
pub open spec fn reaction(waiting: bool, heard: Heard, basename: Seq<char>) -> Reaction {
    match heard {
        Heard::Closed => if waiting {
            Reaction::ReloadAndStop
        } else {
            Reaction::Stop
        },
        Heard::Quiet => if waiting {
            Reaction::Reload
        } else {
            Reaction::Listen
        },
        Heard::Failure => if waiting {
            Reaction::KeepWaiting
        } else {
            Reaction::Listen
        },
        Heard::Event { kind, names } => if waiting {
            Reaction::KeepWaiting
        } else if touches(names@, basename) && writes(kind) {
            Reaction::StartWait
        } else {
            Reaction::Listen
        },
    }
}

/// What the watcher does on what it hears.
pub fn react(waiting: bool, heard: &Heard, basename: &str) -> (r: Reaction)
    ensures
        r == reaction(waiting, *heard, basename@),
{
    match heard {
        Heard::Closed => if waiting {
            Reaction::ReloadAndStop
        } else {
            Reaction::Stop
        },
        Heard::Quiet => if waiting {
            Reaction::Reload
        } else {
            Reaction::Listen
        },
        Heard::Failure => if waiting {
            Reaction::KeepWaiting
        } else {
            Reaction::Listen
        },
        Heard::Event { kind, names } => if waiting {
            Reaction::KeepWaiting
        } else if event_touches(names, basename) && is_write_kind(kind) {
            Reaction::StartWait
        } else {
            Reaction::Listen
        },
    }
}

/// A change of the file is never missed: whatever is heard after it, the
/// watcher does not go back to listening, nor leaves, without reloading.
pub proof fn law_a_change_leads_to_a_reload(
    kind: EventKind,
    names: Vec<Option<String>>,
    basename: Seq<char>,
    next: Heard,
)
    requires
        touches(names@, basename),
        writes(kind),
    ensures
        reaction(false, Heard::Event { kind, names }, basename) == Reaction::StartWait,
        reaction(true, next, basename) != Reaction::Listen,
        reaction(true, next, basename) != Reaction::Stop,
{
}

/// A wait starts exactly if the watched file was created, removed or written;
/// changes of other files, and of metadata, are passed over. A wait that was
/// started always ends in a reload.
pub proof fn law_reloads(kind: EventKind, names: Vec<Option<String>>, basename: Seq<char>)
    ensures
        reaction(false, Heard::Event { kind, names }, basename) == (if (exists|i: int|
            0 <= i < names@.len() && text::opt(#[trigger] names@[i]) == Some(basename)) && (kind
            == EventKind::Create || kind == EventKind::Remove || (kind is Modify && kind
            != EventKind::Modify(ModifyKind::Metadata))) {
            Reaction::StartWait
        } else {
            Reaction::Listen
        }),
        reaction(true, Heard::Event { kind, names }, basename) == Reaction::KeepWaiting,
        reaction(true, Heard::Quiet, basename) == Reaction::Reload,
        reaction(true, Heard::Closed, basename) == Reaction::ReloadAndStop,
        reaction(true, Heard::Failure, basename) == Reaction::KeepWaiting,
        reaction(false, Heard::Quiet, basename) == Reaction::Listen,
        reaction(false, Heard::Failure, basename) == Reaction::Listen,
        reaction(false, Heard::Closed, basename) == Reaction::Stop,
{
}

} // verus!
