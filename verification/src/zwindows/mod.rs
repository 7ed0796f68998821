//! Open windows: the stream of toplevel changes, window geometry and captured
//! frames.

use vstd::prelude::*;

use crate::text;

pub mod client;
pub mod compositor;
pub mod registry;
pub mod screencopy;
pub mod sway_tree;
pub mod toplevel_capture;

verus! {

/// Snapshot of a single toplevel's state.
#[derive(Debug, PartialEq, Eq)]
pub struct Toplevel {
    pub id: u64,
    pub app_id: Option<String>,
    pub title: Option<String>,
    pub activated: bool,
    pub minimized: bool,
}

/// A change to the set of open toplevels.
#[derive(Debug, PartialEq, Eq)]
pub enum ToplevelEvent {
    Added(Toplevel),
    Updated(Toplevel),
    Removed(u64),
}

impl Clone for Toplevel {
    fn clone(&self) -> (r: Self)
        ensures
            r == *self,
    {
        Toplevel {
            id: self.id,
            app_id: text::clone_opt(&self.app_id),
            title: text::clone_opt(&self.title),
            activated: self.activated,
            minimized: self.minimized,
        }
    }
}

impl Clone for ToplevelEvent {
    fn clone(&self) -> (r: Self)
        ensures
            r == *self,
    {
        match self {
            ToplevelEvent::Added(t) => ToplevelEvent::Added(t.clone()),
            ToplevelEvent::Updated(t) => ToplevelEvent::Updated(t.clone()),
            ToplevelEvent::Removed(id) => ToplevelEvent::Removed(*id),
        }
    }
}

} // verus!
