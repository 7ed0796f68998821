//! In-memory state aggregation for toplevel events.
//!
//! A handle is announced first and its fields arrive one by one; the registry
//! folds them into one event stream without duplicates.

use std::collections::HashMap;

use vstd::prelude::*;

use crate::text;
use crate::zwindows::{Toplevel, ToplevelEvent};

verus! {

/// What is known of one handle.
pub struct Entry {
    pub toplevel: Toplevel,
    /// Set by the first field that arrives. Until then `Added` is held back.
    pub published: bool,
}

/// All known handles.
pub struct Registry {
    inner: HashMap<u64, Entry>,
}

/// The entries of a registry and the event that a change to them emits.
pub type Step = (Map<u64, Entry>, Option<ToplevelEvent>);

/// A handle of which no field is known.
pub open spec fn blank(id: u64) -> Entry {
    Entry {
        toplevel: Toplevel { id, app_id: None, title: None, activated: false, minimized: false },
        published: false,
    }
}

/// Whether an optional string holds exactly the characters `s`.
pub open spec fn holds(o: Option<String>, s: Seq<char>) -> bool {
    o matches Some(t) && t@ == s
}

/// Storing a changed toplevel: `Added` the first time, `Updated` after that.
pub open spec fn publish(m: Map<u64, Entry>, id: u64, t: Toplevel) -> Step {
    (
        m.insert(id, Entry { toplevel: t, published: true }),
        Some(
            if m[id].published {
                ToplevelEvent::Updated(t)
            } else {
                ToplevelEvent::Added(t)
            },
        ),
    )
}

/// A newly announced handle gets a blank entry; a known one keeps its entry.
pub open spec fn after_ensure(m: Map<u64, Entry>, id: u64) -> Map<u64, Entry> {
    if m.contains_key(id) {
        m
    } else {
        m.insert(id, blank(id))
    }
}

/// An application id arrives.
pub open spec fn after_app_id(m: Map<u64, Entry>, id: u64, app_id: String) -> Step {
    if !m.contains_key(id) || holds(m[id].toplevel.app_id, app_id@) {
        (m, None)
    } else {
        publish(m, id, Toplevel { app_id: Some(app_id), ..m[id].toplevel })
    }
}

/// A title arrives.
pub open spec fn after_title(m: Map<u64, Entry>, id: u64, title: String) -> Step {
    if !m.contains_key(id) || holds(m[id].toplevel.title, title@) {
        (m, None)
    } else {
        publish(m, id, Toplevel { title: Some(title), ..m[id].toplevel })
    }
}

/// The state flags arrive.
pub open spec fn after_state(
    m: Map<u64, Entry>,
    id: u64,
    activated: bool,
    minimized: bool,
) -> Step {
    if !m.contains_key(id) || (m[id].published && m[id].toplevel.activated == activated
        && m[id].toplevel.minimized == minimized) {
        (m, None)
    } else {
        publish(m, id, Toplevel { activated, minimized, ..m[id].toplevel })
    }
}

/// The handle is closed.
pub open spec fn after_closed(m: Map<u64, Entry>, id: u64) -> Step {
    if m.contains_key(id) {
        (m.remove(id), Some(ToplevelEvent::Removed(id)))
    } else {
        (m, None)
    }
}

/// Every entry is filed under its own id, and nothing is known of an entry
/// that has not been published.
pub open spec fn well_formed(m: Map<u64, Entry>) -> bool {
    forall|id: u64| #[trigger]
        m.contains_key(id) ==> {
            &&& m[id].toplevel.id == id
            &&& !m[id].published ==> m[id] == blank(id)
        }
}

fn eq_text(o: &Option<String>, s: &String) -> (r: bool)
    ensures
        r == holds(*o, s@),
{
    match o {
        Some(t) => text::str_eq(t.as_str(), s.as_str()),
        None => false,
    }
}

impl View for Registry {
    type V = Map<u64, Entry>;

    closed spec fn view(&self) -> Map<u64, Entry> {
        self.inner@
    }
}

impl Default for Registry {
    fn default() -> (r: Self)
        ensures
            r@ == Map::<u64, Entry>::empty(),
    {
        Registry { inner: HashMap::new() }
    }
}

impl Registry {
    /// A registry without handles.
    pub fn new() -> (r: Self)
        ensures
            r@ == Map::<u64, Entry>::empty(),
            well_formed(r@),
    {
        Registry::default()
    }

    /// Reserves a slot for a freshly announced handle. No event is emitted.
    pub fn ensure(&mut self, id: u64)
        ensures
            final(self)@ == after_ensure(old(self)@, id),
    {
        broadcast use vstd::std_specs::hash::group_hash_axioms;

        if !self.inner.contains_key(&id) {
            self.inner.insert(
                id,
                Entry {
                    toplevel: Toplevel {
                        id,
                        app_id: None,
                        title: None,
                        activated: false,
                        minimized: false,
                    },
                    published: false,
                },
            );
        }
    }

    /// Records an application id.
    pub fn on_app_id(&mut self, id: u64, app_id: String) -> (r: Option<ToplevelEvent>)
        ensures
            (final(self)@, r) == after_app_id(old(self)@, id, app_id),
    {
        broadcast use vstd::std_specs::hash::group_hash_axioms;

        match self.inner.get(&id) {
            None => {
                return None;
            },
            Some(entry) => if eq_text(&entry.toplevel.app_id, &app_id) {
                return None;
            },
        }
        let mut entry = self.inner.remove(&id).unwrap();
        entry.toplevel.app_id = Some(app_id);
        Some(self.store(id, entry, Ghost(old(self)@)))
    }

    /// Records a title.
    pub fn on_title(&mut self, id: u64, title: String) -> (r: Option<ToplevelEvent>)
        ensures
            (final(self)@, r) == after_title(old(self)@, id, title),
    {
        broadcast use vstd::std_specs::hash::group_hash_axioms;

        match self.inner.get(&id) {
            None => {
                return None;
            },
            Some(entry) => if eq_text(&entry.toplevel.title, &title) {
                return None;
            },
        }
        let mut entry = self.inner.remove(&id).unwrap();
        entry.toplevel.title = Some(title);
        Some(self.store(id, entry, Ghost(old(self)@)))
    }

    /// Records the state flags.
    pub fn on_state(&mut self, id: u64, activated: bool, minimized: bool) -> (r: Option<
        ToplevelEvent,
    >)
        ensures
            (final(self)@, r) == after_state(old(self)@, id, activated, minimized),
    {
        broadcast use vstd::std_specs::hash::group_hash_axioms;

        match self.inner.get(&id) {
            None => {
                return None;
            },
            Some(entry) => if entry.published && entry.toplevel.activated == activated
                && entry.toplevel.minimized == minimized {
                return None;
            },
        }
        let mut entry = self.inner.remove(&id).unwrap();
        entry.toplevel.activated = activated;
        entry.toplevel.minimized = minimized;
        Some(self.store(id, entry, Ghost(old(self)@)))
    }

    /// Forgets a closed handle.
    pub fn on_closed(&mut self, id: u64) -> (r: Option<ToplevelEvent>)
        ensures
            (final(self)@, r) == after_closed(old(self)@, id),
    {
        broadcast use vstd::std_specs::hash::group_hash_axioms;

        match self.inner.remove(&id) {
            Some(_) => Some(ToplevelEvent::Removed(id)),
            None => {
                proof {
                    assert(old(self)@.remove(id) == old(self)@);
                }
                None
            },
        }
    }

    /// Puts a changed entry back and builds the event for it.
    fn store(&mut self, id: u64, entry: Entry, Ghost(m): Ghost<Map<u64, Entry>>) -> (r:
        ToplevelEvent)
        requires
            m.contains_key(id),
            old(self)@ == m.remove(id),
            entry.published == m[id].published,
        ensures
            (final(self)@, Some(r)) == publish(m, id, entry.toplevel),
    {
        broadcast use vstd::std_specs::hash::group_hash_axioms;

        let mut entry = entry;
        let event = Self::publish(&mut entry);
        self.inner.insert(id, entry);
        proof {
            assert(m.remove(id).insert(id, entry) == m.insert(id, entry));
        }
        event
    }

    /// Marks an entry as published.
    fn publish(entry: &mut Entry) -> (r: ToplevelEvent)
        ensures
            *final(entry) == (Entry { toplevel: old(entry).toplevel, published: true }),
            r == (if old(entry).published {
                ToplevelEvent::Updated(old(entry).toplevel)
            } else {
                ToplevelEvent::Added(old(entry).toplevel)
            }),
    {
        if entry.published {
            ToplevelEvent::Updated(entry.toplevel.clone())
        } else {
            entry.published = true;
            ToplevelEvent::Added(entry.toplevel.clone())
        }
    }
}

// ---------------------------------------------------------------------------
// Laws
// ---------------------------------------------------------------------------

/// Every operation keeps the registry well-formed.
pub proof fn law_operations_keep_well_formed(
    m: Map<u64, Entry>,
    id: u64,
    text: String,
    activated: bool,
    minimized: bool,
)
    requires
        well_formed(m),
    ensures
        well_formed(after_ensure(m, id)),
        well_formed(after_app_id(m, id, text).0),
        well_formed(after_title(m, id, text).0),
        well_formed(after_state(m, id, activated, minimized).0),
        well_formed(after_closed(m, id).0),
{
}

/// Nothing but the entry of `id` is touched by an operation on `id`.
pub proof fn law_other_handles_untouched(
    m: Map<u64, Entry>,
    id: u64,
    other: u64,
    text: String,
    activated: bool,
    minimized: bool,
)
    requires
        other != id,
        m.contains_key(other),
    ensures
        after_ensure(m, id).contains_key(other) && after_ensure(m, id)[other] == m[other],
        after_app_id(m, id, text).0.contains_key(other) && after_app_id(m, id, text).0[other]
            == m[other],
        after_title(m, id, text).0.contains_key(other) && after_title(m, id, text).0[other]
            == m[other],
        after_state(m, id, activated, minimized).0.contains_key(other) && after_state(
            m,
            id,
            activated,
            minimized,
        ).0[other] == m[other],
        after_closed(m, id).0.contains_key(other) && after_closed(m, id).0[other] == m[other],
{
}

/// Reporting the same field twice emits at most one event.
pub proof fn law_repeated_report_is_silent(
    m: Map<u64, Entry>,
    id: u64,
    text: String,
    activated: bool,
    minimized: bool,
)
    ensures
        ({
            let n = after_app_id(m, id, text).0;
            after_app_id(n, id, text) == (n, None::<ToplevelEvent>)
        }),
        ({
            let n = after_title(m, id, text).0;
            after_title(n, id, text) == (n, None::<ToplevelEvent>)
        }),
        ({
            let n = after_state(m, id, activated, minimized).0;
            after_state(n, id, activated, minimized) == (n, None::<ToplevelEvent>)
        }),
        ({
            let n = after_closed(m, id).0;
            after_closed(n, id) == (n, None::<ToplevelEvent>)
        }),
{
}

/// The first event of a handle is `Added`: the first field reported for a
/// blank entry announces it, whatever that field is.
pub proof fn law_first_report_adds(
    m: Map<u64, Entry>,
    id: u64,
    text: String,
    activated: bool,
    minimized: bool,
)
    requires
        !m.contains_key(id),
    ensures
        after_app_id(after_ensure(m, id), id, text).1 matches Some(ToplevelEvent::Added(_)),
        after_title(after_ensure(m, id), id, text).1 matches Some(ToplevelEvent::Added(_)),
        after_state(after_ensure(m, id), id, activated, minimized).1 matches Some(
            ToplevelEvent::Added(_),
        ),
{
}

/// A published handle is never added again while it stays open.
pub proof fn law_published_is_never_added_again(
    m: Map<u64, Entry>,
    id: u64,
    text: String,
    activated: bool,
    minimized: bool,
)
    requires
        m.contains_key(id),
        m[id].published,
    ensures
        !(after_app_id(m, id, text).1 matches Some(ToplevelEvent::Added(_))),
        !(after_title(m, id, text).1 matches Some(ToplevelEvent::Added(_))),
        !(after_state(m, id, activated, minimized).1 matches Some(ToplevelEvent::Added(_))),
        after_ensure(m, id)[id].published,
        after_app_id(m, id, text).0[id].published,
        after_title(m, id, text).0[id].published,
        after_state(m, id, activated, minimized).0[id].published,
{
}

/// After a report the window is as reported, in that field, and as before in
/// every other, and what is told of it is the whole window as it is now.
pub proof fn law_reports_take_effect(
    m: Map<u64, Entry>,
    id: u64,
    text: String,
    activated: bool,
    minimized: bool,
)
    requires
        m.contains_key(id),
    ensures
        ({
            let (n, told) = after_app_id(m, id, text);
            let t = n[id].toplevel;
            &&& n.contains_key(id) && holds(t.app_id, text@)
            &&& t.title == m[id].toplevel.title && t.activated == m[id].toplevel.activated
                && t.minimized == m[id].toplevel.minimized
            &&& told is None || told == Some(ToplevelEvent::Added(t)) || told == Some(
                ToplevelEvent::Updated(t),
            )
            &&& !holds(m[id].toplevel.app_id, text@) ==> told is Some
        }),
        ({
            let (n, told) = after_title(m, id, text);
            let t = n[id].toplevel;
            &&& n.contains_key(id) && holds(t.title, text@)
            &&& t.app_id == m[id].toplevel.app_id && t.activated == m[id].toplevel.activated
                && t.minimized == m[id].toplevel.minimized
            &&& told is None || told == Some(ToplevelEvent::Added(t)) || told == Some(
                ToplevelEvent::Updated(t),
            )
            &&& !holds(m[id].toplevel.title, text@) ==> told is Some
        }),
        ({
            let (n, told) = after_state(m, id, activated, minimized);
            let t = n[id].toplevel;
            &&& n.contains_key(id) && t.activated == activated && t.minimized == minimized
            &&& t.app_id == m[id].toplevel.app_id && t.title == m[id].toplevel.title
            &&& told is None || told == Some(ToplevelEvent::Added(t)) || told == Some(
                ToplevelEvent::Updated(t),
            )
            &&& m[id].toplevel.activated != activated || m[id].toplevel.minimized != minimized
                ==> told is Some
        }),
        ({
            let (n, told) = after_closed(m, id);
            !n.contains_key(id) && told == Some(ToplevelEvent::Removed(id))
        }),
{
}

/// A handle that is not known is passed over, until it is announced; then it is
/// known, with nothing said of it.
pub proof fn law_unknown_handles(
    m: Map<u64, Entry>,
    id: u64,
    text: String,
    activated: bool,
    minimized: bool,
)
    requires
        !m.contains_key(id),
    ensures
        after_app_id(m, id, text) == (m, None::<ToplevelEvent>),
        after_title(m, id, text) == (m, None::<ToplevelEvent>),
        after_state(m, id, activated, minimized) == (m, None::<ToplevelEvent>),
        after_closed(m, id) == (m, None::<ToplevelEvent>),
        after_ensure(m, id).contains_key(id),
        after_ensure(m, id)[id].toplevel.id == id,
        after_ensure(m, id)[id].toplevel.app_id is None,
        after_ensure(m, id)[id].toplevel.title is None,
        !after_ensure(m, id)[id].toplevel.activated,
        !after_ensure(m, id)[id].published,
{
}

} // verus!
