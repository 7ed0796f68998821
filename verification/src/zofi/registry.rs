//! The sources of the launcher.

use vstd::prelude::*;
use vstd::string::*;

use std::sync::Arc;

use crate::text;
use crate::zofi::source::Source;
use crate::zofi::usage::UsageTracker;

verus! {

/// A source in the switcher bar.
pub struct SourceEntry<S: Source + ?Sized = dyn Source> {
    pub source: Box<S>,
}

impl<S: Source + ?Sized> SourceEntry<S> {
    /// The entry of a source.
    pub fn from_source(source: Box<S>) -> (r: Self)
        ensures
            r.source == source,
    {
        SourceEntry { source }
    }

    /// The source's name.
    pub fn name(&self) -> (r: &'static str)
        ensures
            call_ensures(S::name, (&*self.source,), r),
    {
        self.source.name()
    }

    /// The source's glyph.
    pub fn icon(&self) -> (r: &'static str)
        ensures
            call_ensures(S::icon, (&*self.source,), r),
    {
        self.source.icon()
    }
}

/// Whether a source may say that it is called `name`.
pub open spec fn may_be_called<S: Source + ?Sized>(source: &S, name: Seq<char>) -> bool {
    exists|said: &'static str| #[trigger] call_ensures(S::name, (source,), said) && said@ == name
}

/// Whether a source may say that it is not called `name`.
pub open spec fn may_differ<S: Source + ?Sized>(source: &S, name: Seq<char>) -> bool {
    exists|said: &'static str| #[trigger] call_ensures(S::name, (source,), said) && said@ != name
}

/// Whether sources may say that these are their names.
pub open spec fn may_be_names<S: Source + ?Sized>(
    entries: Seq<SourceEntry<S>>,
    names: Seq<Seq<char>>,
) -> bool {
    &&& names.len() == entries.len()
    &&& forall|i: int|
        0 <= i < names.len() ==> may_be_called(&*entries[i].source, #[trigger] names[i])
}

/// Names with a separator between them.
pub open spec fn joined(names: Seq<Seq<char>>) -> Seq<char>
    decreases names.len(),
{
    if names.len() == 0 {
        Seq::empty()
    } else if names.len() == 1 {
        names[0]
    } else {
        joined(names.drop_last()) + ", "@ + names.last()
    }
}

/// All sources, in the order of the switcher bar.
pub struct SourceRegistry<S: Source + ?Sized = dyn Source> {
    entries: Vec<SourceEntry<S>>,
    tracker: Option<Arc<UsageTracker>>,
}

impl<S: Source + ?Sized> SourceRegistry<S> {
    /// The registered sources.
    pub closed spec fn listed(&self) -> Seq<SourceEntry<S>> {
        self.entries@
    }

    /// Where uses are recorded, if anywhere.
    pub closed spec fn tracks(&self) -> Option<Arc<UsageTracker>> {
        self.tracker
    }

    /// A registry that records no uses.
    pub fn new(entries: Vec<SourceEntry<S>>) -> (r: Self)
        ensures
            r.listed() == entries@,
            r.tracks() is None,
    {
        SourceRegistry { entries, tracker: None }
    }

    /// The same registry, recording uses.
    pub fn with_tracker(self, tracker: Arc<UsageTracker>) -> (r: Self)
        ensures
            r.listed() == self.listed(),
            r.tracks() == Some(tracker),
    {
        SourceRegistry { entries: self.entries, tracker: Some(tracker) }
    }

    /// Where uses are recorded.
    pub fn tracker(&self) -> (r: Option<&Arc<UsageTracker>>)
        ensures
            match r {
                Some(t) => self.tracks() == Some(*t),
                None => self.tracks() is None,
            },
    {
        match &self.tracker {
            Some(t) => Some(t),
            None => None,
        }
    }

    /// How many sources there are.
    pub fn len(&self) -> (r: usize)
        ensures
            r == self.listed().len(),
    {
        self.entries.len()
    }

    /// Whether there is none.
    pub fn is_empty(&self) -> (r: bool)
        ensures
            r == (self.listed().len() == 0),
    {
        self.entries.len() == 0
    }

    /// The sources.
    pub fn entries(&self) -> (r: &[SourceEntry<S>])
        ensures
            r@ == self.listed(),
    {
        self.entries.as_slice()
    }

    /// One of the sources.
    pub fn get(&self, ix: usize) -> (r: &SourceEntry<S>)
        requires
            ix < self.listed().len(),
        ensures
            *r == self.listed()[ix as int],
    {
        &self.entries[ix]
    }

    /// Where the first source called `name` stands.
    pub fn position(&self, name: &str) -> (r: Option<usize>)
        ensures
            match r {
                Some(i) => {
                    &&& i < self.listed().len()
                    &&& may_be_called(&*self.listed()[i as int].source, name@)
                    &&& forall|k: int|
                        0 <= k < i ==> may_differ(&*(#[trigger] self.listed()[k]).source, name@)
                },
                None => forall|k: int|
                    0 <= k < self.listed().len() ==> may_differ(
                        &*(#[trigger] self.listed()[k]).source,
                        name@,
                    ),
            },
    {
        let mut i: usize = 0;
        while i < self.entries.len()
            invariant
                i <= self.entries@.len(),
                forall|k: int|
                    0 <= k < i ==> may_differ(&*(#[trigger] self.entries@[k]).source, name@),
            decreases self.entries.len() - i,
        {
            let said = self.entries[i].name();
            proof {
                assert(call_ensures(S::name, (&*self.entries@[i as int].source,), said));
            }
            if text::str_eq(said, name) {
                return Some(i);
            }
            i = i + 1;
        }
        None
    }

    /// The names of all sources, for a message.
    pub fn names_joined(&self) -> (r: String)
        ensures
            exists|names: Seq<Seq<char>>|
                may_be_names(self.listed(), names) && r@ == #[trigger] joined(names),
    {
        let ghost mut names: Seq<Seq<char>> = Seq::empty();
        let mut s = String::new();
        let mut i: usize = 0;
        while i < self.entries.len()
            invariant
                i <= self.entries@.len(),
                names.len() == i,
                forall|k: int|
                    0 <= k < i ==> may_be_called(
                        &*self.entries@[k].source,
                        #[trigger] names[k],
                    ),
                s@ == joined(names),
            decreases self.entries.len() - i,
        {
            if i > 0 {
                s.push_str(", ");
            }
            let said = self.entries[i].name();
            s.push_str(said);
            proof {
                assert(call_ensures(S::name, (&*self.entries@[i as int].source,), said));
                let next = names.push(said@);
                assert(next.drop_last() =~= names);
                assert(s@ =~= joined(next));
                names = next;
            }
            i = i + 1;
        }
        s
    }
}

/// Names are joined with a comma and a space between each two.
pub proof fn law_joined_names(a: Seq<Seq<char>>, b: Seq<Seq<char>>)
    ensures
        joined(Seq::empty()) == Seq::<char>::empty(),
        a.len() == 1 ==> joined(a) == a[0],
        a.len() > 0 && b.len() > 0 ==> joined(a + b) == joined(a) + ", "@ + joined(b),
    decreases b.len(),
{
    if a.len() > 0 && b.len() > 0 {
        let s = a + b;
        assert(s.last() == b.last());
        assert(s.drop_last() =~= a + b.drop_last());
        if b.len() == 1 {
            assert(s.drop_last() =~= a);
        } else {
            law_joined_names(a, b.drop_last());
            assert(joined(s) =~= joined(a) + ", "@ + joined(b));
        }
    }
}

} // verus!
