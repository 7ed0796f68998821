//! The launcher's state: which view is shown, what is listed in it, what is
//! selected, and what keys and clicks do.

use vstd::prelude::*;
use vstd::string::*;

use std::sync::Arc;

use crate::clipd::daemon::Request;
use crate::text;
use crate::zofi::bar;
use crate::zofi::bar::BarSlot;
use crate::zofi::bar::PrefixMap;
use crate::zofi::registry::SourceEntry;
use crate::zofi::registry::SourceRegistry;
use crate::zofi::source::ActivateOutcome;
use crate::zofi::source::Source;
use crate::zofi::usage::UsageTracker;

pub mod drawing;

verus! {

// ---------------------------------------------------------------------------
// Panes
// ---------------------------------------------------------------------------

/// What the left column shows.
#[derive(Clone, Copy, Debug, PartialEq, Eq, Structural)]
pub enum LeftPane {
    Items,
    Mimes,
}

/// The cursor of a list.
#[derive(Clone, Copy, Debug, PartialEq, Eq, Structural)]
pub struct Pane {
    pub selected: usize,
}

/// One up, but not above the first.
pub open spec fn one_up(selected: usize) -> usize {
    if selected == 0 {
        0
    } else {
        (selected - 1) as usize
    }
}

/// One down, but not below the last of `len`.
pub open spec fn one_down(selected: usize, len: usize) -> usize {
    if len == 0 {
        selected
    } else if selected + 1 < len {
        (selected + 1) as usize
    } else {
        (len - 1) as usize
    }
}

impl Pane {
    /// A cursor on the first entry.
    pub fn new() -> (r: Self)
        ensures
            r.selected == 0,
    {
        Pane { selected: 0 }
    }

    /// One up, but not above the first.
    pub fn move_up(&mut self)
        ensures
            final(self).selected == one_up(old(self).selected),
    {
        if self.selected > 0 {
            self.selected = self.selected - 1;
        }
    }

    /// One down, but not below the last of `len`.
    pub fn move_down(&mut self, len: usize)
        ensures
            final(self).selected == one_down(old(self).selected, len),
    {
        if len > 0 {
            if self.selected < len - 1 {
                self.selected = self.selected + 1;
            } else {
                self.selected = len - 1;
            }
        }
    }

    /// Back to the first.
    pub fn reset(&mut self)
        ensures
            final(self).selected == 0,
    {
        self.selected = 0;
    }
}

/// The slot after slot `i` of `n`, round and round.
pub open spec fn slot_after(n: int, i: int) -> int {
    if i + 1 == n {
        0
    } else {
        i + 1
    }
}

/// The slot before slot `i` of `n`, round and round.
pub open spec fn slot_before(n: int, i: int) -> int {
    if i == 0 {
        n - 1
    } else {
        i - 1
    }
}

/// Going one slot on and one back ends where it began, in either order, and
/// never leaves the bar.
pub proof fn law_next_and_previous_cancel(n: int, i: int)
    requires
        0 <= i < n,
    ensures
        0 <= slot_after(n, i) < n,
        0 <= slot_before(n, i) < n,
        slot_before(n, slot_after(n, i)) == i,
        slot_after(n, slot_before(n, i)) == i,
{
}

/// However often the cursor moves, it stays on an entry while there is one.
pub proof fn law_cursor_stays_in_the_list(selected: usize, len: usize)
    requires
        selected < len,
    ensures
        one_up(selected) < len,
        one_down(selected, len) < len,
{
}

// ---------------------------------------------------------------------------
// State
// ---------------------------------------------------------------------------

/// The launcher.
pub struct Launcher<S: Source + ?Sized = dyn Source> {
    registry: SourceRegistry<S>,
    active: usize,
    filtered: Vec<usize>,
    items: Pane,
    mimes: Pane,
    left_pane: LeftPane,
    mime_cache: Vec<String>,
    primary_mime_ix: usize,
    sub_filter: Option<usize>,
    slots: Vec<BarSlot>,
    active_slot: usize,
    default_slot: usize,
    prefix_map: PrefixMap,
    last_query: String,
    peek_active: bool,
    toast: Option<String>,
}

/// What a launcher shows.
#[verifier::ext_equal]
pub struct LauncherView {
    /// The source of the view.
    pub active: usize,
    /// The source that the view is restricted to.
    pub sub_filter: Option<usize>,
    /// The view, and the one shown first.
    pub active_slot: usize,
    pub default_slot: usize,
    /// The entries listed, by their indices in the source.
    pub filtered: Seq<usize>,
    /// The cursors of the entries and of the representations.
    pub item: usize,
    pub mime: usize,
    pub left_pane: LeftPane,
    /// The representations of the selected entry, while they are shown.
    pub mimes: Seq<Seq<char>>,
    /// Which of them is the default one; a place behind the last stands for
    /// none.
    pub primary_mime_ix: usize,
    pub last_query: Seq<char>,
    pub peek_active: bool,
    pub toast: Option<Seq<char>>,
}

impl<S: Source + ?Sized> View for Launcher<S> {
    type V = LauncherView;

    closed spec fn view(&self) -> LauncherView {
        LauncherView {
            active: self.active,
            sub_filter: self.sub_filter,
            active_slot: self.active_slot,
            default_slot: self.default_slot,
            filtered: self.filtered@,
            item: self.items.selected,
            mime: self.mimes.selected,
            left_pane: self.left_pane,
            mimes: text::views(self.mime_cache@),
            primary_mime_ix: self.primary_mime_ix,
            last_query: self.last_query@,
            peek_active: self.peek_active,
            toast: text::opt(self.toast),
        }
    }
}

impl LauncherView {
    /// The selected entry.
    pub open spec fn selected(self) -> Option<usize> {
        if self.item < self.filtered.len() {
            Some(self.filtered[self.item as int])
        } else {
            None
        }
    }

    /// The selected representation.
    pub open spec fn selected_mime(self) -> Option<Seq<char>> {
        if self.mime < self.mimes.len() {
            Some(self.mimes[self.mime as int])
        } else {
            None
        }
    }

    /// With other entries listed, from the top, and the last message gone.
    pub open spec fn listing(self, found: Seq<usize>) -> LauncherView {
        LauncherView {
            filtered: found,
            item: 0,
            mime: 0,
            left_pane: LeftPane::Items,
            mimes: Seq::empty(),
            primary_mime_ix: usize::MAX,
            toast: None,
            ..self
        }
    }

    /// In another view, with its entries listed from the top.
    pub open spec fn switched(self, ix: usize, slot: BarSlot, found: Seq<usize>) -> LauncherView {
        LauncherView {
            active: slot.place(),
            sub_filter: slot.only(),
            active_slot: ix,
            ..self.listing(found)
        }
    }
}

/// Whether a source may list `found` for `query`.
pub open spec fn may_list<S: Source + ?Sized>(
    source: &S,
    query: Seq<char>,
    found: Seq<usize>,
) -> bool {
    exists|asked: &str, v: Vec<usize>|
        asked@ == query && #[trigger] call_ensures(S::filter, (source, asked), v) && v@ == found
}

/// Whether a source was told to show only one of its children, or all.
pub open spec fn restricted<S: Source + ?Sized>(source: &S, child: Option<usize>) -> bool {
    call_ensures(S::set_sub_filter, (source, child), ())
}

fn ask<S: Source + ?Sized>(source: &S, query: &str) -> (r: Vec<usize>)
    ensures
        may_list(source, query@, r@),
{
    let v = source.filter(query);
    assert(call_ensures(S::filter, (source, query), v));
    v
}

/// Whether the use of an entry was recorded, under the name and the key that
/// its source gives for it. An entry without a key, or without a tracker, is
/// not recorded.
pub open spec fn use_recorded<S: Source + ?Sized>(
    source: &S,
    idx: usize,
    tracker: Option<Arc<UsageTracker>>,
) -> bool {
    exists|name: &'static str, key: Option<String>|
        {
            &&& #[trigger] call_ensures(S::source_name, (source, idx), name)
            &&& #[trigger] call_ensures(S::item_key, (source, idx), key)
            &&& key is Some && tracker is Some ==> exists|told: &str|
                told@ == key->0@ && #[trigger] (tracker->0).was_told(name, told)
        }
}

/// The sources behind registry entries.
pub open spec fn behind<'a, S: Source + ?Sized>(entries: Seq<SourceEntry<S>>) -> Seq<&'a S> {
    Seq::new(entries.len(), |i: int| &*entries[i].source)
}

/// Whether the bar may be laid out so for these sources.
pub open spec fn may_lay_out<S: Source + ?Sized>(sources: Seq<&S>, slots: Seq<BarSlot>) -> bool {
    exists|counts: Seq<usize>|
        bar::made_of(sources, counts) && slots == #[trigger] bar::slots_of(
            counts,
            counts.len() as int,
        )
}

/// Whether characters may switch to the slots of a bar so.
pub open spec fn may_switch<S: Source + ?Sized>(
    sources: Seq<&S>,
    slots: Seq<BarSlot>,
    map: Map<char, usize>,
) -> bool {
    exists|prefixes: Seq<Option<char>>|
        {
            &&& prefixes.len() == slots.len()
            &&& forall|k: int|
                0 <= k < prefixes.len() ==> bar::prefixed(sources, slots[k], #[trigger] prefixes[k])
            &&& map == #[trigger] bar::prefixes_of(prefixes, prefixes.len() as int)
        }
}

/// What a change of the input leads to.
#[derive(Clone, Copy, Debug, PartialEq, Eq, Structural)]
pub enum InputEffect {
    /// Nothing changed.
    Ignored,
    /// The character chose a view that is shown already.
    Consumed,
    /// Another view is shown: clear the input and show its text.
    Switched,
    /// The list changed.
    Filtered,
}

/// What leaving a layer leads to.
#[derive(Clone, Copy, Debug, PartialEq, Eq, Structural)]
pub enum DismissEffect {
    Repaint,
    Quit,
}

/// What copying an image needs next.
#[derive(Debug)]
pub enum CopyStep {
    /// There is nothing to copy here.
    Ignored,
    /// The entry has no image, which is now said.
    NoImage,
    /// Hand this to the daemon.
    Send(Request),
}

/// What the daemon said to an image.
#[derive(Debug)]
pub enum CopyReply {
    Taken,
    Refused(String),
    /// It could not be reached, for this reason.
    Unreachable(String),
}

impl<S: Source + ?Sized> Launcher<S> {
    /// The sources.
    pub closed spec fn sources(&self) -> Seq<SourceEntry<S>> {
        self.registry.listed()
    }

    /// The bar.
    pub closed spec fn bar(&self) -> Seq<BarSlot> {
        self.slots@
    }

    /// Where uses are recorded.
    pub closed spec fn tracks(&self) -> Option<Arc<UsageTracker>> {
        self.registry.tracks()
    }

    /// Which characters switch to which views.
    pub closed spec fn prefixes(&self) -> Map<char, usize> {
        self.prefix_map@
    }

    /// Every view has a source, the views shown now and first are in the bar,
    /// what is shown is what the bar says, the cursors can be moved, and
    /// representations are held and marked only while they are shown.
    pub open spec fn wf(&self) -> bool {
        &&& self@.left_pane == LeftPane::Items ==> self@.mimes.len() == 0 && self@.primary_mime_ix
            == usize::MAX
        &&& self@.item < usize::MAX
        &&& self@.mime < usize::MAX
        &&& self@.active < self.sources().len()
        &&& self@.active_slot < self.bar().len()
        &&& self.bar()[self@.active_slot as int].place() == self@.active
        &&& self.bar()[self@.active_slot as int].only() == self@.sub_filter
        &&& self@.default_slot < self.bar().len()
        &&& forall|k: int|
            0 <= k < self.bar().len() ==> (#[trigger] self.bar()[k]).place() < self.sources().len()
    }

    /// Whether only what is shown differs.
    pub open spec fn same_setup(&self, other: &Self) -> bool {
        &&& self.sources() == other.sources()
        &&& self.tracks() == other.tracks()
        &&& self.bar() == other.bar()
        &&& self.prefixes() == other.prefixes()
    }

    /// The source of the view.
    pub open spec fn shown(&self) -> SourceEntry<S> {
        self.sources()[self@.active as int]
    }

    /// A launcher that shows the source at place `initial`, or the last one.
    pub fn new(registry: SourceRegistry<S>, initial: usize) -> (r: Self)
        requires
            registry.listed().len() > 0,
        ensures
            r.wf(),
            r.sources() == registry.listed(),
            r.tracks() == registry.tracks(),
            may_lay_out(behind(registry.listed()), r.bar()),
            may_switch(behind(registry.listed()), r.bar(), r.prefixes()),
            r@.active == (if initial < registry.listed().len() {
                initial as int
            } else {
                registry.listed().len() - 1
            }),
            r.bar()[r@.active_slot as int].place() == r@.active,
            r.bar()[r@.active_slot as int].only() is None,
            r@.default_slot == r@.active_slot,
            may_list(&*r.shown().source, Seq::empty(), r@.filtered),
            r@ == (LauncherView {
                active: r@.active,
                sub_filter: None,
                active_slot: r@.active_slot,
                default_slot: r@.active_slot,
                filtered: r@.filtered,
                item: 0,
                mime: 0,
                left_pane: LeftPane::Items,
                mimes: Seq::empty(),
                primary_mime_ix: usize::MAX,
                last_query: Seq::empty(),
                peek_active: false,
                toast: None,
            }),
    {
        let n: usize = registry.len();
        let active: usize = if initial < n {
            initial
        } else {
            n - 1
        };
        let filtered = ask(&*registry.get(active).source, "");
        proof {
            reveal_strlit("");
            assert(""@ =~= Seq::<char>::empty());
        }
        let mut sources: Vec<&S> = Vec::new();
        let mut i: usize = 0;
        while i < n
            invariant
                n == registry.listed().len(),
                i <= n,
                sources@ =~= behind(registry.listed()).take(i as int),
            decreases n - i,
        {
            sources.push(&*registry.get(i).source);
            i = i + 1;
        }
        proof {
            assert(sources@ =~= behind(registry.listed()));
        }
        let slots = bar::build_bar_slots(sources.as_slice());
        proof {
            let counts = choose|counts: Seq<usize>|
                bar::made_of(sources@, counts) && slots@ == #[trigger] bar::slots_of(
                    counts,
                    counts.len() as int,
                );
            bar::law_bar_shows_every_source(counts, counts.len() as int);
            assert(bar::shows_all_of(slots@, active as int));
        }
        let mut active_slot: usize = 0;
        while active_slot < slots.len() && !(slots[active_slot].registry_idx() == active
            && slots[active_slot].sub_filter().is_none())
            invariant
                active_slot <= slots@.len(),
                forall|k: int|
                    0 <= k < active_slot ==> !((#[trigger] slots@[k]).place() == active
                        && slots@[k].only() is None),
            decreases slots.len() - active_slot,
        {
            active_slot = active_slot + 1;
        }
        let prefix_map = bar::build_prefix_map(sources.as_slice(), slots.as_slice());
        let r = Launcher {
            registry,
            active,
            filtered,
            items: Pane::new(),
            mimes: Pane::new(),
            left_pane: LeftPane::Items,
            mime_cache: Vec::new(),
            primary_mime_ix: usize::MAX,
            sub_filter: None,
            slots,
            active_slot,
            default_slot: active_slot,
            prefix_map,
            last_query: String::new(),
            peek_active: false,
            toast: None,
        };
        proof {
            assert(r@.mimes =~= Seq::<Seq<char>>::empty());
        }
        r
    }

    /// The source of the view.
    pub fn source(&self) -> (r: &S)
        requires
            self.wf(),
        ensures
            r == &*self.shown().source,
    {
        &*self.registry.get(self.active).source
    }

    /// Shows another view: its source is told what to restrict itself to, and
    /// asked for its entries. A view of the same source keeps the query that
    /// the user typed.
    pub fn switch_to_slot(&mut self, slot_ix: usize, current_query: &str) -> (r: bool)
        requires
            old(self).wf(),
        ensures
            final(self).wf(),
            final(self).same_setup(old(self)),
            r == (slot_ix < old(self).bar().len() && slot_ix != old(self)@.active_slot),
            if r {
                let slot = old(self).bar()[slot_ix as int];
                let query = if slot.place() == old(self)@.active {
                    current_query@
                } else {
                    Seq::empty()
                };
                &&& restricted(&*old(self).sources()[slot.place() as int].source, slot.only())
                &&& may_list(
                    &*old(self).sources()[slot.place() as int].source,
                    query,
                    final(self)@.filtered,
                )
                &&& final(self)@ == old(self)@.switched(slot_ix, slot, final(self)@.filtered)
            } else {
                final(self)@ == old(self)@
            },
    {
        if slot_ix >= self.slots.len() || slot_ix == self.active_slot {
            return false;
        }
        let slot = self.slots[slot_ix];
        assert(self.bar()[slot_ix as int].place() < self.sources().len());
        let new_registry = slot.registry_idx();
        let new_sub = slot.sub_filter();
        let registry_changed = new_registry != self.active;
        self.active_slot = slot_ix;
        self.active = new_registry;
        self.sub_filter = new_sub;
        let entry = self.registry.get(new_registry);
        let chosen: &S = &*entry.source;
        chosen.set_sub_filter(new_sub);
        proof {
            assert(restricted(chosen, new_sub));
        }
        let query = if registry_changed {
            ""
        } else {
            current_query
        };
        proof {
            reveal_strlit("");
            assert(""@ =~= Seq::<char>::empty());
        }
        let found = ask(chosen, query);
        self.filtered = found;
        self.items.reset();
        self.mimes.reset();
        self.left_pane = LeftPane::Items;
        self.mime_cache = Vec::new();
        self.primary_mime_ix = usize::MAX;
        self.toast = None;
        proof {
            assert(self@.mimes =~= Seq::<Seq<char>>::empty());
        }
        true
    }

    /// After the input was cleared for another view; returns what the empty
    /// input says.
    pub fn finish_slot_switch(&mut self) -> (r: &'static str)
        requires
            old(self).wf(),
        ensures
            final(self).wf(),
            final(self).same_setup(old(self)),
            final(self)@ == (LauncherView { last_query: Seq::empty(), ..old(self)@ }),
            call_ensures(S::placeholder, (&*old(self).shown().source,), r),
    {
        self.last_query = String::new();
        self.source().placeholder()
    }

    /// Lists what matches `query`, from the top.
    pub fn update_filter(&mut self, query: &str)
        requires
            old(self).wf(),
        ensures
            final(self).wf(),
            final(self).same_setup(old(self)),
            may_list(&*old(self).shown().source, query@, final(self)@.filtered),
            final(self)@ == old(self)@.listing(final(self)@.filtered),
    {
        let found = ask(self.source(), query);
        self.filtered = found;
        self.items.reset();
        self.mimes.reset();
        self.left_pane = LeftPane::Items;
        self.mime_cache = Vec::new();
        self.primary_mime_ix = usize::MAX;
        self.toast = None;
        proof {
            assert(self@.mimes =~= Seq::<Seq<char>>::empty());
        }
    }

    /// The input changed: the last message goes, a single character that
    /// chooses a view shows it and is no part of the query, and anything else
    /// is searched for.
    pub fn on_input_change(&mut self, query: &str) -> (r: InputEffect)
        requires
            old(self).wf(),
        ensures
            final(self).wf(),
            final(self).same_setup(old(self)),
            ({
                let before = LauncherView { last_query: query@, toast: None, ..old(self)@ };
                let chosen = query@.len() == 1 && old(self).prefixes().contains_key(query@[0]);
                let ix = old(self).prefixes()[query@[0]];
                if query@ == old(self)@.last_query {
                    r == InputEffect::Ignored && final(self)@ == old(self)@
                } else if chosen && (ix >= old(self).bar().len() || ix == old(self)@.active_slot) {
                    r == InputEffect::Consumed && final(self)@ == before
                } else if chosen {
                    let slot = old(self).bar()[ix as int];
                    &&& r == InputEffect::Switched
                    &&& restricted(&*old(self).sources()[slot.place() as int].source, slot.only())
                    &&& final(self)@ == before.switched(ix, slot, final(self)@.filtered)
                    &&& may_list(
                        &*old(self).sources()[slot.place() as int].source,
                        Seq::empty(),
                        final(self)@.filtered,
                    )
                } else {
                    &&& r == InputEffect::Filtered
                    &&& final(self)@ == before.listing(final(self)@.filtered)
                    &&& may_list(&*old(self).shown().source, query@, final(self)@.filtered)
                }
            }),
    {
        if text::str_eq(query, self.last_query.as_str()) {
            return InputEffect::Ignored;
        }
        self.last_query = query.to_owned();
        self.toast = None;
        let chars = text::chars_of(query);
        if chars.len() == 1 {
            if let Some(slot_ix) = self.prefix_map.get(chars[0]) {
                proof {
                    reveal_strlit("");
                    assert(""@ =~= Seq::<char>::empty());
                }
                if self.switch_to_slot(slot_ix, "") {
                    return InputEffect::Switched;
                }
                return InputEffect::Consumed;
            }
        }
        self.update_filter(query);
        InputEffect::Filtered
    }

    /// Backspace was pressed in an empty input: back to the first view.
    /// Returns whether another view is shown now.
    pub fn on_empty_backspace(&mut self) -> (r: bool)
        requires
            old(self).wf(),
        ensures
            final(self).wf(),
            final(self).same_setup(old(self)),
            r == (old(self)@.active_slot != old(self)@.default_slot),
            if r {
                let slot = old(self).bar()[old(self)@.default_slot as int];
                &&& restricted(&*old(self).sources()[slot.place() as int].source, slot.only())
                &&& final(self)@ == old(self)@.switched(
                    old(self)@.default_slot,
                    slot,
                    final(self)@.filtered,
                )
                &&& may_list(
                    &*old(self).sources()[slot.place() as int].source,
                    Seq::empty(),
                    final(self)@.filtered,
                )
            } else {
                final(self)@ == old(self)@
            },
    {
        proof {
            reveal_strlit("");
            assert(""@ =~= Seq::<char>::empty());
        }
        if self.active_slot == self.default_slot {
            return false;
        }
        self.switch_to_slot(self.default_slot, "")
    }

    /// Lists what matches `query` without moving the cursor, except back into
    /// a list that became shorter.
    pub fn refilter(&mut self, query: &str)
        requires
            old(self).wf(),
        ensures
            final(self).wf(),
            final(self).same_setup(old(self)),
            may_list(&*old(self).shown().source, query@, final(self)@.filtered),
            final(self)@ == (LauncherView {
                filtered: final(self)@.filtered,
                item: if old(self)@.item < final(self)@.filtered.len() {
                    old(self)@.item
                } else if final(self)@.filtered.len() == 0 {
                    0
                } else {
                    (final(self)@.filtered.len() - 1) as usize
                },
                ..old(self)@
            }),
    {
        let found = ask(self.source(), query);
        self.filtered = found;
        if self.items.selected >= self.filtered.len() {
            self.items.selected = if self.filtered.len() == 0 {
                0
            } else {
                self.filtered.len() - 1
            };
        }
    }

    /// The cursor goes up.
    pub fn move_up(&mut self)
        ensures
            final(self).same_setup(old(self)),
            old(self).wf() ==> final(self).wf(),
            final(self)@ == (match old(self)@.left_pane {
                LeftPane::Items => LauncherView {
                    item: one_up(old(self)@.item),
                    mime: 0,
                    toast: None,
                    ..old(self)@
                },
                LeftPane::Mimes => LauncherView {
                    mime: one_up(old(self)@.mime),
                    toast: None,
                    ..old(self)@
                },
            }),
    {
        match self.left_pane {
            LeftPane::Items => {
                self.items.move_up();
                self.mimes.reset();
            },
            LeftPane::Mimes => {
                self.mimes.move_up();
            },
        }
        self.toast = None;
    }

    /// The cursor goes down.
    pub fn move_down(&mut self)
        ensures
            final(self).same_setup(old(self)),
            old(self).wf() ==> final(self).wf(),
            final(self)@ == (match old(self)@.left_pane {
                LeftPane::Items => LauncherView {
                    item: one_down(old(self)@.item, old(self)@.filtered.len() as usize),
                    mime: 0,
                    toast: None,
                    ..old(self)@
                },
                LeftPane::Mimes => LauncherView {
                    mime: one_down(old(self)@.mime, old(self)@.mimes.len() as usize),
                    toast: None,
                    ..old(self)@
                },
            }),
    {
        match self.left_pane {
            LeftPane::Items => {
                let n: usize = self.filtered.len();
                self.items.move_down(n);
                self.mimes.reset();
            },
            LeftPane::Mimes => {
                let n: usize = self.mime_cache.len();
                self.mimes.move_down(n);
            },
        }
        self.toast = None;
    }

    /// A row was clicked: it is selected, to be confirmed.
    pub fn click_row(&mut self, list_ix: usize)
        requires
            list_ix < usize::MAX,
        ensures
            final(self).same_setup(old(self)),
            old(self).wf() ==> final(self).wf(),
            final(self)@ == (LauncherView {
                left_pane: LeftPane::Items,
                item: list_ix,
                mimes: Seq::empty(),
                primary_mime_ix: usize::MAX,
                toast: None,
                ..old(self)@
            }),
    {
        self.left_pane = LeftPane::Items;
        self.items.selected = list_ix;
        self.mime_cache = Vec::new();
        self.primary_mime_ix = usize::MAX;
        self.toast = None;
        proof {
            assert(self@.mimes =~= Seq::<Seq<char>>::empty());
        }
    }

    /// A representation was clicked: it is selected, to be confirmed.
    pub fn click_mime(&mut self, list_ix: usize)
        requires
            list_ix < usize::MAX,
        ensures
            final(self).same_setup(old(self)),
            old(self).wf() ==> final(self).wf(),
            final(self)@ == (LauncherView {
                left_pane: LeftPane::Mimes,
                mime: list_ix,
                toast: None,
                ..old(self)@
            }),
    {
        self.left_pane = LeftPane::Mimes;
        self.mimes.selected = list_ix;
        self.toast = None;
    }

    /// Activates what is selected, and has its use recorded. The launcher
    /// stays only where the source says so; then everything is listed again.
    pub fn confirm(&mut self) -> (r: ActivateOutcome)
        requires
            old(self).wf(),
        ensures
            final(self).wf(),
            final(self).same_setup(old(self)),
            match old(self)@.selected() {
                Some(idx) => if old(self)@.left_pane == LeftPane::Mimes
                    && old(self)@.selected_mime() is Some {
                    exists|mime: &str|
                        mime@ == old(self)@.selected_mime()->0 && #[trigger] call_ensures(
                            S::activate_with_mime,
                            (&*old(self).shown().source, idx, mime),
                            r,
                        )
                } else {
                    call_ensures(S::activate, (&*old(self).shown().source, idx), r)
                },
                None => r == ActivateOutcome::Quit,
            },
            old(self)@.selected() matches Some(idx) ==> use_recorded(
                &*old(self).shown().source,
                idx,
                old(self).tracks(),
            ),
            match r {
                ActivateOutcome::Quit => final(self)@ == old(self)@,
                ActivateOutcome::Refresh => {
                    &&& final(self)@ == old(self)@.listing(final(self)@.filtered)
                    &&& may_list(
                        &*old(self).shown().source,
                        Seq::empty(),
                        final(self)@.filtered,
                    )
                },
            },
    {
        proof {
            reveal_strlit("");
            assert(""@ =~= Seq::<char>::empty());
        }
        let selected: Option<usize> = if self.items.selected < self.filtered.len() {
            Some(self.filtered[self.items.selected])
        } else {
            None
        };
        let outcome = match selected {
            Some(idx) => {
                let key = self.source().item_key(idx);
                let name = self.source().source_name(idx);
                let with_mime = self.left_pane == LeftPane::Mimes && self.mimes.selected
                    < self.mime_cache.len();
                let outcome = if with_mime {
                    let mime = self.mime_cache[self.mimes.selected].as_str();
                    let o = self.source().activate_with_mime(idx, mime);
                    proof {
                        assert(mime@ == self@.selected_mime()->0);
                        assert(call_ensures(
                            S::activate_with_mime,
                            (&*self.shown().source, idx, mime),
                            o,
                        ));
                    }
                    o
                } else {
                    self.source().activate(idx)
                };
                if let Some(k) = &key {
                    if let Some(tracker) = self.registry.tracker() {
                        let told = k.as_str();
                        tracker.record(name, told);
                        proof {
                            assert((self.tracks()->0).was_told(name, told));
                        }
                    }
                }
                proof {
                    assert(call_ensures(S::item_key, (&*self.shown().source, idx), key));
                    assert(call_ensures(S::source_name, (&*self.shown().source, idx), name));
                    assert(use_recorded(&*self.shown().source, idx, self.tracks()));
                }
                outcome
            },
            None => ActivateOutcome::Quit,
        };
        if outcome == ActivateOutcome::Refresh {
            self.update_filter("");
        }
        outcome
    }

    /// Leaves the innermost layer: the full-size image, then the list of
    /// representations, then the launcher.
    pub fn dismiss(&mut self) -> (r: DismissEffect)
        ensures
            final(self).same_setup(old(self)),
            old(self).wf() ==> final(self).wf(),
            if old(self)@.peek_active {
                r == DismissEffect::Repaint && final(self)@ == (LauncherView {
                    peek_active: false,
                    ..old(self)@
                })
            } else if old(self)@.left_pane == LeftPane::Mimes {
                r == DismissEffect::Repaint && final(self)@ == (LauncherView {
                    left_pane: LeftPane::Items,
                    mimes: Seq::empty(),
                    primary_mime_ix: usize::MAX,
                    ..old(self)@
                })
            } else {
                r == DismissEffect::Quit && final(self)@ == old(self)@
            },
    {
        if self.peek_active {
            self.peek_active = false;
            return DismissEffect::Repaint;
        }
        if self.left_pane == LeftPane::Mimes {
            self.left_pane = LeftPane::Items;
            self.mime_cache = Vec::new();
            self.primary_mime_ix = usize::MAX;
            proof {
                assert(self@.mimes =~= Seq::<Seq<char>>::empty());
            }
            DismissEffect::Repaint
        } else {
            DismissEffect::Quit
        }
    }

    /// Shows or hides the full-size image of what is selected; returns whether
    /// that changed anything.
    pub fn toggle_peek(&mut self) -> (r: bool)
        requires
            old(self).wf(),
        ensures
            final(self).wf(),
            final(self).same_setup(old(self)),
            r ==> old(self)@.selected() is Some && call_ensures(
                S::can_peek,
                (&*old(self).shown().source,),
                true,
            ),
            !r ==> old(self)@.selected() is None || call_ensures(
                S::can_peek,
                (&*old(self).shown().source,),
                false,
            ),
            final(self)@ == (if r {
                LauncherView { peek_active: !old(self)@.peek_active, toast: None, ..old(self)@ }
            } else {
                old(self)@
            }),
    {
        if !self.source().can_peek() {
            return false;
        }
        if self.items.selected >= self.filtered.len() {
            return false;
        }
        self.peek_active = !self.peek_active;
        self.toast = None;
        true
    }

    /// Starts copying the image of what is selected.
    pub fn copy_image(&mut self) -> (r: CopyStep)
        requires
            old(self).wf(),
        ensures
            final(self).wf(),
            final(self).same_setup(old(self)),
            match r {
                CopyStep::Ignored => {
                    &&& final(self)@ == old(self)@
                    &&& old(self)@.selected() is None || call_ensures(
                        S::can_copy_image,
                        (&*old(self).shown().source,),
                        false,
                    )
                },
                CopyStep::NoImage => {
                    &&& final(self)@ == (LauncherView { toast: Some("No image"@), ..old(self)@ })
                    &&& old(self)@.selected() is Some
                    &&& call_ensures(
                        S::copy_image_bytes,
                        (&*old(self).shown().source, old(self)@.selected()->0),
                        None::<Arc<Vec<u8>>>,
                    )
                },
                CopyStep::Send(req) => {
                    &&& final(self)@ == old(self)@
                    &&& old(self)@.selected() is Some
                    &&& exists|image: Arc<Vec<u8>>|
                        {
                            &&& #[trigger] call_ensures(
                                S::copy_image_bytes,
                                (&*old(self).shown().source, old(self)@.selected()->0),
                                Some(image),
                            )
                            &&& req matches Request::SetSelection { mime, bytes } && mime@
                                == "image/png"@ && bytes@ == image@
                        }
                },
            },
    {
        if !self.source().can_copy_image() {
            return CopyStep::Ignored;
        }
        if self.items.selected >= self.filtered.len() {
            return CopyStep::Ignored;
        }
        let idx = self.filtered[self.items.selected];
        let found = self.source().copy_image_bytes(idx);
        proof {
            assert(call_ensures(S::copy_image_bytes, (&*self.shown().source, idx), found));
        }
        match found {
            Some(image) => CopyStep::Send(
                Request::SetSelection {
                    mime: "image/png".to_owned(),
                    bytes: vstd::slice::slice_to_vec(image.as_slice()),
                },
            ),
            None => {
                self.toast = Some("No image".to_owned());
                CopyStep::NoImage
            },
        }
    }

    /// The daemon answered; returns whether the launcher leaves.
    pub fn after_copy(&mut self, reply: CopyReply) -> (r: bool)
        ensures
            final(self).same_setup(old(self)),
            old(self).wf() ==> final(self).wf(),
            r == (reply is Taken),
            final(self)@ == (LauncherView {
                toast: match reply {
                    CopyReply::Taken => old(self)@.toast,
                    CopyReply::Refused(why) => Some("Copy failed: "@ + why@),
                    CopyReply::Unreachable(why) => Some(
                        "Copy failed: "@ + why@ + " (is `zofi clipd` running?)"@,
                    ),
                },
                ..old(self)@
            }),
    {
        match reply {
            CopyReply::Taken => true,
            CopyReply::Refused(why) => {
                self.toast = Some(text::concat2("Copy failed: ", why.as_str()));
                false
            },
            CopyReply::Unreachable(why) => {
                let mut s = text::concat2("Copy failed: ", why.as_str());
                s.push_str(" (is `zofi clipd` running?)");
                self.toast = Some(s);
                false
            },
        }
    }

    /// Shows the representations of what is selected, where there are several,
    /// or goes back to the entries; returns whether something is to be drawn.
    pub fn toggle_mime_pane(&mut self) -> (r: bool)
        requires
            old(self).wf(),
        ensures
            final(self).wf(),
            final(self).same_setup(old(self)),
            match old(self)@.left_pane {
                LeftPane::Mimes => r && final(self)@ == (LauncherView {
                    left_pane: LeftPane::Items,
                    mimes: Seq::empty(),
                    primary_mime_ix: usize::MAX,
                    ..old(self)@
                }),
                LeftPane::Items => match old(self)@.selected() {
                    Some(idx) => exists|v: Vec<String>, p: Option<usize>|
                        {
                            &&& #[trigger] call_ensures(
                                S::mimes,
                                (&*old(self).shown().source, idx),
                                v,
                            )
                            &&& #[trigger] call_ensures(
                                S::primary_mime_index,
                                (&*old(self).shown().source, idx),
                                p,
                            )
                            &&& r == (v@.len() >= 2)
                            &&& final(self)@ == (LauncherView {
                                left_pane: if r {
                                    LeftPane::Mimes
                                } else {
                                    LeftPane::Items
                                },
                                mime: if r {
                                    0
                                } else {
                                    old(self)@.mime
                                },
                                mimes: if r {
                                    text::views(v@)
                                } else {
                                    Seq::empty()
                                },
                                primary_mime_ix: match p {
                                    Some(i) => if r {
                                        i
                                    } else {
                                        usize::MAX
                                    },
                                    None => usize::MAX,
                                },
                                ..old(self)@
                            })
                        },
                    None => !r && final(self)@ == (LauncherView {
                        mimes: Seq::empty(),
                        primary_mime_ix: usize::MAX,
                        ..old(self)@
                    }),
                },
            },
    {
        match self.left_pane {
            LeftPane::Items => {
                if self.items.selected >= self.filtered.len() {
                    self.mime_cache = Vec::new();
                    self.primary_mime_ix = usize::MAX;
                    proof {
                        assert(self@.mimes =~= Seq::<Seq<char>>::empty());
                    }
                    return false;
                }
                let idx = self.filtered[self.items.selected];
                let found = self.source().mimes(idx);
                let primary = self.source().primary_mime_index(idx);
                proof {
                    assert(call_ensures(S::mimes, (&*self.shown().source, idx), found));
                    assert(call_ensures(
                        S::primary_mime_index,
                        (&*self.shown().source, idx),
                        primary,
                    ));
                }
                if found.len() < 2 {
                    self.mime_cache = Vec::new();
                    self.primary_mime_ix = usize::MAX;
                    proof {
                        assert(self@.mimes =~= Seq::<Seq<char>>::empty());
                    }
                    return false;
                }
                self.mime_cache = found;
                self.primary_mime_ix = match primary {
                    Some(i) => i,
                    None => usize::MAX,
                };
                self.left_pane = LeftPane::Mimes;
                self.mimes.reset();
                true
            },
            LeftPane::Mimes => {
                self.left_pane = LeftPane::Items;
                self.mime_cache = Vec::new();
                self.primary_mime_ix = usize::MAX;
                proof {
                    assert(self@.mimes =~= Seq::<Seq<char>>::empty());
                }
                true
            },
        }
    }

    /// The slot after the current one.
    pub fn next_source(&self) -> (r: usize)
        requires
            self.wf(),
        ensures
            r == slot_after(self.bar().len() as int, self@.active_slot as int),
    {
        assert(self.slots@.len() == self.slots.len());
        proof {
            let n = self.slots@.len() as int;
            if self.active_slot + 1 < n {
                vstd::arithmetic::div_mod::lemma_small_mod(
                    (self.active_slot + 1) as nat,
                    n as nat,
                );
            }
        }
        bar::next_slot(self.slots.as_slice(), self.active_slot + 1)
    }

    /// The slot before the current one.
    pub fn prev_source(&self) -> (r: usize)
        requires
            self.wf(),
        ensures
            r == slot_before(self.bar().len() as int, self@.active_slot as int),
    {
        if self.active_slot == 0 {
            self.slots.len() - 1
        } else {
            self.active_slot - 1
        }
    }

    /// A slot was chosen. Returns what the empty input says, where that shows
    /// another view.
    pub fn apply_slot(&mut self, slot_ix: usize, current_query: &str) -> (r: Option<&'static str>)
        requires
            old(self).wf(),
        ensures
            final(self).wf(),
            final(self).same_setup(old(self)),
            r is Some == (slot_ix < old(self).bar().len() && slot_ix != old(self)@.active_slot),
            match r {
                Some(said) => {
                    let slot = old(self).bar()[slot_ix as int];
                    let source = &*old(self).sources()[slot.place() as int].source;
                    &&& restricted(source, slot.only())
                    &&& may_list(
                        source,
                        if slot.place() == old(self)@.active {
                            current_query@
                        } else {
                            Seq::empty()
                        },
                        final(self)@.filtered,
                    )
                    &&& call_ensures(S::placeholder, (source,), said)
                    &&& final(self)@ == (LauncherView {
                        last_query: Seq::empty(),
                        ..old(self)@.switched(slot_ix, slot, final(self)@.filtered)
                    })
                },
                None => final(self)@ == old(self)@,
            },
    {
        if self.switch_to_slot(slot_ix, current_query) {
            Some(self.finish_slot_switch())
        } else {
            None
        }
    }
}

/// The cursor moves by one and stops at the ends.
pub proof fn law_cursor_moves_by_one(selected: usize, len: usize)
    ensures
        selected > 0 ==> one_up(selected) == selected - 1,
        one_up(0) == 0,
        selected + 1 < len ==> one_down(selected, len) == selected + 1,
        len > 0 && selected + 1 >= len ==> one_down(selected, len) == len - 1,
        one_down(selected, 0) == selected,
{
}

/// The next view is the one behind, and behind the last comes the first.
pub proof fn law_views_go_round(n: int, i: int)
    requires
        0 <= i < n,
    ensures
        slot_after(n, i) == (i + 1) % n,
        slot_before(n, i) == (i + n - 1) % n,
{
    if i + 1 == n {
        assert((i + 1) % n == 0) by (nonlinear_arith)
            requires
                i + 1 == n,
                n > 0,
        ;
    } else {
        assert((i + 1) % n == i + 1) by (nonlinear_arith)
            requires
                0 <= i,
                i + 1 < n,
        ;
    }
    if i == 0 {
        assert((i + n - 1) % n == n - 1) by (nonlinear_arith)
            requires
                i == 0,
                n > 0,
        ;
    } else {
        assert((i + n - 1) % n == i - 1) by (nonlinear_arith)
            requires
                0 < i < n,
        ;
    }
}

/// A new list is shown from its top, as entries, with nothing said; the view,
/// its source and what was typed stay. Another view brings its own source and
/// restriction with it.
pub proof fn law_new_list_starts_at_the_top(
    v: LauncherView,
    found: Seq<usize>,
    ix: usize,
    slot: BarSlot,
)
    ensures
        ({
            let n = v.listing(found);
            &&& n.filtered == found && n.item == 0 && n.mime == 0 && n.mimes.len() == 0
            &&& n.left_pane == LeftPane::Items && n.toast is None
            &&& n.selected() == (if found.len() > 0 {
                Some(found[0])
            } else {
                None
            })
            &&& n.active == v.active && n.sub_filter == v.sub_filter && n.active_slot
                == v.active_slot && n.default_slot == v.default_slot && n.last_query
                == v.last_query && n.peek_active == v.peek_active
        }),
        ({
            let n = v.switched(ix, slot, found);
            &&& n.active_slot == ix
            &&& n.active == slot.place() && n.sub_filter == slot.only()
            &&& n.filtered == found && n.item == 0 && n.left_pane == LeftPane::Items
            &&& n.last_query == v.last_query && n.default_slot == v.default_slot
        }),
        BarSlot::Registry(ix).place() == ix && BarSlot::Registry(ix).only() is None,
        BarSlot::UnionAll(ix).place() == ix && BarSlot::UnionAll(ix).only() is None,
        forall|j: usize|
            BarSlot::UnionChild(ix, j).place() == ix && #[trigger] BarSlot::UnionChild(
                ix,
                j,
            ).only() == Some(j),
{
}

/// Escape leaves one layer at a time: the full-size image, then the list of
/// representations, then the launcher; nothing that is selected or typed changes.
pub proof fn law_escape_leaves_one_layer<S: Source + ?Sized>(l: &mut Launcher<S>, r: DismissEffect)
    requires
        call_ensures(Launcher::<S>::dismiss, (l,), r),
    ensures
        r == DismissEffect::Quit <==> !old(l)@.peek_active && old(l)@.left_pane == LeftPane::Items,
        !final(l)@.peek_active,
        old(l)@.peek_active ==> final(l)@.left_pane == old(l)@.left_pane && final(l)@.mimes == old(
            l,
        )@.mimes,
        !old(l)@.peek_active ==> final(l)@.left_pane == LeftPane::Items,
        final(l)@.filtered == old(l)@.filtered && final(l)@.item == old(l)@.item
            && final(l)@.last_query == old(l)@.last_query && final(l)@.active == old(l)@.active,
{
}

/// The arrow keys move the cursor of the list that is shown by one, and not past
/// its ends; the lists themselves stay.
pub proof fn law_arrows_move_the_cursor<S: Source + ?Sized>(l: &mut Launcher<S>, down: bool)
    requires
        old(l).wf(),
        old(l)@.filtered.len() <= usize::MAX,
        old(l)@.mimes.len() <= usize::MAX,
        if down {
            call_ensures(Launcher::<S>::move_down, (l,), ())
        } else {
            call_ensures(Launcher::<S>::move_up, (l,), ())
        },
    ensures
        final(l)@.filtered == old(l)@.filtered && final(l)@.mimes == old(l)@.mimes
            && final(l)@.left_pane == old(l)@.left_pane && final(l)@.toast is None,
        old(l)@.left_pane == LeftPane::Items && down && old(l)@.item + 1 < old(l)@.filtered.len()
            ==> final(l)@.item == old(l)@.item + 1,
        old(l)@.left_pane == LeftPane::Items && !down && old(l)@.item > 0 ==> final(l)@.item
            == old(l)@.item - 1,
        old(l)@.left_pane == LeftPane::Items && old(l)@.item < old(l)@.filtered.len()
            ==> final(l)@.item < final(l)@.filtered.len(),
        old(l)@.left_pane == LeftPane::Mimes ==> final(l)@.item == old(l)@.item,
        old(l)@.left_pane == LeftPane::Mimes && down && old(l)@.mime + 1 < old(l)@.mimes.len()
            ==> final(l)@.mime == old(l)@.mime + 1,
        old(l)@.left_pane == LeftPane::Mimes && !down && old(l)@.mime > 0 ==> final(l)@.mime
            == old(l)@.mime - 1,
{
}

/// A click selects just the row or the representation that was clicked.
pub proof fn law_click_selects<S: Source + ?Sized>(l: &mut Launcher<S>, ix: usize)
    requires
        ix < usize::MAX,
        call_ensures(Launcher::<S>::click_row, (l, ix), ()),
    ensures
        final(l)@.item == ix && final(l)@.left_pane == LeftPane::Items,
        final(l)@.filtered == old(l)@.filtered && final(l)@.active == old(l)@.active,
        ix < old(l)@.filtered.len() ==> final(l)@.selected() == Some(old(l)@.filtered[ix as int]),
{
}

/// A single character that chooses a view shows it, unless it is shown already;
/// anything else is searched for in the view that is shown; typing the same again
/// changes nothing.
pub proof fn law_typing<S: Source + ?Sized>(l: &mut Launcher<S>, query: &str, r: InputEffect)
    requires
        old(l).wf(),
        call_ensures(Launcher::<S>::on_input_change, (l, query), r),
    ensures
        r == InputEffect::Ignored <==> query@ == old(l)@.last_query,
        r == InputEffect::Ignored ==> final(l)@ == old(l)@,
        r != InputEffect::Ignored ==> final(l)@.last_query == query@ && final(l)@.toast is None,
        r == InputEffect::Filtered <==> query@ != old(l)@.last_query && !(query@.len() == 1 && old(
            l,
        ).prefixes().contains_key(query@[0])),
        r == InputEffect::Filtered ==> final(l)@.active_slot == old(l)@.active_slot
            && final(l)@.item == 0,
        r == InputEffect::Switched ==> final(l)@.active_slot == old(l).prefixes()[query@[0]]
            && final(l)@.active_slot != old(l)@.active_slot && final(l)@.item == 0,
        r == InputEffect::Consumed ==> final(l)@.active_slot == old(l)@.active_slot
            && final(l)@.filtered == old(l)@.filtered,
{
}

/// Backspace in an empty input goes back to the first view, and does nothing if
/// that is shown.
pub proof fn law_backspace_goes_back<S: Source + ?Sized>(l: &mut Launcher<S>, r: bool)
    requires
        old(l).wf(),
        call_ensures(Launcher::<S>::on_empty_backspace, (l,), r),
    ensures
        final(l)@.active_slot == old(l)@.default_slot,
        r <==> old(l)@.active_slot != old(l)@.default_slot,
        !r ==> final(l)@ == old(l)@,
{
}

/// The list of representations is opened for an entry that has several, and is
/// closed again; what is selected stays.
pub proof fn law_representations_open_and_close<S: Source + ?Sized>(l: &mut Launcher<S>, r: bool)
    requires
        old(l).wf(),
        call_ensures(Launcher::<S>::toggle_mime_pane, (l,), r),
    ensures
        old(l)@.left_pane == LeftPane::Mimes ==> r && final(l)@.left_pane == LeftPane::Items
            && final(l)@.mimes.len() == 0,
        old(l)@.left_pane == LeftPane::Items ==> (r <==> final(l)@.left_pane == LeftPane::Mimes),
        old(l)@.left_pane == LeftPane::Items && r ==> final(l)@.mimes.len() >= 2 && final(l)@.mime
            == 0 && old(l)@.selected() is Some,
        final(l)@.item == old(l)@.item && final(l)@.filtered == old(l)@.filtered
            && final(l)@.active_slot == old(l)@.active_slot,
{
    if old(l)@.left_pane == LeftPane::Items && old(l)@.selected() is Some {
        let idx = old(l)@.selected()->0;
        let (v, p) = choose|v: Vec<String>, p: Option<usize>|
            {
                &&& #[trigger] call_ensures(S::mimes, (&*old(l).shown().source, idx), v)
                &&& #[trigger] call_ensures(
                    S::primary_mime_index,
                    (&*old(l).shown().source, idx),
                    p,
                )
                &&& r == (v@.len() >= 2)
                &&& final(l)@.left_pane == (if r {
                    LeftPane::Mimes
                } else {
                    LeftPane::Items
                })
                &&& final(l)@.mimes == (if r {
                    text::views(v@)
                } else {
                    Seq::empty()
                })
            };
        assert(text::views(v@).len() == v@.len());
    }
}

/// Confirming with nothing selected leaves; otherwise the source decides, and
/// either everything stays as it is or its entries are listed anew from the top.
pub proof fn law_confirming<S: Source + ?Sized>(l: &mut Launcher<S>, r: ActivateOutcome)
    requires
        old(l).wf(),
        call_ensures(Launcher::<S>::confirm, (l,), r),
    ensures
        old(l)@.selected() is None ==> r == ActivateOutcome::Quit,
        r == ActivateOutcome::Quit ==> final(l)@ == old(l)@,
        r == ActivateOutcome::Refresh ==> final(l)@.item == 0 && final(l)@.left_pane
            == LeftPane::Items && final(l)@.active_slot == old(l)@.active_slot,
        old(l)@.selected() is Some && old(l)@.left_pane == LeftPane::Items ==> call_ensures(
            S::activate,
            (&*old(l).shown().source, old(l)@.selected()->0),
            r,
        ),
{
}

/// An image is sent only if something is selected, and as a PNG; where there is
/// none, that is said; nothing else changes.
pub proof fn law_copying<S: Source + ?Sized>(l: &mut Launcher<S>, r: CopyStep)
    requires
        old(l).wf(),
        call_ensures(Launcher::<S>::copy_image, (l,), r),
    ensures
        old(l)@.selected() is None ==> r is Ignored,
        r is NoImage ==> final(l)@ == (LauncherView { toast: Some("No image"@), ..old(l)@ }),
        !(r is NoImage) ==> final(l)@ == old(l)@,
        r matches CopyStep::Send(req) ==> (req matches Request::SetSelection { mime, bytes }
            && mime@ == "image/png"@),
{
}

/// A failed copy is said, and says why; one that was taken is not.
pub proof fn law_copy_replies<S: Source + ?Sized>(l: &mut Launcher<S>, reply: CopyReply, r: bool)
    requires
        call_ensures(Launcher::<S>::after_copy, (l, reply), r),
    ensures
        r <==> reply is Taken,
        r ==> final(l)@ == old(l)@,
        !r ==> final(l)@.toast is Some && ("Copy failed: "@).is_prefix_of(final(l)@.toast->0),
        reply matches CopyReply::Refused(why) ==> final(l)@.toast == Some("Copy failed: "@ + why@),
{
}

} // verus!
