//! The switcher bar: the views of the launcher in one row, and what is said of
//! them.

use vstd::prelude::*;
use vstd::string::*;

use crate::sorting;
use crate::text;
use crate::zofi::registry::SourceRegistry;
use crate::zofi::source::Source;
use crate::zofi::source::SourceMeta;

verus! {

// ---------------------------------------------------------------------------
// Slots
// ---------------------------------------------------------------------------

/// One view in the bar.
#[derive(Clone, Copy, Debug, PartialEq, Eq, Structural)]
pub enum BarSlot {
    /// A source that is not made of others.
    Registry(usize),
    /// A source that is made of others, restricted to one of them.
    UnionChild(usize, usize),
    /// A source that is made of others, with all of them.
    UnionAll(usize),
}

impl BarSlot {
    /// The place of the view's source.
    pub open spec fn place(self) -> usize {
        match self {
            BarSlot::Registry(i) => i,
            BarSlot::UnionAll(i) => i,
            BarSlot::UnionChild(i, _) => i,
        }
    }

    /// The source that the view is restricted to.
    pub open spec fn only(self) -> Option<usize> {
        match self {
            BarSlot::UnionChild(_, j) => Some(j),
            _ => None,
        }
    }

    /// The place of the view's source.
    pub fn registry_idx(self) -> (r: usize)
        ensures
            r == self.place(),
    {
        match self {
            BarSlot::Registry(i) => i,
            BarSlot::UnionAll(i) => i,
            BarSlot::UnionChild(i, _) => i,
        }
    }

    /// The source that the view is restricted to.
    pub fn sub_filter(self) -> (r: Option<usize>)
        ensures
            r == self.only(),
    {
        match self {
            BarSlot::UnionChild(_, j) => Some(j),
            _ => None,
        }
    }
}

/// The views of the source at place `i`, which is made of `n` others.
pub open spec fn slots_of_one(i: usize, n: nat) -> Seq<BarSlot> {
    if n == 0 {
        seq![BarSlot::Registry(i)]
    } else {
        seq![BarSlot::UnionAll(i)] + Seq::new(n, |j: int| BarSlot::UnionChild(i, j as usize))
    }
}

/// The views of the first `n` sources, when each is made of so many others.
pub open spec fn slots_of(counts: Seq<usize>, n: int) -> Seq<BarSlot>
    decreases n,
{
    if n <= 0 {
        Seq::empty()
    } else {
        slots_of(counts, n - 1) + slots_of_one((n - 1) as usize, counts[n - 1] as nat)
    }
}

/// Lays the bar out for sources that are made of so many others.
pub fn slots_for(counts: &Vec<usize>) -> (r: Vec<BarSlot>)
    ensures
        r@ == slots_of(counts@, counts@.len() as int),
{
    let mut out: Vec<BarSlot> = Vec::new();
    let mut i: usize = 0;
    while i < counts.len()
        invariant
            i <= counts@.len(),
            out@ == slots_of(counts@, i as int),
        decreases counts.len() - i,
    {
        let ghost before = out@;
        if counts[i] == 0 {
            out.push(BarSlot::Registry(i));
            proof {
                assert(out@ =~= before + slots_of_one(i, 0));
            }
        } else {
            let n: usize = counts[i];
            let ghost parts = Seq::new(n as nat, |j: int| BarSlot::UnionChild(i, j as usize));
            out.push(BarSlot::UnionAll(i));
            let ghost all = out@;
            let mut j: usize = 0;
            while j < n
                invariant
                    j <= n,
                    parts == Seq::new(n as nat, |j: int| BarSlot::UnionChild(i, j as usize)),
                    out@ =~= all + parts.take(j as int),
                decreases n - j,
            {
                out.push(BarSlot::UnionChild(i, j));
                j = j + 1;
            }
            proof {
                assert(parts.take(j as int) =~= parts);
                assert(out@ =~= before + slots_of_one(i, n as nat));
            }
        }
        i = i + 1;
    }
    out
}

/// Whether `counts` says of how many others each of the sources may be made.
pub open spec fn made_of<S: Source + ?Sized>(sources: Seq<&S>, counts: Seq<usize>) -> bool {
    &&& counts.len() == sources.len()
    &&& forall|i: int|
        0 <= i < counts.len() ==> made_of_one(sources[i], #[trigger] counts[i])
}

/// Whether a source may be made of `n` others.
pub open spec fn made_of_one<S: Source + ?Sized>(source: &S, n: usize) -> bool {
    exists|v: Vec<SourceMeta>| #[trigger]
        call_ensures(S::sub_sources, (source,), v) && v@.len() == n
}

/// Lays the bar out for the given sources.
pub fn build_bar_slots<S: Source + ?Sized>(sources: &[&S]) -> (r: Vec<BarSlot>)
    ensures
        exists|counts: Seq<usize>|
            made_of(sources@, counts) && r@ == #[trigger] slots_of(counts, counts.len() as int),
{
    let mut counts: Vec<usize> = Vec::new();
    let mut i: usize = 0;
    while i < sources.len()
        invariant
            i <= sources@.len(),
            counts@.len() == i,
            forall|k: int| 0 <= k < i ==> made_of_one(sources@[k], #[trigger] counts@[k]),
        decreases sources.len() - i,
    {
        let parts = sources[i].sub_sources();
        counts.push(parts.len());
        proof {
            assert(call_ensures(S::sub_sources, (sources@[i as int],), parts));
        }
        i = i + 1;
    }
    slots_for(&counts)
}

/// The slot at `current` when slots are counted round and round.
pub fn next_slot(slots: &[BarSlot], current: usize) -> (r: usize)
    ensures
        r == (if slots@.len() == 0 {
            0
        } else {
            (current as int) % (slots@.len() as int)
        }),
        slots@.len() > 0 ==> r < slots@.len(),
{
    if slots.len() == 0 {
        return 0;
    }
    current % slots.len()
}

/// Whether there is a slot that shows all of the source at place `i`.
pub open spec fn shows_all_of(slots: Seq<BarSlot>, i: int) -> bool {
    exists|k: int|
        0 <= k < slots.len() && (#[trigger] slots[k]).place() == i && slots[k].only() is None
}

/// Every view of every source has its slot: all of the bar's slots lead to a
/// source, and each source has a slot without a restriction.
pub proof fn law_bar_shows_every_source(counts: Seq<usize>, n: int)
    requires
        0 <= n <= counts.len() <= usize::MAX,
    ensures
        forall|k: int|
            0 <= k < slots_of(counts, n).len() ==> (#[trigger] slots_of(counts, n)[k]).place() < n,
        forall|i: int| 0 <= i < n ==> #[trigger] shows_all_of(slots_of(counts, n), i),
    decreases n,
{
    if n > 0 {
        law_bar_shows_every_source(counts, n - 1);
        let rest = slots_of(counts, n - 1);
        let mine = slots_of_one((n - 1) as usize, counts[n - 1] as nat);
        let all = slots_of(counts, n);
        assert forall|k: int| 0 <= k < all.len() implies (#[trigger] all[k]).place() < n by {
            if k < rest.len() {
                assert(all[k] == rest[k]);
            } else {
                assert(all[k] == mine[k - rest.len()]);
            }
        }
        assert forall|i: int| 0 <= i < n implies #[trigger] shows_all_of(all, i) by {
            if i < n - 1 {
                assert(shows_all_of(rest, i));
                let k = choose|k: int|
                    0 <= k < rest.len() && (#[trigger] rest[k]).place() == i && rest[k].only() is None;
                assert(all[k] == rest[k]);
            } else {
                assert(all[rest.len() as int] == mine[0]);
            }
        }
    }
}

// ---------------------------------------------------------------------------
// Prefixes
// ---------------------------------------------------------------------------

/// Which slot a character switches to.
#[derive(Debug)]
pub struct PrefixMap {
    entries: Vec<(char, usize)>,
}

/// The map that the first `n` prefixes make, each leading to its place; the
/// last of several counts.
pub open spec fn prefixes_of(prefixes: Seq<Option<char>>, n: int) -> Map<char, usize>
    decreases n,
{
    if n <= 0 {
        Map::empty()
    } else {
        match prefixes[n - 1] {
            Some(ch) => prefixes_of(prefixes, n - 1).insert(ch, (n - 1) as usize),
            None => prefixes_of(prefixes, n - 1),
        }
    }
}

/// The map that a list of pairs makes; the last of several counts.
pub open spec fn pairs_map(v: Seq<(char, usize)>) -> Map<char, usize>
    decreases v.len(),
{
    if v.len() == 0 {
        Map::empty()
    } else {
        pairs_map(v.drop_last()).insert(v.last().0, v.last().1)
    }
}

impl View for PrefixMap {
    type V = Map<char, usize>;

    closed spec fn view(&self) -> Map<char, usize> {
        pairs_map(self.entries@)
    }
}

impl PrefixMap {
    /// The map for slots with the given prefixes.
    pub fn from_prefixes(prefixes: &Vec<Option<char>>) -> (r: Self)
        ensures
            r@ == prefixes_of(prefixes@, prefixes@.len() as int),
    {
        let mut entries: Vec<(char, usize)> = Vec::new();
        let mut i: usize = 0;
        while i < prefixes.len()
            invariant
                i <= prefixes@.len(),
                pairs_map(entries@) == prefixes_of(prefixes@, i as int),
            decreases prefixes.len() - i,
        {
            if let Some(ch) = prefixes[i] {
                let ghost had = entries@;
                entries.push((ch, i));
                proof {
                    assert(entries@.drop_last() =~= had);
                }
            }
            i = i + 1;
        }
        PrefixMap { entries }
    }

    /// The slot that a character switches to.
    pub fn get(&self, ch: char) -> (r: Option<usize>)
        ensures
            r == (if self@.contains_key(ch) {
                Some(self@[ch])
            } else {
                None
            }),
    {
        let mut i: usize = self.entries.len();
        proof {
            assert(self.entries@.take(i as int) == self.entries@);
        }
        while i > 0
            invariant
                i <= self.entries@.len(),
                pairs_map(self.entries@).contains_key(ch) == pairs_map(
                    self.entries@.take(i as int),
                ).contains_key(ch),
                pairs_map(self.entries@).contains_key(ch) ==> pairs_map(self.entries@)[ch]
                    == pairs_map(self.entries@.take(i as int))[ch],
            decreases i,
        {
            proof {
                assert(self.entries@.take(i as int).last() == self.entries@[i - 1]);
                assert(self.entries@.take(i as int).drop_last() == self.entries@.take(i - 1));
            }
            i = i - 1;
            if self.entries[i].0 == ch {
                return Some(self.entries[i].1);
            }
        }
        None
    }

    /// Whether a character switches.
    pub fn contains_key(&self, ch: char) -> (r: bool)
        ensures
            r == self@.contains_key(ch),
    {
        self.get(ch).is_some()
    }

    /// Whether no character switches.
    pub fn is_empty(&self) -> (r: bool)
        ensures
            r == (self@ == Map::<char, usize>::empty()),
    {
        proof {
            if self.entries@.len() > 0 {
                let last = self.entries@.last();
                assert(self@.contains_key(last.0));
                assert(!Map::<char, usize>::empty().contains_key(last.0));
            }
        }
        self.entries.len() == 0
    }
}

/// Whether `p` may be the prefix of a slot.
pub open spec fn prefixed<S: Source + ?Sized>(
    sources: Seq<&S>,
    slot: BarSlot,
    p: Option<char>,
) -> bool {
    match slot {
        BarSlot::UnionChild(i, j) => exists|v: Vec<SourceMeta>|
            {
                &&& #[trigger] call_ensures(S::sub_sources, (sources[i as int],), v)
                &&& p == (if j < v@.len() {
                    v@[j as int].prefix
                } else {
                    None
                })
            },
        _ => call_ensures(S::prefix, (sources[slot.place() as int],), p),
    }
}

/// Finds out which characters switch to which slots.
pub fn build_prefix_map<S: Source + ?Sized>(sources: &[&S], slots: &[BarSlot]) -> (r: PrefixMap)
    requires
        forall|k: int| 0 <= k < slots@.len() ==> (#[trigger] slots@[k]).place() < sources@.len(),
    ensures
        exists|prefixes: Seq<Option<char>>|
            {
                &&& prefixes.len() == slots@.len()
                &&& forall|k: int|
                    0 <= k < prefixes.len() ==> prefixed(
                        sources@,
                        slots@[k],
                        #[trigger] prefixes[k],
                    )
                &&& r@ == #[trigger] prefixes_of(prefixes, prefixes.len() as int)
            },
{
    let mut prefixes: Vec<Option<char>> = Vec::new();
    let mut i: usize = 0;
    while i < slots.len()
        invariant
            i <= slots@.len(),
            forall|k: int|
                0 <= k < slots@.len() ==> (#[trigger] slots@[k]).place() < sources@.len(),
            prefixes@.len() == i,
            forall|k: int|
                0 <= k < i ==> prefixed(sources@, slots@[k], #[trigger] prefixes@[k]),
        decreases slots.len() - i,
    {
        let slot = slots[i];
        assert(slots@[i as int].place() < sources@.len());
        let p = match slot {
            BarSlot::Registry(s) => sources[s].prefix(),
            BarSlot::UnionAll(s) => sources[s].prefix(),
            BarSlot::UnionChild(s, j) => {
                let parts = sources[s].sub_sources();
                proof {
                    assert(call_ensures(S::sub_sources, (sources@[s as int],), parts));
                }
                if j < parts.len() {
                    parts[j].prefix
                } else {
                    None
                }
            },
        };
        prefixes.push(p);
        i = i + 1;
    }
    PrefixMap::from_prefixes(&prefixes)
}

// ---------------------------------------------------------------------------
// Labels
// ---------------------------------------------------------------------------

/// `s` with its first character as a capital.
pub open spec fn capitalized(s: Seq<char>) -> Seq<char> {
    if s.len() == 0 {
        Seq::empty()
    } else {
        text::uppercase(s[0]) + s.skip(1)
    }
}

/// A source's name in short.
pub open spec fn short_name(name: Seq<char>) -> Seq<char> {
    if name == "clipboard"@ {
        "clip"@
    } else {
        name
    }
}

/// Capitalises a text.
pub fn capitalize(s: &str) -> (r: String)
    ensures
        r@ == capitalized(s@),
{
    let v = text::chars_of(s);
    if v.len() == 0 {
        return String::new();
    }
    let mut out = text::to_uppercase(v[0]);
    let rest = text::string_of(vstd::slice::slice_subrange(v.as_slice(), 1, v.len()));
    proof {
        assert(rest@ == v@.skip(1));
    }
    out.push_str(rest.as_str());
    out
}

/// A source's name in short.
pub fn short_source_name(name: &str) -> (r: String)
    ensures
        r@ == short_name(name@),
{
    if text::str_eq(name, "clipboard") {
        "clip".to_owned()
    } else {
        name.to_owned()
    }
}

/// The label of a source's tab.
pub fn short_label(name: &str) -> (r: String)
    ensures
        r@ == capitalized(short_name(name@)),
{
    capitalize(short_source_name(name).as_str())
}

/// The hints to show of those gathered: the first for each character.
pub open spec fn first_hints(hints: Seq<(char, Seq<char>)>) -> Seq<(char, Seq<char>)>
    decreases hints.len(),
{
    if hints.len() == 0 {
        Seq::empty()
    } else {
        let rest = first_hints(hints.drop_last());
        let h = hints.last();
        if exists|k: int| 0 <= k < rest.len() && (#[trigger] rest[k]).0 == h.0 {
            rest
        } else {
            rest.push(h)
        }
    }
}

/// What hints say.
pub open spec fn hint_views(v: Seq<(char, String)>) -> Seq<(char, Seq<char>)> {
    v.map_values(|h: (char, String)| (h.0, h.1@))
}

/// Keeps the first hint for each character.
pub fn dedupe_hints(hints: &Vec<(char, String)>) -> (r: Vec<(char, String)>)
    ensures
        hint_views(r@) == first_hints(hint_views(hints@)),
{
    let ghost all = hint_views(hints@);
    let mut out: Vec<(char, String)> = Vec::new();
    let mut i: usize = 0;
    proof {
        assert(all.take(0) == Seq::<(char, Seq<char>)>::empty());
        assert(hint_views(out@) =~= Seq::<(char, Seq<char>)>::empty());
    }
    while i < hints.len()
        invariant
            i <= hints@.len(),
            all == hint_views(hints@),
            hint_views(out@) == first_hints(all.take(i as int)),
        decreases hints.len() - i,
    {
        let ch = hints[i].0;
        let ghost rest = hint_views(out@);
        proof {
            assert(all.take(i + 1).drop_last() == all.take(i as int));
            assert(all.take(i + 1).last() == (ch, hints@[i as int].1@));
        }
        let mut seen = false;
        let mut k: usize = 0;
        while k < out.len()
            invariant
                k <= out@.len(),
                rest == hint_views(out@),
                seen == (exists|j: int| 0 <= j < k && (#[trigger] rest[j]).0 == ch),
            decreases out.len() - k,
        {
            proof {
                assert(rest[k as int].0 == out@[k as int].0);
            }
            if out[k].0 == ch {
                seen = true;
            }
            k = k + 1;
        }
        if !seen {
            out.push((ch, hints[i].1.clone()));
            proof {
                assert(hint_views(out@) =~= rest.push((ch, hints@[i as int].1@)));
            }
        }
        i = i + 1;
    }
    proof {
        assert(all.take(i as int) == all);
    }
    out
}

/// The hints of the parts of a source.
pub open spec fn part_hints(parts: Seq<SourceMeta>) -> Seq<(char, Seq<char>)>
    decreases parts.len(),
{
    if parts.len() == 0 {
        Seq::empty()
    } else {
        match parts.last().prefix {
            Some(ch) => part_hints(parts.drop_last()).push((ch, short_name(parts.last().name@))),
            None => part_hints(parts.drop_last()),
        }
    }
}

/// Whether `hints` may be those of a source: its own, or where it is made of
/// others, those of its parts.
pub open spec fn hints_of<S: Source + ?Sized>(source: &S, hints: Seq<(char, Seq<char>)>) -> bool {
    exists|parts: Vec<SourceMeta>|
        {
            &&& #[trigger] call_ensures(S::sub_sources, (source,), parts)
            &&& if parts@.len() == 0 {
                exists|p: Option<char>|
                    {
                        &&& #[trigger] call_ensures(S::prefix, (source,), p)
                        &&& match p {
                            Some(ch) => exists|name: &'static str| #[trigger]
                                call_ensures(S::name, (source,), name) && hints == seq![
                                    (ch, short_name(name@)),
                                ],
                            None => hints.len() == 0,
                        }
                    }
            } else {
                hints == part_hints(parts@)
            }
        }
}

/// Gathers the hints of a source.
pub fn source_hints<S: Source + ?Sized>(source: &S) -> (r: Vec<(char, String)>)
    ensures
        hints_of(source, hint_views(r@)),
{
    let mut out: Vec<(char, String)> = Vec::new();
    proof {
        assert(hint_views(out@) =~= Seq::<(char, Seq<char>)>::empty());
    }
    let parts = source.sub_sources();
    if parts.len() == 0 {
        let p = source.prefix();
        if let Some(ch) = p {
            let said = source.name();
            out.push((ch, short_source_name(said)));
            proof {
                assert(call_ensures(S::name, (source,), said));
                assert(hint_views(out@) =~= seq![(ch, short_name(said@))]);
            }
        }
        proof {
            assert(call_ensures(S::sub_sources, (source,), parts));
            assert(call_ensures(S::prefix, (source,), p));
        }
        return out;
    }
    let mut k: usize = 0;
    proof {
        assert(parts@.take(0) == Seq::<SourceMeta>::empty());
    }
    while k < parts.len()
        invariant
            k <= parts@.len(),
            hint_views(out@) == part_hints(parts@.take(k as int)),
        decreases parts.len() - k,
    {
        let ghost had = hint_views(out@);
        proof {
            assert(parts@.take(k + 1).drop_last() == parts@.take(k as int));
            assert(parts@.take(k + 1).last() == parts@[k as int]);
        }
        if let Some(ch) = parts[k].prefix {
            let name = short_source_name(parts[k].name);
            out.push((ch, name));
            proof {
                assert(hint_views(out@) =~= had.push((ch, short_name(parts@[k as int].name@))));
            }
        }
        k = k + 1;
    }
    proof {
        assert(parts@.take(k as int) == parts@);
        assert(call_ensures(S::sub_sources, (source,), parts));
    }
    out
}

/// The first `n` of several lists, one after the other.
pub open spec fn together(lists: Seq<Seq<(char, Seq<char>)>>, n: int) -> Seq<(char, Seq<char>)>
    decreases n,
{
    if n <= 0 {
        Seq::empty()
    } else {
        together(lists, n - 1) + lists[n - 1]
    }
}

/// Gathers the hints of all sources.
pub fn prefix_hints<S: Source + ?Sized>(registry: &SourceRegistry<S>) -> (r: Vec<(char, String)>)
    ensures
        exists|lists: Seq<Seq<(char, Seq<char>)>>|
            {
                &&& lists.len() == registry.listed().len()
                &&& forall|i: int|
                    0 <= i < lists.len() ==> hints_of(
                        &*registry.listed()[i].source,
                        #[trigger] lists[i],
                    )
                &&& hint_views(r@) == first_hints(#[trigger] together(lists, lists.len() as int))
            },
{
    let entries = registry.entries();
    let mut out: Vec<(char, String)> = Vec::new();
    let ghost mut lists: Seq<Seq<(char, Seq<char>)>> = Seq::empty();
    let mut i: usize = 0;
    proof {
        assert(hint_views(out@) =~= Seq::<(char, Seq<char>)>::empty());
    }
    while i < entries.len()
        invariant
            i <= entries@.len(),
            entries@ == registry.listed(),
            lists.len() == i,
            forall|k: int| 0 <= k < i ==> hints_of(&*entries@[k].source, #[trigger] lists[k]),
            hint_views(out@) == together(lists, i as int),
        decreases entries.len() - i,
    {
        let mine = source_hints(&*entries[i].source);
        let ghost had = hint_views(out@);
        let ghost own = hint_views(mine@);
        let mut k: usize = 0;
        while k < mine.len()
            invariant
                k <= mine@.len(),
                own == hint_views(mine@),
                hint_views(out@) =~= had + own.take(k as int),
            decreases mine.len() - k,
        {
            let ghost before = hint_views(out@);
            out.push((mine[k].0, mine[k].1.clone()));
            proof {
                assert(hint_views(out@) =~= before.push(own[k as int]));
                assert(own.take(k + 1) =~= own.take(k as int).push(own[k as int]));
            }
            k = k + 1;
        }
        proof {
            assert(own.take(k as int) =~= own);
            let next = lists.push(own);
            lemma_together_local(lists, next, i as int);
            assert(together(next, i + 1) == together(next, i as int) + own);
            lists = next;
        }
        i = i + 1;
    }
    dedupe_hints(&out)
}

proof fn lemma_together_local(
    a: Seq<Seq<(char, Seq<char>)>>,
    b: Seq<Seq<(char, Seq<char>)>>,
    n: int,
)
    requires
        n <= a.len(),
        n <= b.len(),
        forall|i: int| 0 <= i < n ==> a[i] == b[i],
    ensures
        together(a, n) == together(b, n),
    decreases n,
{
    if n > 0 {
        lemma_together_local(a, b, n - 1);
    }
}

/// The bar holds, for a source that is made of others, one view of all of it and
/// one of each part, and for any other source one view; and nothing else.
pub proof fn law_bar_views(counts: Seq<usize>, n: int)
    requires
        0 <= n <= counts.len() <= usize::MAX,
    ensures
        forall|s: BarSlot| #[trigger]
            slots_of(counts, n).contains(s) <==> match s {
                BarSlot::Registry(i) => i < n && counts[i as int] == 0,
                BarSlot::UnionAll(i) => i < n && counts[i as int] > 0,
                BarSlot::UnionChild(i, j) => i < n && j < counts[i as int],
            },
    decreases n,
{
    if n > 0 {
        law_bar_views(counts, n - 1);
        let i = (n - 1) as usize;
        let c = counts[n - 1];
        let one = slots_of_one(i, c as nat);
        sorting::lemma_add_holds(slots_of(counts, n - 1), one);
        assert forall|s: BarSlot| #[trigger] one.contains(s) <==> match s {
            BarSlot::Registry(k) => k == i && c == 0,
            BarSlot::UnionAll(k) => k == i && c > 0,
            BarSlot::UnionChild(k, j) => k == i && j < c,
        } by {
            if c == 0 {
                assert(one[0] == BarSlot::Registry(i));
            } else {
                assert(one[0] == BarSlot::UnionAll(i));
                if let BarSlot::UnionChild(k, j) = s {
                    if k == i && j < c {
                        assert(one[j as int + 1] == s);
                    }
                }
            }
        }
    }
}

/// A character chooses the last view that has it as its prefix, and no view if
/// none has.
pub proof fn law_prefix_chooses_the_last_view(
    prefixes: Seq<Option<char>>,
    n: int,
    ch: char,
    k: int,
)
    requires
        0 <= n <= prefixes.len() <= usize::MAX,
    ensures
        0 <= k < n && prefixes[k] == Some(ch) && (forall|j: int|
            k < j < n ==> #[trigger] prefixes[j] != Some(ch)) ==> prefixes_of(
            prefixes,
            n,
        ).contains_key(ch) && prefixes_of(prefixes, n)[ch] == k,
        (forall|j: int| 0 <= j < n ==> #[trigger] prefixes[j] != Some(ch)) ==> !prefixes_of(
            prefixes,
            n,
        ).contains_key(ch),
    decreases n,
{
    if n > 0 {
        law_prefix_chooses_the_last_view(prefixes, n - 1, ch, k);
        if k < n - 1 && (forall|j: int| k < j < n ==> #[trigger] prefixes[j] != Some(ch)) {
            assert(prefixes[n - 1] != Some(ch));
        }
        if forall|j: int| 0 <= j < n ==> #[trigger] prefixes[j] != Some(ch) {
            assert(prefixes[n - 1] != Some(ch));
        }
    }
}

/// Of the hints for one character the first is shown, and none is invented.
pub proof fn law_first_hint_of_each_character(hints: Seq<(char, Seq<char>)>)
    ensures
        forall|h: (char, Seq<char>)| #[trigger]
            first_hints(hints).contains(h) ==> hints.contains(h),
        forall|k: int|
            0 <= k < hints.len() && (forall|j: int|
                0 <= j < k ==> (#[trigger] hints[j]).0 != hints[k].0) ==> first_hints(
                hints,
            ).contains(#[trigger] hints[k]),
        forall|i: int, j: int|
            0 <= i < j < first_hints(hints).len() ==> (#[trigger] first_hints(hints)[i]).0 != (
            #[trigger] first_hints(hints)[j]).0,
    decreases hints.len(),
{
    if hints.len() > 0 {
        let t = hints.drop_last();
        let n = hints.len() - 1;
        law_first_hint_of_each_character(t);
        let rest = first_hints(t);
        let h = hints.last();
        assert(t.push(h) =~= hints);
        sorting::lemma_push_holds(t, h);
        sorting::lemma_push_holds(rest, h);
        assert forall|k: int|
            0 <= k < hints.len() && (forall|j: int|
                0 <= j < k ==> (#[trigger] hints[j]).0 != hints[k].0) implies first_hints(
            hints,
        ).contains(#[trigger] hints[k]) by {
            if k < n {
                assert(t[k] == hints[k]);
                assert forall|j: int| 0 <= j < k implies (#[trigger] t[j]).0 != t[k].0 by {
                    assert(t[j] == hints[j]);
                }
                assert(rest.contains(t[k]));
            } else if exists|m: int| 0 <= m < rest.len() && (#[trigger] rest[m]).0 == h.0 {
                let m = choose|m: int| 0 <= m < rest.len() && (#[trigger] rest[m]).0 == h.0;
                assert(rest.contains(rest[m]));
                assert(t.contains(rest[m]));
                let j = choose|j: int| 0 <= j < t.len() && t[j] == rest[m];
                assert(hints[j].0 == h.0);
            }
        }
    }
}

/// The hints of a source's parts are those of the parts that have a prefix, and
/// the hints of several sources are those of each.
pub proof fn law_hints_of_parts(parts: Seq<SourceMeta>)
    ensures
        forall|h: (char, Seq<char>)| #[trigger]
            part_hints(parts).contains(h) <==> exists|k: int|
                0 <= k < parts.len() && (#[trigger] parts[k]).prefix == Some(h.0) && h.1
                    == short_name(parts[k].name@),
    decreases parts.len(),
{
    if parts.len() > 0 {
        let t = parts.drop_last();
        let n = parts.len() - 1;
        law_hints_of_parts(t);
        assert(parts[n] == parts.last());
        if let Some(ch) = parts.last().prefix {
            sorting::lemma_push_holds(part_hints(t), (ch, short_name(parts.last().name@)));
        }
        assert forall|h: (char, Seq<char>)| #[trigger] part_hints(parts).contains(h) <==> exists|
            k: int,
        |
            0 <= k < parts.len() && (#[trigger] parts[k]).prefix == Some(h.0) && h.1 == short_name(
                parts[k].name@,
            ) by {
            if part_hints(t).contains(h) {
                let k = choose|k: int|
                    0 <= k < t.len() && (#[trigger] t[k]).prefix == Some(h.0) && h.1 == short_name(
                        t[k].name@,
                    );
                assert(parts[k] == t[k]);
            }
            if exists|k: int|
                0 <= k < parts.len() && (#[trigger] parts[k]).prefix == Some(h.0) && h.1
                    == short_name(parts[k].name@) {
                let k = choose|k: int|
                    0 <= k < parts.len() && (#[trigger] parts[k]).prefix == Some(h.0) && h.1
                        == short_name(parts[k].name@);
                if k < n {
                    assert(t[k] == parts[k]);
                }
            }
        }
    }
}

} // verus!
