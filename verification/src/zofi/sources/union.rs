//! Several sources in one ranked list.

use vstd::prelude::*;
use vstd::string::*;

use std::sync::Arc;

use crate::sorting;
use crate::sorting::Ranked;
use crate::zofi::source;
use crate::zofi::source::ActivateOutcome;
use crate::zofi::source::Image;
use crate::zofi::source::Layout;
use crate::zofi::source::Preview;
use crate::zofi::source::PreviewChrome;
use crate::zofi::source::Row;
use crate::zofi::source::Source;
use crate::zofi::source::SourceMeta;

verus! {

// ---------------------------------------------------------------------------
// Ranking
// ---------------------------------------------------------------------------

/// An entry of one of the sources, with its score.
#[derive(Clone, Copy, Debug, PartialEq, Eq, Structural)]
pub struct Hit {
    pub total: i32,
    pub child: usize,
    pub inner: usize,
}

impl View for Hit {
    type V = Hit;

    open spec fn view(&self) -> Hit {
        *self
    }
}

impl Ranked for Hit {
    /// Higher scores first, then the sources in the order in which they were
    /// registered, then the entries of a source in their own order.
    open spec fn ranks(a: Hit, b: Hit) -> bool {
        if a.total != b.total {
            a.total > b.total
        } else if a.child != b.child {
            a.child < b.child
        } else {
            a.inner <= b.inner
        }
    }

    proof fn ranks_total(a: Hit, b: Hit) {
    }

    proof fn ranks_transitive(a: Hit, b: Hit, c: Hit) {
    }

    fn may_precede(&self, other: &Self) -> (r: bool) {
        if self.total != other.total {
            self.total > other.total
        } else if self.child != other.child {
            self.child < other.child
        } else {
            self.inner <= other.inner
        }
    }
}

/// The sum of a score and a weight, kept within range.
pub open spec fn total(score: i32, weight: i32) -> i32 {
    if score + weight > i32::MAX {
        i32::MAX
    } else if score + weight < i32::MIN {
        i32::MIN
    } else {
        (score + weight) as i32
    }
}

/// The sum of a score and a weight, kept within range.
pub fn saturating_total(score: i32, weight: i32) -> (r: i32)
    ensures
        r == total(score, weight),
{
    let sum: i64 = score as i64 + weight as i64;
    if sum > i32::MAX as i64 {
        i32::MAX
    } else if sum < i32::MIN as i64 {
        i32::MIN
    } else {
        sum as i32
    }
}

/// Puts entries in the order in which they are listed.
pub fn rank(hits: Vec<Hit>) -> (r: Vec<Hit>)
    ensures
        sorting::is_stable_sort(hits@, r@, |a: Hit, b: Hit| Hit::ranks(a, b)),
{
    let r = sorting::stable_sort(hits);
    proof {
        assert(sorting::views(hits@) =~= hits@);
        assert(sorting::views(r@) =~= r@);
    }
    r
}

/// An entry that scores higher is listed first; among equals the source that
/// was registered first, and within a source the entry that comes first.
pub proof fn law_ranking(hits: Seq<Hit>, listed: Seq<Hit>, i: int, j: int)
    requires
        sorting::is_stable_sort(hits, listed, |a: Hit, b: Hit| Hit::ranks(a, b)),
        0 <= i < j < listed.len(),
    ensures
        listed[i].total >= listed[j].total,
        listed[i].total == listed[j].total ==> listed[i].child <= listed[j].child,
        listed[i].total == listed[j].total && listed[i].child == listed[j].child
            ==> listed[i].inner <= listed[j].inner,
{
    let ranks = |a: Hit, b: Hit| Hit::ranks(a, b);
    assert(sorting::in_order(listed, ranks));
    assert(ranks(listed[i], listed[j]));
}

/// Every entry found is listed, and nothing else is.
pub proof fn law_ranking_loses_nothing(hits: Seq<Hit>, listed: Seq<Hit>, h: Hit)
    requires
        sorting::is_stable_sort(hits, listed, |a: Hit, b: Hit| Hit::ranks(a, b)),
    ensures
        hits.contains(h) == listed.contains(h),
{
    broadcast use vstd::seq_lib::group_filter_ensures;

    let ranks = |a: Hit, b: Hit| Hit::ranks(a, b);
    let p = |y: Hit| ranks(h, y) && ranks(y, h);
    assert(sorting::peers(listed, h, ranks) == sorting::peers(hits, h, ranks));
    assert(listed.filter(p) == hits.filter(p));
    assert(p(h));
    if hits.contains(h) {
        let k = choose|k: int| 0 <= k < hits.len() && hits[k] == h;
        assert(hits.filter(p).contains(hits[k]));
        listed.lemma_filter_contains_rev(p, h);
    }
    if listed.contains(h) {
        let k = choose|k: int| 0 <= k < listed.len() && listed[k] == h;
        assert(listed.filter(p).contains(listed[k]));
        hits.lemma_filter_contains_rev(p, h);
    }
}

/// What one source found: its place, and for each entry its index, its score
/// and its weight.
pub struct Found {
    pub child: usize,
    pub entries: Vec<(usize, i32, i32)>,
}

/// The entries of one source.
pub open spec fn hits_of(child: usize, entries: Seq<(usize, i32, i32)>) -> Seq<Hit> {
    entries.map_values(
        |e: (usize, i32, i32)| Hit { total: total(e.1, e.2), child, inner: e.0 },
    )
}

/// The entries of all sources, one source after the other.
pub open spec fn all_hits(found: Seq<Found>) -> Seq<Hit>
    decreases found.len(),
{
    if found.len() == 0 {
        Seq::empty()
    } else {
        all_hits(found.drop_last()) + hits_of(found.last().child, found.last().entries@)
    }
}

/// Whether `hits` lists what the sources found, in order.
pub open spec fn is_listing(found: Seq<Found>, hits: Seq<Hit>) -> bool {
    sorting::is_stable_sort(all_hits(found), hits, |a: Hit, b: Hit| Hit::ranks(a, b))
}

/// Lists what the sources found, in order.
pub fn list_found(found: &Vec<Found>) -> (r: Vec<Hit>)
    ensures
        is_listing(found@, r@),
{
    let mut hits: Vec<Hit> = Vec::new();
    let mut i: usize = 0;
    proof {
        assert(found@.take(0) == Seq::<Found>::empty());
    }
    while i < found.len()
        invariant
            i <= found@.len(),
            hits@ == all_hits(found@.take(i as int)),
        decreases found.len() - i,
    {
        let f = &found[i];
        let ghost before = hits@;
        let ghost mine = hits_of(f.child, f.entries@);
        let mut k: usize = 0;
        while k < f.entries.len()
            invariant
                k <= f.entries@.len(),
                mine == hits_of(f.child, f.entries@),
                hits@ =~= before + mine.take(k as int),
            decreases f.entries.len() - k,
        {
            let (inner, score, weight) = f.entries[k];
            let hit = Hit { total: saturating_total(score, weight), child: f.child, inner };
            hits.push(hit);
            proof {
                assert(mine[k as int] == hit);
            }
            k = k + 1;
        }
        proof {
            assert(mine.take(k as int) =~= mine);
            assert(found@.take(i + 1).drop_last() == found@.take(i as int));
            assert(found@.take(i + 1).last() == found@[i as int]);
        }
        i = i + 1;
    }
    proof {
        assert(found@.take(i as int) == found@);
    }
    rank(hits)
}

// ---------------------------------------------------------------------------
// The source
// ---------------------------------------------------------------------------

/// Which entry of which source a listed entry is.
#[derive(Clone, Copy, Debug, PartialEq, Eq, Structural)]
pub struct Route {
    pub child_idx: usize,
    pub inner_ix: usize,
}

/// Several sources in one ranked list. An entry goes by its place in the list
/// that [`UnionSource::filter`] made last.
pub struct UnionSource<S: Source = Box<dyn Source>> {
    children: Vec<S>,
    name: &'static str,
    icon: &'static str,
    placeholder: &'static str,
    empty_text: &'static str,
    routing: Vec<Route>,
    active_child: Option<usize>,
}

/// Where listed entries lead.
pub open spec fn routes_of(hits: Seq<Hit>) -> Seq<Route> {
    hits.map_values(|h: Hit| Route { child_idx: h.child, inner_ix: h.inner })
}

/// The scores of listed entries.
pub open spec fn totals_of(hits: Seq<Hit>) -> Seq<i32> {
    hits.map_values(|h: Hit| h.total)
}

/// Whether entries with scores are those of `entries`.
pub open spec fn is_answer(scored: Seq<(usize, i32)>, entries: Seq<(usize, i32, i32)>) -> bool {
    &&& scored.len() == entries.len()
    &&& forall|j: int|
        0 <= j < entries.len() ==> (#[trigger] entries[j]).0 == scored[j].0 && entries[j].1
            == scored[j].1
}

/// Whether `entries` is what a source may answer to `query`, with the weights
/// that it gives.
pub open spec fn answered<S: Source>(part: S, query: &str, entries: Seq<(usize, i32, i32)>) -> bool {
    &&& exists|scored: Vec<(usize, i32)>|
        #[trigger] call_ensures(S::filter_scored, (&part, query), scored) && is_answer(
            scored@,
            entries,
        )
    &&& forall|j: int|
        0 <= j < entries.len() ==> call_ensures(
            S::weight,
            (&part, (#[trigger] entries[j]).0),
            entries[j].2,
        )
}

/// Whether the first `n` sources have no notice.
pub open spec fn silent_before<S: Source>(parts: Seq<S>, n: int) -> bool {
    forall|i: int|
        0 <= i < n ==> call_ensures(S::banner, (&#[trigger] parts[i],), None::<String>)
}

/// Whether `r` is `row` with a source's glyph and name beside it.
pub open spec fn marked<S: Source>(r: Row, row: Row, source: S) -> bool {
    &&& match r.gutter {
        Some((icon, name)) => call_ensures(S::icon, (&source,), icon) && call_ensures(
            S::name,
            (&source,),
            name,
        ),
        None => false,
    }
    &&& r == (Row { gutter: r.gutter, ..row })
}

/// Whether a source may describe itself so.
pub open spec fn described<S: Source>(source: S, meta: SourceMeta) -> bool {
    &&& call_ensures(S::name, (&source,), meta.name)
    &&& call_ensures(S::icon, (&source,), meta.icon)
    &&& call_ensures(S::prefix, (&source,), meta.prefix)
}

impl<S: Source> UnionSource<S> {
    /// The sources.
    pub closed spec fn parts(&self) -> Seq<S> {
        self.children@
    }

    /// Where the listed entries lead.
    pub closed spec fn routes(&self) -> Seq<Route> {
        self.routing@
    }

    /// The one source that the list is restricted to.
    pub closed spec fn only(&self) -> Option<usize> {
        self.active_child
    }

    /// The name, the glyph and the two texts.
    pub closed spec fn texts(&self) -> (Seq<char>, Seq<char>, Seq<char>, Seq<char>) {
        (self.name@, self.icon@, self.placeholder@, self.empty_text@)
    }

    /// Every listed entry leads to a source, and so does the restriction.
    pub open spec fn wf(&self) -> bool {
        &&& forall|i: int|
            0 <= i < self.routes().len() ==> (#[trigger] self.routes()[i]).child_idx
                < self.parts().len()
        &&& self.only() is Some ==> self.only()->0 < self.parts().len()
    }

    /// The source that a listed entry is from.
    pub open spec fn part_of(&self, ix: usize) -> S {
        self.parts()[self.routes()[ix as int].child_idx as int]
    }

    /// The index that a listed entry has in its source.
    pub open spec fn inner_of(&self, ix: usize) -> usize {
        self.routes()[ix as int].inner_ix
    }

    /// The places of the sources that are listed.
    pub open spec fn active(&self) -> Seq<usize> {
        match self.only() {
            Some(i) => seq![i],
            None => source::all_indices(self.parts().len()),
        }
    }

    /// Whether `found` is what the listed sources may answer to `query`.
    pub open spec fn may_find(&self, query: &str, found: Seq<Found>) -> bool {
        &&& found.len() == self.active().len()
        &&& forall|i: int|
            0 <= i < found.len() ==> (#[trigger] found[i]).child == self.active()[i] && answered(
                self.parts()[self.active()[i] as int],
                query,
                found[i].entries@,
            )
    }

    /// A list of all entries of the given sources.
    pub fn new(children: Vec<S>) -> (r: Self)
        ensures
            r.wf(),
            r.parts() == children@,
            r.routes().len() == 0,
            r.only() is None,
            r.texts() == ("all"@, "\u{25c9}"@, "Search all..."@, "No results"@),
    {
        UnionSource {
            children,
            name: "all",
            icon: "\u{25c9}",
            placeholder: "Search all...",
            empty_text: "No results",
            routing: Vec::new(),
            active_child: None,
        }
    }

    /// The same list under another name.
    pub fn with_name(self, name: &'static str) -> (r: Self)
        ensures
            r.parts() == self.parts(),
            r.routes() == self.routes(),
            r.only() == self.only(),
            r.texts() == (name@, self.texts().1, self.texts().2, self.texts().3),
    {
        let mut u = self;
        u.name = name;
        u
    }

    /// The same list with another glyph.
    pub fn with_icon(self, icon: &'static str) -> (r: Self)
        ensures
            r.parts() == self.parts(),
            r.routes() == self.routes(),
            r.only() == self.only(),
            r.texts() == (self.texts().0, icon@, self.texts().2, self.texts().3),
    {
        let mut u = self;
        u.icon = icon;
        u
    }

    /// The same list with another text for an empty input.
    pub fn with_placeholder(self, placeholder: &'static str) -> (r: Self)
        ensures
            r.parts() == self.parts(),
            r.routes() == self.routes(),
            r.only() == self.only(),
            r.texts() == (self.texts().0, self.texts().1, placeholder@, self.texts().3),
    {
        let mut u = self;
        u.placeholder = placeholder;
        u
    }

    /// The same list with another text for an empty list.
    pub fn with_empty_text(self, text: &'static str) -> (r: Self)
        ensures
            r.parts() == self.parts(),
            r.routes() == self.routes(),
            r.only() == self.only(),
            r.texts() == (self.texts().0, self.texts().1, self.texts().2, text@),
    {
        let mut u = self;
        u.empty_text = text;
        u
    }

    /// The name.
    pub fn name(&self) -> (r: &'static str)
        ensures
            r@ == self.texts().0,
    {
        self.name
    }

    /// The glyph.
    pub fn icon(&self) -> (r: &'static str)
        ensures
            r@ == self.texts().1,
    {
        self.icon
    }

    /// What an empty input says.
    pub fn placeholder(&self) -> (r: &'static str)
        ensures
            r@ == self.texts().2,
    {
        self.placeholder
    }

    /// What is said when there is nothing to list.
    pub fn empty_text(&self) -> (r: &'static str)
        ensures
            r@ == self.texts().3,
    {
        self.empty_text
    }

    /// The places of the sources that are listed.
    pub fn active_indices(&self) -> (r: Vec<usize>)
        requires
            self.wf(),
        ensures
            r@ == self.active(),
    {
        match self.active_child {
            Some(i) => {
                let mut v: Vec<usize> = Vec::new();
                v.push(i);
                v
            },
            None => source::indices(self.children.len()),
        }
    }

    /// Asks the listed sources for the entries that match `query`.
    fn ask(&self, query: &str) -> (r: Vec<Found>)
        requires
            self.wf(),
        ensures
            self.may_find(query, r@),
    {
        let active = self.active_indices();
        let mut out: Vec<Found> = Vec::new();
        let mut i: usize = 0;
        while i < active.len()
            invariant
                self.wf(),
                active@ == self.active(),
                i <= active@.len(),
                out@.len() == i,
                forall|k: int|
                    0 <= k < i ==> (#[trigger] out@[k]).child == active@[k] && answered(
                        self.parts()[active@[k] as int],
                        query,
                        out@[k].entries@,
                    ),
            decreases active.len() - i,
        {
            let child = active[i];
            assert(child < self.children@.len());
            let scored = self.children[child].filter_scored(query);
            let mut entries: Vec<(usize, i32, i32)> = Vec::new();
            let mut k: usize = 0;
            while k < scored.len()
                invariant
                    child < self.children@.len(),
                    k <= scored@.len(),
                    entries@.len() == k,
                    forall|j: int|
                        0 <= j < k ==> (#[trigger] entries@[j]).0 == scored@[j].0 && entries@[j].1
                            == scored@[j].1 && call_ensures(
                            S::weight,
                            (&self.children@[child as int], entries@[j].0),
                            entries@[j].2,
                        ),
                decreases scored.len() - k,
            {
                let (inner, score) = scored[k];
                let weight = self.children[child].weight(inner);
                entries.push((inner, score, weight));
                k = k + 1;
            }
            proof {
                assert(is_answer(scored@, entries@));
                assert(call_ensures(
                    S::filter_scored,
                    (&self.children@[child as int], query),
                    scored,
                ));
                assert(answered(self.parts()[child as int], query, entries@));
            }
            out.push(Found { child, entries });
            i = i + 1;
        }
        out
    }

    /// Lists what the sources found.
    pub fn show(&mut self, found: &Vec<Found>) -> (totals: Vec<i32>)
        requires
            old(self).wf(),
            forall|i: int|
                0 <= i < found@.len() ==> (#[trigger] found@[i]).child < old(self).parts().len(),
        ensures
            final(self).wf(),
            final(self).parts() == old(self).parts(),
            final(self).only() == old(self).only(),
            final(self).texts() == old(self).texts(),
            exists|hits: Seq<Hit>|
                {
                    &&& #[trigger] is_listing(found@, hits)
                    &&& final(self).routes() == routes_of(hits)
                    &&& totals@ == totals_of(hits)
                },
            forall|i: int|
                0 <= i < final(self).routes().len() ==> exists|k: int|
                    0 <= k < found@.len() && (#[trigger] found@[k]).child == (
                    #[trigger] final(self).routes()[i]).child_idx,
    {
        let hits = list_found(found);
        let mut routing: Vec<Route> = Vec::new();
        let mut totals: Vec<i32> = Vec::new();
        let mut i: usize = 0;
        while i < hits.len()
            invariant
                i <= hits@.len(),
                routing@ =~= routes_of(hits@.take(i as int)),
                totals@ =~= totals_of(hits@.take(i as int)),
            decreases hits.len() - i,
        {
            let h = hits[i];
            routing.push(Route { child_idx: h.child, inner_ix: h.inner });
            totals.push(h.total);
            i = i + 1;
        }
        proof {
            assert(hits@.take(i as int) =~= hits@);
            assert forall|j: int| 0 <= j < routing@.len() implies exists|k: int|
                0 <= k < found@.len() && (#[trigger] found@[k]).child == (
                #[trigger] routing@[j]).child_idx by {
                law_ranking_loses_nothing(all_hits(found@), hits@, hits@[j]);
                assert(hits@.contains(hits@[j]));
                lemma_hit_found(found@, hits@[j]);
            }
        }
        self.routing = routing;
        totals
    }

    fn score_and_route(&mut self, query: &str) -> (totals: Vec<i32>)
        requires
            old(self).wf(),
        ensures
            final(self).wf(),
            final(self).parts() == old(self).parts(),
            final(self).only() == old(self).only(),
            final(self).texts() == old(self).texts(),
            totals@.len() == final(self).routes().len(),
            exists|found: Seq<Found>, hits: Seq<Hit>|
                {
                    &&& old(self).may_find(query, found)
                    &&& #[trigger] is_listing(found, hits)
                    &&& final(self).routes() == routes_of(hits)
                    &&& totals@ == totals_of(hits)
                },
            forall|i: int, j: int| 0 <= i < j < totals@.len() ==> totals@[i] >= totals@[j],
            forall|i: int|
                0 <= i < final(self).routes().len() ==> old(self).active().contains(
                    (#[trigger] final(self).routes()[i]).child_idx,
                ),
    {
        let found = self.ask(query);
        proof {
            assert forall|i: int| 0 <= i < found@.len() implies (#[trigger] found@[i]).child
                < self.parts().len() by {
                assert(found@[i].child == self.active()[i]);
            }
        }
        let totals = self.show(&found);
        proof {
            let hits = choose|hits: Seq<Hit>|
                {
                    &&& #[trigger] is_listing(found@, hits)
                    &&& self.routes() == routes_of(hits)
                    &&& totals@ == totals_of(hits)
                };
            assert forall|i: int, j: int| 0 <= i < j < totals@.len() implies totals@[i]
                >= totals@[j] by {
                law_ranking(all_hits(found@), hits, i, j);
            }
            assert forall|i: int| 0 <= i < self.routes().len() implies old(
                self,
            ).active().contains((#[trigger] self.routes()[i]).child_idx) by {
                let k = choose|k: int|
                    0 <= k < found@.len() && (#[trigger] found@[k]).child == (
                    self.routes()[i]).child_idx;
                assert(found@[k].child == old(self).active()[k]);
            }
        }
        totals
    }

    /// Lists the entries that match `query`, best first.
    ///
    /// Which entries match is up to the sources; [`UnionSource::show`] says
    /// how what they find is listed.
    pub fn filter(&mut self, query: &str) -> (r: Vec<usize>)
        requires
            old(self).wf(),
        ensures
            final(self).wf(),
            final(self).parts() == old(self).parts(),
            final(self).only() == old(self).only(),
            final(self).texts() == old(self).texts(),
            r@ == source::all_indices(final(self).routes().len()),
            exists|found: Seq<Found>, hits: Seq<Hit>|
                {
                    &&& old(self).may_find(query, found)
                    &&& #[trigger] is_listing(found, hits)
                    &&& final(self).routes() == routes_of(hits)
                },
            forall|i: int|
                0 <= i < final(self).routes().len() ==> old(self).active().contains(
                    (#[trigger] final(self).routes()[i]).child_idx,
                ),
    {
        let totals = self.score_and_route(query);
        source::indices(totals.len())
    }

    /// [`UnionSource::filter`] with the entries' scores, which do not rise.
    pub fn filter_scored(&mut self, query: &str) -> (r: Vec<(usize, i32)>)
        requires
            old(self).wf(),
        ensures
            final(self).wf(),
            final(self).parts() == old(self).parts(),
            final(self).only() == old(self).only(),
            final(self).texts() == old(self).texts(),
            r@.len() == final(self).routes().len(),
            exists|found: Seq<Found>, hits: Seq<Hit>|
                {
                    &&& old(self).may_find(query, found)
                    &&& #[trigger] is_listing(found, hits)
                    &&& final(self).routes() == routes_of(hits)
                    &&& forall|i: int|
                        0 <= i < r@.len() ==> #[trigger] r@[i] == (i as usize, hits[i].total)
                },
            forall|i: int|
                0 <= i < final(self).routes().len() ==> old(self).active().contains(
                    (#[trigger] final(self).routes()[i]).child_idx,
                ),
    {
        let totals = self.score_and_route(query);
        let mut out: Vec<(usize, i32)> = Vec::new();
        let mut i: usize = 0;
        while i < totals.len()
            invariant
                i <= totals@.len(),
                out@.len() == i,
                forall|k: int| 0 <= k < i ==> #[trigger] out@[k] == (k as usize, totals@[k]),
            decreases totals.len() - i,
        {
            out.push((i, totals[i]));
            i = i + 1;
        }
        out
    }

    /// Where a listed entry leads.
    pub fn route(&self, ix: usize) -> (r: Route)
        requires
            ix < self.routes().len(),
        ensures
            r == self.routes()[ix as int],
    {
        self.routing[ix]
    }

    /// The name of the source that a listed entry is from.
    pub fn source_name(&self, ix: usize) -> (r: &'static str)
        requires
            self.wf(),
            ix < self.routes().len(),
        ensures
            call_ensures(S::name, (&self.part_of(ix),), r),
    {
        self.children[self.routing[ix].child_idx].name()
    }

    /// What the row of a listed entry shows: the row of its source, with the
    /// source marked where several are listed.
    pub fn render_item(&self, ix: usize, selected: bool) -> (r: Row)
        requires
            self.wf(),
            ix < self.routes().len(),
        ensures
            exists|row: Row|
                {
                    &&& #[trigger] call_ensures(
                        S::render_item,
                        (&self.part_of(ix), self.inner_of(ix), selected),
                        row,
                    )
                    &&& match self.only() {
                        Some(_) => r == row,
                        None => marked(r, row, self.part_of(ix)),
                    }
                },
    {
        let r = self.routing[ix];
        let row = self.children[r.child_idx].render_item(r.inner_ix, selected);
        if self.active_child.is_some() {
            return row;
        }
        let icon = self.children[r.child_idx].icon();
        let name = self.children[r.child_idx].name();
        Row {
            gutter: Some((icon, name)),
            icon: row.icon,
            title: row.title,
            subtitle: row.subtitle,
            selected: row.selected,
        }
    }

    /// Activates a listed entry.
    pub fn activate(&self, ix: usize) -> (r: ActivateOutcome)
        requires
            self.wf(),
            ix < self.routes().len(),
        ensures
            call_ensures(S::activate, (&self.part_of(ix), self.inner_of(ix)), r),
    {
        let r = self.routing[ix];
        self.children[r.child_idx].activate(r.inner_ix)
    }

    /// The key by which the use of a listed entry is recorded.
    pub fn item_key(&self, ix: usize) -> (r: Option<String>)
        requires
            self.wf(),
            ix < self.routes().len(),
        ensures
            call_ensures(S::item_key, (&self.part_of(ix), self.inner_of(ix)), r),
    {
        let r = self.routing[ix];
        self.children[r.child_idx].item_key(r.inner_ix)
    }

    /// The weight of a listed entry.
    pub fn weight(&self, ix: usize) -> (r: i32)
        requires
            self.wf(),
            ix < self.routes().len(),
        ensures
            call_ensures(S::weight, (&self.part_of(ix), self.inner_of(ix)), r),
    {
        let r = self.routing[ix];
        self.children[r.child_idx].weight(r.inner_ix)
    }

    /// The preview of a listed entry.
    pub fn preview(&self, ix: usize) -> (r: Option<Preview>)
        requires
            self.wf(),
            ix < self.routes().len(),
        ensures
            call_ensures(S::preview, (&self.part_of(ix), self.inner_of(ix)), r),
    {
        let r = self.routing[ix];
        self.children[r.child_idx].preview(r.inner_ix)
    }

    /// What surrounds the preview of a listed entry.
    pub fn preview_chrome(&self, ix: usize) -> (r: Option<PreviewChrome>)
        requires
            self.wf(),
            ix < self.routes().len(),
        ensures
            call_ensures(S::preview_chrome, (&self.part_of(ix), self.inner_of(ix)), r),
    {
        let r = self.routing[ix];
        self.children[r.child_idx].preview_chrome(r.inner_ix)
    }

    /// The full-size image of a listed entry.
    pub fn peek_image(&self, ix: usize) -> (r: Option<Arc<Image>>)
        requires
            self.wf(),
            ix < self.routes().len(),
        ensures
            call_ensures(S::peek_image, (&self.part_of(ix), self.inner_of(ix)), r),
    {
        let r = self.routing[ix];
        self.children[r.child_idx].peek_image(r.inner_ix)
    }

    /// Whether any source has full-size images.
    pub fn can_peek(&self) -> (r: bool)
        ensures
            if r {
                exists|i: int|
                    0 <= i < self.parts().len() && call_ensures(
                        S::can_peek,
                        (&#[trigger] self.parts()[i],),
                        true,
                    )
            } else {
                forall|i: int|
                    0 <= i < self.parts().len() ==> call_ensures(
                        S::can_peek,
                        (&#[trigger] self.parts()[i],),
                        false,
                    )
            },
    {
        let mut i: usize = 0;
        while i < self.children.len()
            invariant
                i <= self.children@.len(),
                forall|k: int|
                    0 <= k < i ==> call_ensures(
                        S::can_peek,
                        (&#[trigger] self.children@[k],),
                        false,
                    ),
            decreases self.children.len() - i,
        {
            if self.children[i].can_peek() {
                assert(call_ensures(S::can_peek, (&self.parts()[i as int],), true));
                return true;
            }
            i = i + 1;
        }
        false
    }

    /// The image of a listed entry, encoded for the clipboard.
    pub fn copy_image_bytes(&self, ix: usize) -> (r: Option<Arc<Vec<u8>>>)
        requires
            self.wf(),
            ix < self.routes().len(),
        ensures
            call_ensures(S::copy_image_bytes, (&self.part_of(ix), self.inner_of(ix)), r),
    {
        let r = self.routing[ix];
        self.children[r.child_idx].copy_image_bytes(r.inner_ix)
    }

    /// Whether any source has images to copy.
    pub fn can_copy_image(&self) -> (r: bool)
        ensures
            if r {
                exists|i: int|
                    0 <= i < self.parts().len() && call_ensures(
                        S::can_copy_image,
                        (&#[trigger] self.parts()[i],),
                        true,
                    )
            } else {
                forall|i: int|
                    0 <= i < self.parts().len() ==> call_ensures(
                        S::can_copy_image,
                        (&#[trigger] self.parts()[i],),
                        false,
                    )
            },
    {
        let mut i: usize = 0;
        while i < self.children.len()
            invariant
                i <= self.children@.len(),
                forall|k: int|
                    0 <= k < i ==> call_ensures(
                        S::can_copy_image,
                        (&#[trigger] self.children@[k],),
                        false,
                    ),
            decreases self.children.len() - i,
        {
            if self.children[i].can_copy_image() {
                assert(call_ensures(S::can_copy_image, (&self.parts()[i as int],), true));
                return true;
            }
            i = i + 1;
        }
        false
    }

    /// The representations of a listed entry.
    pub fn mimes(&self, ix: usize) -> (r: Vec<String>)
        requires
            self.wf(),
            ix < self.routes().len(),
        ensures
            call_ensures(S::mimes, (&self.part_of(ix), self.inner_of(ix)), r),
    {
        let r = self.routing[ix];
        self.children[r.child_idx].mimes(r.inner_ix)
    }

    /// The default representation of a listed entry.
    pub fn primary_mime(&self, ix: usize) -> (r: Option<String>)
        requires
            self.wf(),
            ix < self.routes().len(),
        ensures
            call_ensures(S::primary_mime, (&self.part_of(ix), self.inner_of(ix)), r),
    {
        let r = self.routing[ix];
        self.children[r.child_idx].primary_mime(r.inner_ix)
    }

    /// Which representation of a listed entry is the default one.
    pub fn primary_mime_index(&self, ix: usize) -> (r: Option<usize>)
        requires
            self.wf(),
            ix < self.routes().len(),
        ensures
            call_ensures(S::primary_mime_index, (&self.part_of(ix), self.inner_of(ix)), r),
    {
        let r = self.routing[ix];
        self.children[r.child_idx].primary_mime_index(r.inner_ix)
    }

    /// The preview of one representation of a listed entry.
    pub fn preview_for_mime(&self, ix: usize, mime: &str) -> (r: Option<Preview>)
        requires
            self.wf(),
            ix < self.routes().len(),
        ensures
            call_ensures(S::preview_for_mime, (&self.part_of(ix), self.inner_of(ix), mime), r),
    {
        let r = self.routing[ix];
        self.children[r.child_idx].preview_for_mime(r.inner_ix, mime)
    }

    /// Activates a listed entry by one representation.
    pub fn activate_with_mime(&self, ix: usize, mime: &str) -> (r: ActivateOutcome)
        requires
            self.wf(),
            ix < self.routes().len(),
        ensures
            call_ensures(S::activate_with_mime, (&self.part_of(ix), self.inner_of(ix), mime), r),
    {
        let r = self.routing[ix];
        self.children[r.child_idx].activate_with_mime(r.inner_ix, mime)
    }

    /// The sources, in the order in which they were registered.
    pub fn sub_sources(&self) -> (r: Vec<SourceMeta>)
        ensures
            r@.len() == self.parts().len(),
            forall|i: int|
                0 <= i < r@.len() ==> described(self.parts()[i], #[trigger] r@[i]),
    {
        let mut out: Vec<SourceMeta> = Vec::new();
        let mut i: usize = 0;
        while i < self.children.len()
            invariant
                i <= self.children@.len(),
                out@.len() == i,
                forall|k: int|
                    0 <= k < i ==> described(self.children@[k], #[trigger] out@[k]),
            decreases self.children.len() - i,
        {
            let c = &self.children[i];
            out.push(SourceMeta { name: c.name(), icon: c.icon(), prefix: c.prefix() });
            i = i + 1;
        }
        out
    }

    /// Restricts the next list to one source; a place that no source has
    /// lifts the restriction.
    pub fn set_sub_filter(&mut self, idx: Option<usize>)
        requires
            old(self).wf(),
        ensures
            final(self).wf(),
            final(self).parts() == old(self).parts(),
            final(self).routes() == old(self).routes(),
            final(self).texts() == old(self).texts(),
            final(self).only() == (match idx {
                Some(i) => if i < old(self).parts().len() {
                    Some(i)
                } else {
                    None
                },
                None => None,
            }),
    {
        self.active_child = match idx {
            Some(i) => if i < self.children.len() {
                Some(i)
            } else {
                None
            },
            None => None,
        };
        proof {
            assert(self.routes() == old(self).routes());
            assert(self.only() is Some ==> self.only()->0 < self.parts().len());
        }
    }

    /// Whether there is a preview beside the list: where any source wants one.
    pub fn layout(&self) -> (r: Layout)
        ensures
            if r == Layout::ListAndPreview {
                exists|i: int|
                    0 <= i < self.parts().len() && call_ensures(
                        S::layout,
                        (&#[trigger] self.parts()[i],),
                        Layout::ListAndPreview,
                    )
            } else {
                forall|i: int|
                    0 <= i < self.parts().len() ==> call_ensures(
                        S::layout,
                        (&#[trigger] self.parts()[i],),
                        Layout::List,
                    )
            },
    {
        let mut i: usize = 0;
        while i < self.children.len()
            invariant
                i <= self.children@.len(),
                forall|k: int|
                    0 <= k < i ==> call_ensures(
                        S::layout,
                        (&#[trigger] self.children@[k],),
                        Layout::List,
                    ),
            decreases self.children.len() - i,
        {
            if self.children[i].layout() == Layout::ListAndPreview {
                assert(call_ensures(
                    S::layout,
                    (&self.parts()[i as int],),
                    Layout::ListAndPreview,
                ));
                return Layout::ListAndPreview;
            }
            i = i + 1;
        }
        Layout::List
    }

    /// The notice of the first source that has one.
    pub fn banner(&self) -> (r: Option<String>)
        ensures
            match r {
                Some(_) => exists|i: int|
                    {
                        &&& 0 <= i < self.parts().len()
                        &&& call_ensures(S::banner, (&#[trigger] self.parts()[i],), r)
                        &&& silent_before(self.parts(), i)
                    },
                None => silent_before(self.parts(), self.parts().len() as int),
            },
    {
        let mut i: usize = 0;
        while i < self.children.len()
            invariant
                i <= self.children@.len(),
                silent_before(self.children@, i as int),
            decreases self.children.len() - i,
        {
            let b = self.children[i].banner();
            if b.is_some() {
                assert(call_ensures(S::banner, (&self.parts()[i as int],), b));
                return b;
            }
            i = i + 1;
        }
        None
    }
}

proof fn lemma_hit_found(found: Seq<Found>, h: Hit)
    requires
        all_hits(found).contains(h),
    ensures
        exists|k: int| 0 <= k < found.len() && (#[trigger] found[k]).child == h.child,
    decreases found.len(),
{
    let all = all_hits(found);
    let i = choose|i: int| 0 <= i < all.len() && all[i] == h;
    if found.len() > 0 {
        let rest = all_hits(found.drop_last());
        let last = found[found.len() - 1];
        if i < rest.len() {
            assert(rest[i] == h);
            lemma_hit_found(found.drop_last(), h);
            let k = choose|k: int|
                0 <= k < found.drop_last().len() && (#[trigger] found.drop_last()[k]).child
                    == h.child;
            assert(found[k].child == h.child);
        } else {
            assert(hits_of(last.child, last.entries@)[i - rest.len()] == h);
            assert(found[found.len() - 1].child == h.child);
        }
    }
}

/// A hit's rank is the sum of how well it matched and of how much it weighs,
/// kept within what a number can hold.
pub proof fn law_totals(score: i32, weight: i32)
    ensures
        i32::MIN <= score + weight <= i32::MAX ==> total(score, weight) == score + weight,
        score + weight > i32::MAX ==> total(score, weight) == i32::MAX,
        score + weight < i32::MIN ==> total(score, weight) == i32::MIN,
{
}

/// Every entry that some part found is among the hits, with that part, its place
/// there and its total, and nothing else is.
pub proof fn law_hits_are_all_that_was_found(found: Seq<Found>)
    ensures
        forall|h: Hit| #[trigger]
            all_hits(found).contains(h) <==> exists|i: int, j: int|
                {
                    &&& 0 <= i < found.len()
                    &&& 0 <= j < (#[trigger] found[i]).entries@.len()
                    &&& h.child == found[i].child
                    &&& h.inner == (#[trigger] found[i].entries@[j]).0
                    &&& h.total == total(found[i].entries@[j].1, found[i].entries@[j].2)
                },
    decreases found.len(),
{
    if found.len() > 0 {
        let t = found.drop_last();
        let n = found.len() - 1;
        let last = found.last();
        let hits = hits_of(last.child, last.entries@);
        law_hits_are_all_that_was_found(t);
        sorting::lemma_add_holds(all_hits(t), hits);
        assert(found[n] == last);
        assert forall|h: Hit| #[trigger] all_hits(found).contains(h) <==> exists|i: int, j: int|
            {
                &&& 0 <= i < found.len()
                &&& 0 <= j < (#[trigger] found[i]).entries@.len()
                &&& h.child == found[i].child
                &&& h.inner == (#[trigger] found[i].entries@[j]).0
                &&& h.total == total(found[i].entries@[j].1, found[i].entries@[j].2)
            } by {
            if all_hits(t).contains(h) {
                let (i, j) = choose|i: int, j: int|
                    {
                        &&& 0 <= i < t.len()
                        &&& 0 <= j < (#[trigger] t[i]).entries@.len()
                        &&& h.child == t[i].child
                        &&& h.inner == (#[trigger] t[i].entries@[j]).0
                        &&& h.total == total(t[i].entries@[j].1, t[i].entries@[j].2)
                    };
                assert(found[i] == t[i]);
                assert(found[i].entries@[j].0 == h.inner);
            }
            if hits.contains(h) {
                let j = choose|j: int| 0 <= j < hits.len() && hits[j] == h;
                assert(found[n].entries@[j].0 == h.inner);
            }
            if exists|i: int, j: int|
                {
                    &&& 0 <= i < found.len()
                    &&& 0 <= j < (#[trigger] found[i]).entries@.len()
                    &&& h.child == found[i].child
                    &&& h.inner == (#[trigger] found[i].entries@[j]).0
                    &&& h.total == total(found[i].entries@[j].1, found[i].entries@[j].2)
                } {
                let (i, j) = choose|i: int, j: int|
                    {
                        &&& 0 <= i < found.len()
                        &&& 0 <= j < (#[trigger] found[i]).entries@.len()
                        &&& h.child == found[i].child
                        &&& h.inner == (#[trigger] found[i].entries@[j]).0
                        &&& h.total == total(found[i].entries@[j].1, found[i].entries@[j].2)
                    };
                if i < n {
                    assert(t[i] == found[i]);
                    assert(t[i].entries@[j].0 == h.inner);
                } else {
                    assert(hits[j] == h);
                }
            }
        }
    }
}

/// The better total comes first; of equal ones the earlier part, and of equal
/// parts the earlier entry.
pub proof fn law_better_hits_come_first(found: Seq<Found>, hits: Seq<Hit>, i: int, j: int)
    requires
        is_listing(found, hits),
        0 <= i < j < hits.len(),
    ensures
        hits[i].total >= hits[j].total,
        hits[i].total == hits[j].total ==> hits[i].child <= hits[j].child,
        hits[i].total == hits[j].total && hits[i].child == hits[j].child ==> hits[i].inner
            <= hits[j].inner,
{
    let ranks = |a: Hit, b: Hit| Hit::ranks(a, b);
    assert forall|a: Hit| #[trigger] ranks(a, a) by {
        Hit::ranks_total(a, a);
    }
    sorting::law_sorting_loses_nothing(all_hits(found), hits, ranks);
    assert(ranks(hits[i], hits[j]));
}

/// Where the list is restricted to one part only entries of that part are
/// listed, and otherwise entries of all parts are; every listed entry is shown
/// once, in the order of the list.
pub proof fn law_restricted_listing<S: Source>(u: &mut UnionSource<S>, query: &str, r: Vec<usize>, i: int)
    requires
        old(u).wf(),
        call_ensures(UnionSource::<S>::filter, (u, query), r),
        0 <= i < final(u).routes().len(),
    ensures
        r@.len() == final(u).routes().len(),
        final(u).routes().len() <= usize::MAX ==> r@[i] == i,
        old(u).only() is Some ==> final(u).routes()[i].child_idx == old(u).only()->0,
        final(u).routes()[i].child_idx < old(u).parts().len(),
        final(u).only() == old(u).only(),
{
    let c = final(u).routes()[i].child_idx;
    assert(old(u).active().contains(c));
    if old(u).only() is Some {
        let a = old(u).active();
        let k = choose|k: int| 0 <= k < a.len() && a[k] == c;
        assert(k == 0);
    }
}

/// A restriction to a part that there is takes effect; one to a part that there
/// is not lifts it.
pub proof fn law_restriction<S: Source>(u: &mut UnionSource<S>, idx: Option<usize>)
    requires
        old(u).wf(),
        call_ensures(UnionSource::<S>::set_sub_filter, (u, idx), ()),
    ensures
        idx is Some && idx->0 < old(u).parts().len() ==> final(u).only() == idx,
        idx is None || idx->0 >= old(u).parts().len() ==> final(u).only() is None,
        final(u).routes() == old(u).routes(),
{
}

} // verus!
