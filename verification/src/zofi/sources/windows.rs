//! Open windows.

use vstd::prelude::*;
use vstd::string::*;

use std::sync::Arc;

use crate::numeral;
use crate::sorting;
use crate::text;
use crate::textmap::TextMap;
use crate::zofi::source;
use crate::zofi::source::ActivateOutcome;
use crate::zofi::source::Image;
use crate::zofi::source::Layout;
use crate::zofi::source::Preview;
use crate::zofi::source::PreviewChrome;
use crate::zofi::source::PreviewPill;
use crate::zofi::source::Row;
use crate::zofi::source::RowIcon;
use crate::zofi::source::Source;
use crate::zofi::sources::icon::IconResolver;
use crate::zofi::sources::union;
use crate::zofi::theme;
use crate::zofi::usage::UsageTracker;
use crate::zwindows::screencopy;
use crate::zwindows::screencopy::RgbaBuffer;
use crate::zwindows::ToplevelEvent;

verus! {

/// The name under which the use of windows is recorded.
pub const SOURCE_NAME: &'static str = "windows";

/// How much a window ranks above entries of other sources.
pub const BASE_WEIGHT: i32 = 100;

/// How much more the focused window does.
pub const ACTIVATED_BONUS: i32 = 10;

// ---------------------------------------------------------------------------
// Rows
// ---------------------------------------------------------------------------

/// One open window.
#[derive(Debug)]
pub struct WindowRow {
    pub id: u64,
    pub app_id: String,
    pub title: String,
    pub activated: bool,
    pub icon_data: Option<Arc<Image>>,
    pub app_id_lc: String,
    pub title_lc: String,
    pub search_key: String,
    pub display_label: String,
}

#[verifier::ext_equal]
pub struct RowView {
    pub id: u64,
    pub app_id: Seq<char>,
    pub title: Seq<char>,
    pub activated: bool,
    pub icon_data: Option<Arc<Image>>,
    pub app_id_lc: Seq<char>,
    pub title_lc: Seq<char>,
    pub search_key: Seq<char>,
    pub display_label: Seq<char>,
}

impl View for WindowRow {
    type V = RowView;

    open spec fn view(&self) -> RowView {
        RowView {
            id: self.id,
            app_id: self.app_id@,
            title: self.title@,
            activated: self.activated,
            icon_data: self.icon_data,
            app_id_lc: self.app_id_lc@,
            title_lc: self.title_lc@,
            search_key: self.search_key@,
            display_label: self.display_label@,
        }
    }
}

/// The row of a window: it is found by its application id and its title, and
/// shown by its title, or by its application id while it has none.
pub open spec fn row_of(
    id: u64,
    app_id: Seq<char>,
    title: Seq<char>,
    activated: bool,
    icon_data: Option<Arc<Image>>,
) -> RowView {
    RowView {
        id,
        app_id,
        title,
        activated,
        icon_data,
        app_id_lc: text::lowercase(app_id),
        title_lc: text::lowercase(title),
        search_key: text::lowercase(app_id) + " "@ + text::lowercase(title),
        display_label: if title.len() == 0 {
            app_id
        } else {
            title
        },
    }
}

impl WindowRow {
    /// The row of a window without an icon.
    pub fn build(id: u64, app_id: String, title: String, activated: bool) -> (r: Self)
        ensures
            r@ == row_of(id, app_id@, title@, activated, None),
    {
        let app_id_lc = text::to_lowercase(app_id.as_str());
        let title_lc = text::to_lowercase(title.as_str());
        let mut search_key = app_id_lc.clone();
        search_key.push_str(" ");
        search_key.push_str(title_lc.as_str());
        let display_label = if title.as_str().is_empty() {
            app_id.clone()
        } else {
            title.clone()
        };
        WindowRow {
            id,
            app_id,
            title,
            activated,
            icon_data: None,
            app_id_lc,
            title_lc,
            search_key,
            display_label,
        }
    }
}

/// Where the first row of a window stands.
pub open spec fn place_of(rows: Seq<RowView>, id: u64) -> Option<int>
    decreases rows.len(),
{
    if rows.len() == 0 {
        None
    } else {
        match place_of(rows.drop_last(), id) {
            Some(i) => Some(i),
            None => if rows.last().id == id {
                Some(rows.len() - 1)
            } else {
                None
            },
        }
    }
}

/// Rows after a window was described: a known window's row is replaced, but
/// keeps its icon where none was found now; a new window's row is added.
pub open spec fn described(rows: Seq<RowView>, row: RowView) -> Seq<RowView> {
    match place_of(rows, row.id) {
        Some(i) => rows.update(
            i,
            RowView {
                icon_data: match row.icon_data {
                    Some(icon) => Some(icon),
                    None => rows[i].icon_data,
                },
                ..row
            },
        ),
        None => rows.push(row),
    }
}

/// Rows after a window was closed.
pub open spec fn closed(rows: Seq<RowView>, id: u64) -> Seq<RowView> {
    rows.filter(|r: RowView| r.id != id)
}

/// An optional text, or nothing.
pub open spec fn text_or_empty(o: Option<String>) -> Seq<char> {
    match o {
        Some(s) => s@,
        None => Seq::empty(),
    }
}

/// Rows after an event; `icon` is the one found for the window.
pub open spec fn after_event(
    rows: Seq<RowView>,
    ev: ToplevelEvent,
    icon: Option<Arc<Image>>,
) -> Seq<RowView> {
    match ev {
        ToplevelEvent::Added(t) => described(
            rows,
            row_of(t.id, text_or_empty(t.app_id), text_or_empty(t.title), t.activated, icon),
        ),
        ToplevelEvent::Updated(t) => described(
            rows,
            row_of(t.id, text_or_empty(t.app_id), text_or_empty(t.title), t.activated, icon),
        ),
        ToplevelEvent::Removed(id) => closed(rows, id),
    }
}

/// The window activated last, after an event: it stays until another one is
/// activated or it closes. Zero stands for none.
pub open spec fn active_after(last: u64, ev: ToplevelEvent) -> u64 {
    match ev {
        ToplevelEvent::Added(t) => if t.activated {
            t.id
        } else {
            last
        },
        ToplevelEvent::Updated(t) => if t.activated {
            t.id
        } else {
            last
        },
        ToplevelEvent::Removed(id) => if last == id {
            0
        } else {
            last
        },
    }
}

proof fn lemma_place_of(rows: Seq<RowView>, id: u64)
    ensures
        match place_of(rows, id) {
            Some(i) => {
                &&& 0 <= i < rows.len()
                &&& rows[i].id == id
                &&& forall|k: int| 0 <= k < i ==> (#[trigger] rows[k]).id != id
            },
            None => forall|k: int| 0 <= k < rows.len() ==> (#[trigger] rows[k]).id != id,
        },
    decreases rows.len(),
{
    if rows.len() > 0 {
        let s = rows.drop_last();
        lemma_place_of(s, id);
        match place_of(s, id) {
            Some(i) => {
                assert(rows[i] == s[i]);
                assert forall|k: int| 0 <= k < i implies (#[trigger] rows[k]).id != id by {
                    assert(rows[k] == s[k]);
                }
            },
            None => {
                assert forall|k: int| 0 <= k < rows.len() - 1 implies (#[trigger] rows[k]).id
                    != id by {
                    assert(rows[k] == s[k]);
                }
            },
        }
    }
}

/// Merges the description of a window into the rows.
pub fn describe(items: &mut Vec<WindowRow>, row: WindowRow)
    ensures
        sorting::views(final(items)@) == described(sorting::views(old(items)@), row@),
{
    let ghost rows = sorting::views(items@);
    proof {
        lemma_place_of(rows, row.id);
    }
    let mut i: usize = 0;
    while i < items.len()
        invariant
            i <= items@.len(),
            rows == sorting::views(items@),
            *items == *old(items),
            forall|k: int| 0 <= k < i ==> (#[trigger] rows[k]).id != row.id,
            match place_of(rows, row.id) {
                Some(p) => {
                    &&& 0 <= p < rows.len()
                    &&& rows[p].id == row.id
                    &&& forall|k: int| 0 <= k < p ==> (#[trigger] rows[k]).id != row.id
                },
                None => forall|k: int| 0 <= k < rows.len() ==> (#[trigger] rows[k]).id != row.id,
            },
        decreases items.len() - i,
    {
        proof {
            assert(rows[i as int] == items@[i as int]@);
        }
        if items[i].id == row.id {
            let icon = match &row.icon_data {
                Some(img) => Some(Arc::clone(img)),
                None => match &items[i].icon_data {
                    Some(img) => Some(Arc::clone(img)),
                    None => None,
                },
            };
            let ghost want = RowView { icon_data: icon, ..row@ };
            let merged = WindowRow {
                id: row.id,
                app_id: row.app_id,
                title: row.title,
                activated: row.activated,
                icon_data: icon,
                app_id_lc: row.app_id_lc,
                title_lc: row.title_lc,
                search_key: row.search_key,
                display_label: row.display_label,
            };
            items.set(i, merged);
            proof {
                assert(place_of(rows, row.id) == Some(i as int));
                assert(sorting::views(items@) =~= rows.update(i as int, want));
            }
            return;
        }
        i = i + 1;
    }
    items.push(row);
    proof {
        assert(sorting::views(items@) =~= rows.push(row@));
    }
}

/// Drops the rows of a window.
pub fn forget(items: &mut Vec<WindowRow>, id: u64)
    ensures
        sorting::views(final(items)@) == closed(sorting::views(old(items)@), id),
{
    let ghost rows = sorting::views(items@);
    let ghost keep = |r: RowView| r.id != id;
    let mut back: Vec<WindowRow> = Vec::new();
    proof {
        assert(rows.take(rows.len() as int) =~= rows);
        assert(sorting::views(back@).reverse() =~= Seq::<RowView>::empty());
        assert(rows.filter(keep) + sorting::views(back@).reverse() =~= rows.filter(keep));
    }
    while items.len() > 0
        invariant
            keep == (|r: RowView| r.id != id),
            sorting::views(items@).filter(keep) + sorting::views(back@).reverse() == rows.filter(
                keep,
            ),
        decreases items.len(),
    {
        let ghost had = sorting::views(items@);
        let ghost put = sorting::views(back@);
        if let Some(row) = items.pop() {
            proof {
                reveal(Seq::filter);
                assert(had.drop_last() =~= sorting::views(items@));
                assert(had.last() == row@);
            }
            if row.id != id {
                back.push(row);
                proof {
                    assert(sorting::views(back@) =~= put.push(row@));
                    assert(had.filter(keep) + put.reverse() =~= sorting::views(items@).filter(keep)
                        + sorting::views(back@).reverse());
                }
            }
        }
    }
    proof {
        reveal(Seq::filter);
        assert(sorting::views(items@) =~= Seq::<RowView>::empty());
        assert(sorting::views(back@).reverse() =~= rows.filter(keep));
        assert(sorting::views(items@) + sorting::views(back@).reverse() =~= rows.filter(keep));
    }
    while back.len() > 0
        invariant
            sorting::views(items@) + sorting::views(back@).reverse() == rows.filter(keep),
        decreases back.len(),
    {
        let ghost had = sorting::views(items@);
        let ghost put = sorting::views(back@);
        if let Some(row) = back.pop() {
            items.push(row);
            proof {
                assert(sorting::views(items@) =~= had.push(row@));
                assert(put =~= sorting::views(back@).push(row@));
                assert(sorting::views(items@) + sorting::views(back@).reverse() =~= had
                    + put.reverse());
            }
        }
    }
    proof {
        assert(sorting::views(items@) =~= rows.filter(keep));
    }
}

/// Merges an event into the rows.
pub fn merge_event(
    items: &mut Vec<WindowRow>,
    ev: ToplevelEvent,
    icon: Option<Arc<Image>>,
    last_active: &mut u64,
)
    ensures
        sorting::views(final(items)@) == after_event(sorting::views(old(items)@), ev, icon),
        *final(last_active) == active_after(*old(last_active), ev),
{
    match ev {
        ToplevelEvent::Added(t) | ToplevelEvent::Updated(t) => {
            if t.activated {
                *last_active = t.id;
            }
            let app_id = match t.app_id {
                Some(s) => s,
                None => String::new(),
            };
            let title = match t.title {
                Some(s) => s,
                None => String::new(),
            };
            let mut row = WindowRow::build(t.id, app_id, title, t.activated);
            row.icon_data = icon;
            describe(items, row);
        },
        ToplevelEvent::Removed(id) => {
            forget(items, id);
            if *last_active == id {
                *last_active = 0;
            }
        },
    }
}

// ---------------------------------------------------------------------------
// Icons
// ---------------------------------------------------------------------------

/// Looks for the icon of an application, once: what was found, and that
/// nothing was, is remembered.
pub fn resolve_icon_memoised<R: IconResolver>(
    app_id: &str,
    resolver: &R,
    memo: &mut TextMap<Option<Arc<Image>>>,
) -> (r: Option<Arc<Image>>)
    requires
        old(memo).wf(),
    ensures
        final(memo).wf(),
        if app_id@.len() == 0 {
            r is None && final(memo)@ == old(memo)@
        } else if old(memo)@.contains_key(app_id@) {
            r == old(memo)@[app_id@] && final(memo)@ == old(memo)@
        } else {
            &&& call_ensures(R::resolve, (resolver, app_id), r)
            &&& final(memo)@ == old(memo)@.insert(app_id@, r)
        },
{
    if app_id.is_empty() {
        return None;
    }
    if let Some(known) = memo.get(app_id) {
        return match known {
            Some(icon) => Some(Arc::clone(icon)),
            None => None,
        };
    }
    let found = resolver.resolve(app_id);
    let kept = match &found {
        Some(icon) => Some(Arc::clone(icon)),
        None => None,
    };
    memo.insert(app_id.to_owned(), kept);
    found
}

/// The application id of the window that an event is about.
pub open spec fn subject(ev: ToplevelEvent) -> Seq<char> {
    match ev {
        ToplevelEvent::Added(t) => text_or_empty(t.app_id),
        ToplevelEvent::Updated(t) => text_or_empty(t.app_id),
        ToplevelEvent::Removed(_) => Seq::empty(),
    }
}

/// The application that an event is about; empty where it tells none.
pub fn subject_of(ev: &ToplevelEvent) -> (r: String)
    ensures
        r@ == subject(*ev),
{
    let app_id = match ev {
        ToplevelEvent::Added(t) | ToplevelEvent::Updated(t) => match &t.app_id {
            Some(s) => s.clone(),
            None => String::new(),
        },
        ToplevelEvent::Removed(_) => String::new(),
    };
    proof {
        assert(app_id@ =~= subject(*ev));
    }
    app_id
}

/// Merges an event into the rows, with the icon that `resolver` finds.
pub fn apply_event<R: IconResolver>(
    items: &mut Vec<WindowRow>,
    ev: ToplevelEvent,
    resolver: &R,
    memo: &mut TextMap<Option<Arc<Image>>>,
    last_active: &mut u64,
)
    requires
        old(memo).wf(),
    ensures
        final(memo).wf(),
        *final(last_active) == active_after(*old(last_active), ev),
        if subject(ev).len() == 0 {
            &&& final(memo)@ == old(memo)@
            &&& sorting::views(final(items)@) == after_event(
                sorting::views(old(items)@),
                ev,
                None,
            )
        } else if old(memo)@.contains_key(subject(ev)) {
            &&& final(memo)@ == old(memo)@
            &&& sorting::views(final(items)@) == after_event(
                sorting::views(old(items)@),
                ev,
                old(memo)@[subject(ev)],
            )
        } else {
            exists|icon: Option<Arc<Image>>, asked: &str|
                {
                    &&& asked@ == subject(ev)
                    &&& #[trigger] call_ensures(R::resolve, (resolver, asked), icon)
                    &&& final(memo)@ == old(memo)@.insert(subject(ev), icon)
                    &&& sorting::views(final(items)@) == after_event(
                        sorting::views(old(items)@),
                        ev,
                        icon,
                    )
                }
        },
{
    let app_id = subject_of(&ev);
    let asked = app_id.as_str();
    let icon = resolve_icon_memoised(asked, resolver, memo);
    merge_event(items, ev, icon, last_active);
    proof {
        if subject(ev).len() > 0 && !old(memo)@.contains_key(subject(ev)) {
            assert(call_ensures(R::resolve, (resolver, asked), icon));
        }
    }
}

// ---------------------------------------------------------------------------
// Thumbnails
// ---------------------------------------------------------------------------

/// Images of windows, by application id and title.
pub struct ThumbnailMap {
    entries: Vec<(String, String, Arc<Image>)>,
}

/// The last image of a window.
pub open spec fn last_image(
    v: Seq<(String, String, Arc<Image>)>,
    app_id: Seq<char>,
    title: Seq<char>,
) -> Option<Arc<Image>>
    decreases v.len(),
{
    if v.len() == 0 {
        None
    } else if v.last().0@ == app_id && v.last().1@ == title {
        Some(v.last().2)
    } else {
        last_image(v.drop_last(), app_id, title)
    }
}

impl ThumbnailMap {
    /// The image of a window.
    pub closed spec fn image(&self, app_id: Seq<char>, title: Seq<char>) -> Option<Arc<Image>> {
        last_image(self.entries@, app_id, title)
    }

    /// No images.
    pub fn new() -> (r: Self)
        ensures
            forall|a: Seq<char>, t: Seq<char>| #[trigger] r.image(a, t) is None,
    {
        ThumbnailMap { entries: Vec::new() }
    }

    /// Puts an image in, in place of the one that the window had.
    pub fn insert(&mut self, app_id: String, title: String, image: Arc<Image>)
        ensures
            forall|a: Seq<char>, t: Seq<char>| #[trigger]
                final(self).image(a, t) == (if a == app_id@ && t == title@ {
                    Some(image)
                } else {
                    old(self).image(a, t)
                }),
    {
        let ghost had = self.entries@;
        self.entries.push((app_id, title, image));
        proof {
            assert(self.entries@.drop_last() =~= had);
        }
    }

    /// The image of a window.
    pub fn get(&self, app_id: &str, title: &str) -> (r: Option<Arc<Image>>)
        ensures
            r == self.image(app_id@, title@),
    {
        let mut i: usize = self.entries.len();
        proof {
            assert(self.entries@.take(i as int) == self.entries@);
        }
        while i > 0
            invariant
                i <= self.entries@.len(),
                last_image(self.entries@, app_id@, title@) == last_image(
                    self.entries@.take(i as int),
                    app_id@,
                    title@,
                ),
            decreases i,
        {
            proof {
                assert(self.entries@.take(i as int).last() == self.entries@[i - 1]);
                assert(self.entries@.take(i as int).drop_last() == self.entries@.take(i - 1));
            }
            i = i - 1;
            if text::str_eq(self.entries[i].0.as_str(), app_id) && text::str_eq(
                self.entries[i].1.as_str(),
                title,
            ) {
                return Some(Arc::clone(&self.entries[i].2));
            }
        }
        None
    }
}

/// Encodes a captured window twice: as it is, and no larger than the preview.
pub fn encode_capture(buf: &RgbaBuffer) -> (r: (Option<Vec<u8>>, Option<Vec<u8>>))
    requires
        buf.wf(),
    ensures
        screencopy::bytes_of(r.0) == screencopy::png_image(buf.width, buf.height, buf.data@),
        exists|small: RgbaBuffer|
            {
                &&& #[trigger] call_ensures(
                    RgbaBuffer::downscale_to_box,
                    (buf, theme::PREVIEW_IMG_MAX_W, theme::PREVIEW_IMG_MAX_H),
                    small,
                )
                &&& screencopy::bytes_of(r.1) == screencopy::png_image(
                    small.width,
                    small.height,
                    small.data@,
                )
            },
{
    let full = buf.to_png();
    let small = buf.downscale_to_box(theme::PREVIEW_IMG_MAX_W, theme::PREVIEW_IMG_MAX_H);
    let shrunk = small.to_png();
    proof {
        assert(call_ensures(
            RgbaBuffer::downscale_to_box,
            (buf, theme::PREVIEW_IMG_MAX_W, theme::PREVIEW_IMG_MAX_H),
            small,
        ));
    }
    (full, shrunk)
}

// ---------------------------------------------------------------------------
// The source
// ---------------------------------------------------------------------------

/// Something that focuses a window.
pub trait ActivateWindow {
    /// Focuses the window with this id.
    fn activate(&self, id: u64);
}

/// The open windows.
pub struct WindowsSource<A: ActivateWindow + ?Sized = dyn ActivateWindow> {
    items: Vec<WindowRow>,
    activate_cb: Box<A>,
    tracker: Option<Arc<UsageTracker>>,
    thumbs: ThumbnailMap,
    full_thumbs: ThumbnailMap,
    last_active: u64,
    pre_focus: Option<(String, String)>,
}

/// The keys that windows are found by.
pub open spec fn search_keys(v: Seq<RowView>) -> Seq<Seq<char>> {
    v.map_values(|r: RowView| r.search_key)
}

/// How well a window matches: by the beginning of its application id, by the
/// beginning of its title, by its application id, by its title.
pub open spec fn score_of(r: RowView, q: Seq<char>) -> Option<i32> {
    if text::starts_with(r.app_id_lc, q) {
        Some(30)
    } else if text::starts_with(r.title_lc, q) {
        Some(20)
    } else if text::contains(r.app_id_lc, q) {
        Some(15)
    } else if text::contains(r.title_lc, q) {
        Some(10)
    } else {
        None
    }
}

/// The first `n` windows that match, with their scores.
pub open spec fn scored(v: Seq<RowView>, q: Seq<char>, n: int) -> Seq<(usize, i32)>
    decreases n,
{
    if n <= 0 {
        Seq::empty()
    } else {
        match score_of(v[n - 1], q) {
            Some(score) => scored(v, q, n - 1).push(((n - 1) as usize, score)),
            None => scored(v, q, n - 1),
        }
    }
}

/// How much a window ranks above entries of other sources.
pub open spec fn base_weight(activated: bool) -> i32 {
    if activated {
        110
    } else {
        100
    }
}

/// What the letter on a window's tile is: the first character of the
/// application id that is not white space, as a capital.
pub open spec fn initial(app_id: Seq<char>) -> Seq<char>
    decreases app_id.len(),
{
    if app_id.len() == 0 {
        seq!['?']
    } else if text::white_space(app_id[0]) {
        initial(app_id.skip(1))
    } else if text::uppercase(app_id[0]).len() > 0 {
        seq![text::uppercase(app_id[0])[0]]
    } else {
        seq![app_id[0]]
    }
}

fn initial_of(app_id: &str) -> (r: String)
    ensures
        r@ == initial(app_id@),
{
    let s = text::chars_of(app_id);
    let mut out = String::new();
    let mut i: usize = 0;
    proof {
        assert(s@.skip(0) == s@);
    }
    while i < s.len()
        invariant
            i <= s@.len(),
            s@ == app_id@,
            out@ == Seq::<char>::empty(),
            initial(s@) == initial(s@.skip(i as int)),
        decreases s.len() - i,
    {
        proof {
            assert(s@.skip(i as int)[0] == s@[i as int]);
            assert(s@.skip(i as int).skip(1) == s@.skip(i + 1));
        }
        if !text::is_white_space(s[i]) {
            let upper = text::chars_of(text::to_uppercase(s[i]).as_str());
            let c = if upper.len() > 0 {
                upper[0]
            } else {
                s[i]
            };
            out.push(c);
            proof {
                assert(out@ =~= seq![c]);
            }
            return out;
        }
        i = i + 1;
    }
    out.push('?');
    proof {
        assert(out@ =~= seq!['?']);
    }
    out
}

/// What is said of a window of which there is no image.
pub open spec fn description(r: RowView) -> Seq<char> {
    let head = if r.title.len() == 0 {
        Seq::<char>::empty()
    } else {
        r.title + "\n\n"@
    };
    head + "App ID\n"@ + r.app_id + "\n"@ + "\nState\n"@ + (if r.activated {
        "active"@
    } else {
        "background"@
    }) + "\n"@ + "\nWindow ID\n"@ + numeral::decimal(r.id as nat) + "\n"@
}

fn describe_row(r: &WindowRow) -> (s: String)
    ensures
        s@ == description(r@),
{
    let mut out = String::new();
    if !r.title.as_str().is_empty() {
        out.push_str(r.title.as_str());
        out.push_str("\n\n");
    }
    proof {
        let head = if r@.title.len() == 0 {
            Seq::<char>::empty()
        } else {
            r@.title + "\n\n"@
        };
        assert(out@ =~= head);
    }
    out.push_str("App ID\n");
    out.push_str(r.app_id.as_str());
    out.push_str("\n");
    out.push_str("\nState\n");
    out.push_str(
        if r.activated {
            "active"
        } else {
            "background"
        },
    );
    out.push_str("\n");
    out.push_str("\nWindow ID\n");
    numeral::push_decimal(&mut out, r.id);
    out.push_str("\n");
    out
}

impl<A: ActivateWindow + ?Sized> WindowsSource<A> {
    /// The windows listed.
    pub closed spec fn listed(&self) -> Seq<RowView> {
        sorting::views(self.items@)
    }

    /// Where uses are counted.
    pub closed spec fn uses(&self) -> Option<Arc<UsageTracker>> {
        self.tracker
    }

    /// The small image of a window.
    pub closed spec fn thumbnail(&self, r: RowView) -> Option<Arc<Image>> {
        self.thumbs.image(r.app_id, r.title)
    }

    /// The full-size image of a window.
    pub closed spec fn full_image(&self, r: RowView) -> Option<Arc<Image>> {
        self.full_thumbs.image(r.app_id, r.title)
    }

    /// The window activated last.
    pub closed spec fn last(&self) -> u64 {
        self.last_active
    }

    /// The window that was focused before the launcher took the focus.
    pub closed spec fn focused_before(&self) -> Option<(Seq<char>, Seq<char>)> {
        match self.pre_focus {
            Some((app, title)) => Some((app@, title@)),
            None => None,
        }
    }

    /// What focuses windows.
    pub closed spec fn focuses_by(&self) -> &A {
        &*self.activate_cb
    }

    /// Whether the user would come back to a window: to the one that was
    /// active last or, where none was seen active, to the one that had the
    /// focus before.
    pub open spec fn is_active(&self, r: RowView) -> bool {
        if self.last() != 0 {
            self.last() == r.id
        } else {
            self.focused_before() == Some((r.app_id, r.title))
        }
    }

    /// A source that lists `rows`.
    pub fn from_snapshot(rows: Vec<WindowRow>, activate_cb: Box<A>) -> (r: Self)
        ensures
            r.focuses_by() == &*activate_cb,
            r.listed() == sorting::views(rows@),
            r.uses() is None,
            r.last() == 0,
            r.focused_before() is None,
            forall|w: RowView| #[trigger] r.thumbnail(w) is None,
            forall|w: RowView| #[trigger] r.full_image(w) is None,
    {
        WindowsSource {
            items: rows,
            activate_cb,
            tracker: None,
            thumbs: ThumbnailMap::new(),
            full_thumbs: ThumbnailMap::new(),
            last_active: 0,
            pre_focus: None,
        }
    }

    /// The same source, counting uses.
    pub fn with_tracker(self, tracker: Arc<UsageTracker>) -> (r: Self)
        ensures
            r.focuses_by() == self.focuses_by(),
            r.uses() == Some(tracker),
            r.listed() == self.listed(),
            r.last() == self.last(),
            r.focused_before() == self.focused_before(),
            forall|w: RowView| #[trigger] r.thumbnail(w) == self.thumbnail(w),
            forall|w: RowView| #[trigger] r.full_image(w) == self.full_image(w),
    {
        let mut s = self;
        s.tracker = Some(tracker);
        s
    }

    /// The same source with other small images.
    pub fn with_thumbnails(self, thumbs: ThumbnailMap) -> (r: Self)
        ensures
            r.focuses_by() == self.focuses_by(),
            r.uses() == self.uses(),
            r.listed() == self.listed(),
            r.last() == self.last(),
            r.focused_before() == self.focused_before(),
            forall|w: RowView| #[trigger] r.thumbnail(w) == thumbs.image(w.app_id, w.title),
            forall|w: RowView| #[trigger] r.full_image(w) == self.full_image(w),
    {
        let mut s = self;
        s.thumbs = thumbs;
        s
    }

    /// The same source with other full-size images.
    pub fn with_full_thumbnails(self, full: ThumbnailMap) -> (r: Self)
        ensures
            r.focuses_by() == self.focuses_by(),
            r.uses() == self.uses(),
            r.listed() == self.listed(),
            r.last() == self.last(),
            r.focused_before() == self.focused_before(),
            forall|w: RowView| #[trigger] r.thumbnail(w) == self.thumbnail(w),
            forall|w: RowView| #[trigger] r.full_image(w) == full.image(w.app_id, w.title),
    {
        let mut s = self;
        s.full_thumbs = full;
        s
    }

    /// The same source, knowing what was focused before.
    pub fn with_pre_focus(self, pre_focus: Option<(String, String)>) -> (r: Self)
        ensures
            r.focuses_by() == self.focuses_by(),
            r.uses() == self.uses(),
            r.listed() == self.listed(),
            r.last() == self.last(),
            r.focused_before() == (match pre_focus {
                Some((app, title)) => Some((app@, title@)),
                None => None,
            }),
            forall|w: RowView| #[trigger] r.thumbnail(w) == self.thumbnail(w),
            forall|w: RowView| #[trigger] r.full_image(w) == self.full_image(w),
    {
        let mut s = self;
        s.pre_focus = pre_focus;
        s
    }

    /// Merges an event; `icon` is the one found for the window.
    pub fn merge(&mut self, ev: ToplevelEvent, icon: Option<Arc<Image>>)
        ensures
            final(self).focuses_by() == old(self).focuses_by(),
            final(self).listed() == after_event(old(self).listed(), ev, icon),
            final(self).last() == active_after(old(self).last(), ev),
            final(self).uses() == old(self).uses(),
            final(self).focused_before() == old(self).focused_before(),
            forall|w: RowView| #[trigger] final(self).thumbnail(w) == old(self).thumbnail(w),
            forall|w: RowView| #[trigger] final(self).full_image(w) == old(self).full_image(w),
    {
        merge_event(&mut self.items, ev, icon, &mut self.last_active);
    }

    /// The id of a listed window.
    pub fn target(&self, ix: usize) -> (r: Option<u64>)
        ensures
            r == (if ix < self.listed().len() {
                Some(self.listed()[ix as int].id)
            } else {
                None
            }),
    {
        if ix < self.items.len() {
            Some(self.items[ix].id)
        } else {
            None
        }
    }
}

impl<A: ActivateWindow + ?Sized> Source for WindowsSource<A> {
    fn name(&self) -> (r: &'static str)
        ensures
            r@ == "windows"@,
    {
        "windows"
    }

    fn icon(&self) -> (r: &'static str)
        ensures
            r@ == "\u{25f1}"@,
    {
        "\u{25f1}"
    }

    fn prefix(&self) -> (r: Option<char>)
        ensures
            r == Some('@'),
    {
        Some('@')
    }

    fn placeholder(&self) -> (r: &'static str)
        ensures
            r@ == "Search windows..."@,
    {
        "Search windows..."
    }

    fn empty_text(&self) -> (r: &'static str)
        ensures
            r@ == "No windows"@,
    {
        "No windows"
    }

    fn filter(&self, query: &str) -> (r: Vec<usize>)
        ensures
            r@ == (if query@.len() == 0 {
                source::all_indices(self.listed().len())
            } else {
                source::matching(
                    search_keys(self.listed()),
                    text::lowercase(query@),
                    self.listed().len() as int,
                )
            }),
    {
        if query.is_empty() {
            return source::indices(self.items.len());
        }
        let q = text::to_lowercase(query);
        let needle = text::chars_of(q.as_str());
        let ghost keys = search_keys(self.listed());
        let mut out: Vec<usize> = Vec::new();
        let mut i: usize = 0;
        while i < self.items.len()
            invariant
                i <= self.items@.len(),
                keys == search_keys(sorting::views(self.items@)),
                needle@ == text::lowercase(query@),
                out@ == source::matching(keys, needle@, i as int),
            decreases self.items.len() - i,
        {
            let key = text::chars_of(self.items[i].search_key.as_str());
            proof {
                assert(keys[i as int] == key@);
            }
            if text::occurs(key.as_slice(), needle.as_slice()) {
                out.push(i);
            }
            i = i + 1;
        }
        out
    }

    fn filter_scored(&self, query: &str) -> (r: Vec<(usize, i32)>)
        ensures
            if query@.len() == 0 {
                source::zero_scored(source::all_indices(self.listed().len()), r@)
            } else {
                r@ == scored(
                    self.listed(),
                    text::lowercase(query@),
                    self.listed().len() as int,
                )
            },
    {
        if query.is_empty() {
            let all = source::indices(self.items.len());
            return source::with_zero_scores(&all);
        }
        let q = text::to_lowercase(query);
        let ghost rows = self.listed();
        let mut out: Vec<(usize, i32)> = Vec::new();
        let mut i: usize = 0;
        while i < self.items.len()
            invariant
                i <= self.items@.len(),
                rows == sorting::views(self.items@),
                q@ == text::lowercase(query@),
                out@ == scored(rows, q@, i as int),
            decreases self.items.len() - i,
        {
            let row = &self.items[i];
            proof {
                assert(rows[i as int] == row@);
            }
            if text::str_starts_with(row.app_id_lc.as_str(), q.as_str()) {
                out.push((i, 30));
            } else if text::str_starts_with(row.title_lc.as_str(), q.as_str()) {
                out.push((i, 20));
            } else if text::str_contains(row.app_id_lc.as_str(), q.as_str()) {
                out.push((i, 15));
            } else if text::str_contains(row.title_lc.as_str(), q.as_str()) {
                out.push((i, 10));
            }
            i = i + 1;
        }
        out
    }

    fn weight(&self, ix: usize) -> (r: i32)
        ensures
            if ix >= self.listed().len() {
                r == 0
            } else {
                let w = self.listed()[ix as int];
                match self.uses() {
                    Some(t) => exists|bonus: i32, key: &str|
                        {
                            &&& key@ == w.app_id
                            &&& #[trigger] call_ensures(
                                UsageTracker::frecency_bonus,
                                (&*t, SOURCE_NAME, key),
                                bonus,
                            )
                            &&& r == union::total(base_weight(w.activated), bonus)
                        },
                    None => r == base_weight(w.activated),
                }
            },
    {
        if ix >= self.items.len() {
            return 0;
        }
        let row = &self.items[ix];
        let base: i32 = if row.activated {
            BASE_WEIGHT + ACTIVATED_BONUS
        } else {
            BASE_WEIGHT
        };
        match &self.tracker {
            Some(t) => {
                let key = row.app_id.as_str();
                let bonus = t.frecency_bonus(SOURCE_NAME, key);
                assert(call_ensures(UsageTracker::frecency_bonus, (&**t, SOURCE_NAME, key), bonus));
                union::saturating_total(base, bonus)
            },
            None => base,
        }
    }

    fn item_key(&self, ix: usize) -> (r: Option<String>)
        ensures
            text::opt(r) == (if ix < self.listed().len() && self.listed()[ix as int].app_id.len()
                > 0 {
                Some(self.listed()[ix as int].app_id)
            } else {
                None
            }),
    {
        if ix >= self.items.len() {
            return None;
        }
        let row = &self.items[ix];
        if row.app_id.as_str().is_empty() {
            return None;
        }
        Some(row.app_id.clone())
    }

    /// The row of a window; an empty one where there is none.
    fn render_item(&self, ix: usize, selected: bool) -> (r: Row)
        ensures
            r.gutter is None,
            r.selected == selected,
            if ix < self.listed().len() {
                let w = self.listed()[ix as int];
                &&& r.title@ == w.display_label
                &&& r.subtitle@ == w.app_id
                &&& match w.icon_data {
                    Some(img) => r.icon == RowIcon::Image(img),
                    None => r.icon matches RowIcon::Tile(s) && s@ == initial(w.app_id),
                }
            } else {
                &&& r.title@ == Seq::<char>::empty()
                &&& r.subtitle@ == Seq::<char>::empty()
                &&& r.icon matches RowIcon::Tile(s) && s@ == Seq::<char>::empty()
            },
    {
        if ix >= self.items.len() {
            return Row {
                gutter: None,
                icon: RowIcon::Tile(String::new()),
                title: String::new(),
                subtitle: String::new(),
                selected,
            };
        }
        let row = &self.items[ix];
        let icon = match &row.icon_data {
            Some(img) => RowIcon::Image(Arc::clone(img)),
            None => RowIcon::Tile(initial_of(row.app_id.as_str())),
        };
        Row {
            gutter: None,
            icon,
            title: row.display_label.clone(),
            subtitle: row.app_id.clone(),
            selected,
        }
    }

    /// Focuses a window, and leaves.
    fn activate(&self, ix: usize) -> (r: ActivateOutcome)
        ensures
            r == ActivateOutcome::Quit,
            ix < self.listed().len() ==> call_ensures(
                A::activate,
                (self.focuses_by(), self.listed()[ix as int].id),
                (),
            ),
    {
        if let Some(id) = self.target(ix) {
            self.activate_cb.activate(id);
        }
        ActivateOutcome::Quit
    }

    fn layout(&self) -> (r: Layout)
        ensures
            r == Layout::ListAndPreview,
    {
        Layout::ListAndPreview
    }

    fn peek_image(&self, ix: usize) -> (r: Option<Arc<Image>>)
        ensures
            r == (if ix < self.listed().len() {
                self.full_image(self.listed()[ix as int])
            } else {
                None
            }),
    {
        if ix >= self.items.len() {
            return None;
        }
        let row = &self.items[ix];
        self.full_thumbs.get(row.app_id.as_str(), row.title.as_str())
    }

    fn can_peek(&self) -> (r: bool)
        ensures
            r,
    {
        true
    }

    fn copy_image_bytes(&self, ix: usize) -> (r: Option<Arc<Vec<u8>>>)
        ensures
            if ix < self.listed().len() {
                match (r, self.full_image(self.listed()[ix as int])) {
                    (Some(b), Some(img)) => b@ == img.bytes@,
                    (None, None) => true,
                    _ => false,
                }
            } else {
                r is None
            },
    {
        if ix >= self.items.len() {
            return None;
        }
        let row = &self.items[ix];
        match self.full_thumbs.get(row.app_id.as_str(), row.title.as_str()) {
            Some(img) => Some(Arc::new(vstd::slice::slice_to_vec(img.bytes.as_slice()))),
            None => None,
        }
    }

    fn can_copy_image(&self) -> (r: bool)
        ensures
            r,
    {
        true
    }

    fn preview_chrome(&self, ix: usize) -> (r: Option<PreviewChrome>)
        ensures
            if ix < self.listed().len() {
                let w = self.listed()[ix as int];
                r matches Some(c) && {
                    &&& c.title@ == w.display_label
                    &&& if self.is_active(w) {
                        c.pills@.len() == 1 && c.pills@[0].text@ == "active"@ && c.pills@[0].active
                    } else {
                        c.pills@.len() == 0
                    }
                    &&& c.metadata@.len() == 2
                    &&& c.metadata@[0].0@ == "App"@
                    &&& c.metadata@[0].1@ == w.app_id
                    &&& c.metadata@[1].0@ == "ID"@
                    &&& c.metadata@[1].1@ == "0x"@ + numeral::hexadecimal(w.id as nat)
                }
            } else {
                r is None
            },
    {
        if ix >= self.items.len() {
            return None;
        }
        let row = &self.items[ix];
        let before = match &self.pre_focus {
            Some((app, title)) => text::str_eq(app.as_str(), row.app_id.as_str())
                && text::str_eq(title.as_str(), row.title.as_str()),
            None => false,
        };
        let mut pills: Vec<PreviewPill> = Vec::new();
        let active = if self.last_active != 0 {
            self.last_active == row.id
        } else {
            before
        };
        if active {
            pills.push(PreviewPill { text: "active".to_owned(), active: true });
        }
        let mut id = "0x".to_owned();
        numeral::push_hexadecimal(&mut id, row.id);
        let mut metadata: Vec<(String, String)> = Vec::new();
        metadata.push(("App".to_owned(), row.app_id.clone()));
        metadata.push(("ID".to_owned(), id));
        Some(PreviewChrome { title: row.display_label.clone(), pills, metadata })
    }

    fn preview(&self, ix: usize) -> (r: Option<Preview>)
        ensures
            if ix < self.listed().len() {
                let w = self.listed()[ix as int];
                match self.thumbnail(w) {
                    Some(img) => r == Some(Preview::Image(img)),
                    None => r matches Some(Preview::Text(t)) && t@ == description(w),
                }
            } else {
                r is None
            },
    {
        if ix >= self.items.len() {
            return None;
        }
        let row = &self.items[ix];
        match self.thumbs.get(row.app_id.as_str(), row.title.as_str()) {
            Some(img) => Some(Preview::Image(img)),
            None => Some(Preview::Text(describe_row(row))),
        }
    }
}

// ---------------------------------------------------------------------------
// Laws
// ---------------------------------------------------------------------------

/// Whether every window has one row.
pub open spec fn one_row_each(rows: Seq<RowView>) -> bool {
    forall|i: int, j: int|
        0 <= i < rows.len() && 0 <= j < rows.len() && (#[trigger] rows[i]).id == (
        #[trigger] rows[j]).id ==> i == j
}

/// Whatever happens to windows, each one has at most one row.
pub proof fn law_events_keep_one_row_each(
    rows: Seq<RowView>,
    ev: ToplevelEvent,
    icon: Option<Arc<Image>>,
)
    requires
        one_row_each(rows),
    ensures
        one_row_each(after_event(rows, ev, icon)),
{
    match ev {
        ToplevelEvent::Added(t) => {
            lemma_described(
                rows,
                row_of(t.id, text_or_empty(t.app_id), text_or_empty(t.title), t.activated, icon),
            );
        },
        ToplevelEvent::Updated(t) => {
            lemma_described(
                rows,
                row_of(t.id, text_or_empty(t.app_id), text_or_empty(t.title), t.activated, icon),
            );
        },
        ToplevelEvent::Removed(id) => {
            lemma_closed(rows, id);
        },
    }
}

/// A closed window has no row.
pub proof fn law_closed_window_has_no_row(rows: Seq<RowView>, id: u64)
    ensures
        forall|i: int| 0 <= i < closed(rows, id).len() ==> (#[trigger] closed(rows, id)[i]).id != id,
{
    broadcast use vstd::seq_lib::group_filter_ensures;

    let keep = |r: RowView| r.id != id;
    assert forall|i: int| 0 <= i < closed(rows, id).len() implies (#[trigger] closed(
        rows,
        id,
    )[i]).id != id by {
        assert(keep(rows.filter(keep)[i]));
    }
}

proof fn lemma_described(rows: Seq<RowView>, row: RowView)
    requires
        one_row_each(rows),
    ensures
        one_row_each(described(rows, row)),
{
    lemma_place_of(rows, row.id);
    let after = described(rows, row);
    assert forall|i: int, j: int|
        0 <= i < after.len() && 0 <= j < after.len() && (#[trigger] after[i]).id == (
        #[trigger] after[j]).id implies i == j by {
        match place_of(rows, row.id) {
            Some(p) => {
                assert(rows[i].id == after[i].id);
                assert(rows[j].id == after[j].id);
            },
            None => {
                if i < rows.len() {
                    assert(after[i] == rows[i]);
                }
                if j < rows.len() {
                    assert(after[j] == rows[j]);
                }
            },
        }
    }
}

proof fn lemma_closed(rows: Seq<RowView>, id: u64)
    requires
        one_row_each(rows),
    ensures
        one_row_each(closed(rows, id)),
        forall|r: RowView| #[trigger] closed(rows, id).contains(r) ==> rows.contains(r),
    decreases rows.len(),
{
    reveal(Seq::filter);
    let keep = |r: RowView| r.id != id;
    if rows.len() > 0 {
        let s = rows.drop_last();
        assert forall|i: int, j: int|
            0 <= i < s.len() && 0 <= j < s.len() && (#[trigger] s[i]).id == (
            #[trigger] s[j]).id implies i == j by {
            assert(rows[i] == s[i] && rows[j] == s[j]);
        }
        lemma_closed(s, id);
        let rest = closed(s, id);
        let all = closed(rows, id);
        assert forall|r: RowView| #[trigger] all.contains(r) implies rows.contains(r) by {
            let k = choose|k: int| 0 <= k < all.len() && all[k] == r;
            if k < rest.len() {
                assert(rest[k] == r);
                assert(rest.contains(r));
                let m = choose|m: int| 0 <= m < s.len() && s[m] == r;
                assert(rows[m] == r);
            } else {
                assert(rows[rows.len() - 1] == r);
            }
        }
        assert forall|i: int, j: int|
            0 <= i < all.len() && 0 <= j < all.len() && (#[trigger] all[i]).id == (
            #[trigger] all[j]).id implies i == j by {
            if i < rest.len() && j < rest.len() {
                assert(rest[i] == all[i] && rest[j] == all[j]);
            } else if i < rest.len() {
                assert(rest[i] == all[i]);
                assert(rest.contains(rest[i]));
                let m = choose|m: int| 0 <= m < s.len() && s[m] == rest[i];
                assert(rows[m].id == rows[rows.len() - 1].id);
            } else if j < rest.len() {
                assert(rest[j] == all[j]);
                assert(rest.contains(rest[j]));
                let m = choose|m: int| 0 <= m < s.len() && s[m] == rest[j];
                assert(rows[m].id == rows[rows.len() - 1].id);
            }
        }
    }
}

proof fn lemma_closed_holds(rows: Seq<RowView>, id: u64)
    ensures
        forall|r: RowView| #[trigger]
            closed(rows, id).contains(r) <==> r.id != id && rows.contains(r),
    decreases rows.len(),
{
    reveal(Seq::filter);
    if rows.len() > 0 {
        let t = rows.drop_last();
        lemma_closed_holds(t, id);
        assert(t.push(rows.last()) =~= rows);
        sorting::lemma_push_holds(t, rows.last());
        sorting::lemma_push_holds(closed(t, id), rows.last());
    }
}

/// When a window comes or changes, its row says what is known of it now, and
/// keeps its place and, if no new one is given, its icon; a window without a
/// row gets one at the end. When a window goes, its row goes. No other row
/// changes.
pub proof fn law_rows_follow_the_windows(
    rows: Seq<RowView>,
    ev: ToplevelEvent,
    icon: Option<Arc<Image>>,
    k: int,
)
    requires
        one_row_each(rows),
    ensures
        match ev {
            ToplevelEvent::Removed(id) => forall|r: RowView| #[trigger]
                after_event(rows, ev, icon).contains(r) <==> r.id != id && rows.contains(r),
            ToplevelEvent::Added(t) => true,
            ToplevelEvent::Updated(t) => after_event(rows, ev, icon) == after_event(
                rows,
                ToplevelEvent::Added(t),
                icon,
            ),
        },
        match ev {
            ToplevelEvent::Added(t) => {
                let n = after_event(rows, ev, icon);
                &&& 0 <= k < rows.len() && rows[k].id != t.id ==> n[k] == rows[k]
                &&& 0 <= k < rows.len() && rows[k].id == t.id ==> {
                    &&& n.len() == rows.len()
                    &&& n[k].id == t.id
                    &&& n[k].activated == t.activated
                    &&& t.app_id is Some ==> n[k].app_id == t.app_id->0@
                    &&& t.app_id is None ==> n[k].app_id.len() == 0
                    &&& t.title is Some ==> n[k].title == t.title->0@
                    &&& t.title is None ==> n[k].title.len() == 0
                    &&& n[k].icon_data == (if icon is Some {
                        icon
                    } else {
                        rows[k].icon_data
                    })
                }
                &&& (forall|j: int| 0 <= j < rows.len() ==> (#[trigger] rows[j]).id != t.id) ==> {
                    &&& n.len() == rows.len() + 1
                    &&& n.last().id == t.id
                    &&& n.last().activated == t.activated
                    &&& t.app_id is Some ==> n.last().app_id == t.app_id->0@
                    &&& t.title is Some ==> n.last().title == t.title->0@
                    &&& n.last().icon_data == icon
                }
            },
            _ => true,
        },
{
    match ev {
        ToplevelEvent::Removed(id) => {
            lemma_closed_holds(rows, id);
        },
        ToplevelEvent::Added(t) => {
            lemma_place_of(rows, t.id);
        },
        ToplevelEvent::Updated(t) => {},
    }
}

/// A row is found under its application's name and its title in lower case, and
/// is shown by its title, or by the application's name if it has none.
pub proof fn law_row_names(
    id: u64,
    app_id: Seq<char>,
    title: Seq<char>,
    activated: bool,
    icon: Option<Arc<Image>>,
)
    ensures
        ({
            let r = row_of(id, app_id, title, activated, icon);
            &&& r.id == id && r.app_id == app_id && r.title == title && r.activated == activated
                && r.icon_data == icon
            &&& r.app_id_lc == text::lowercase(app_id)
            &&& r.title_lc == text::lowercase(title)
            &&& r.search_key == text::lowercase(app_id) + seq![' '] + text::lowercase(title)
            &&& title.len() > 0 ==> r.display_label == title
            &&& title.len() == 0 ==> r.display_label == app_id
        }),
{
    reveal_strlit(" ");
    assert(" "@ =~= seq![' ']);
}

/// The window that was active last is the one last said to be; closing it
/// leaves none.
pub proof fn law_last_active_window(last: u64, ev: ToplevelEvent)
    ensures
        match ev {
            ToplevelEvent::Removed(id) => active_after(last, ev) == (if id == last {
                0
            } else {
                last
            }),
            ToplevelEvent::Added(t) => active_after(last, ev) == (if t.activated {
                t.id
            } else {
                last
            }),
            ToplevelEvent::Updated(t) => active_after(last, ev) == (if t.activated {
                t.id
            } else {
                last
            }),
        },
{
}

/// The picture of a window is the last one kept for its application and title.
pub proof fn law_last_picture_counts(
    v: Seq<(String, String, Arc<Image>)>,
    app_id: Seq<char>,
    title: Seq<char>,
    k: int,
)
    ensures
        0 <= k < v.len() && v[k].0@ == app_id && v[k].1@ == title && (forall|j: int|
            k < j < v.len() ==> !((#[trigger] v[j]).0@ == app_id && v[j].1@ == title))
            ==> last_image(v, app_id, title) == Some(v[k].2),
        last_image(v, app_id, title) is None && 0 <= k < v.len() ==> !(v[k].0@ == app_id && v[k].1@
            == title),
    decreases v.len(),
{
    if v.len() > 0 && 0 <= k < v.len() - 1 {
        let t = v.drop_last();
        assert(t[k] == v[k]);
        if forall|j: int|
            k < j < v.len() ==> !((#[trigger] v[j]).0@ == app_id && v[j].1@ == title) {
            assert(!(v[v.len() - 1].0@ == app_id && v[v.len() - 1].1@ == title));
            assert forall|j: int| k < j < t.len() implies !((#[trigger] t[j]).0@ == app_id
                && t[j].1@ == title) by {
                assert(t[j] == v[j]);
            }
        }
        law_last_picture_counts(t, app_id, title, k);
    }
}

/// A window is found by its application's name or by its title: best if the
/// application's name begins with what was typed, then if the title does, then
/// if the name contains it, then if the title does; and not at all otherwise.
pub proof fn law_window_scores(r: RowView, q: Seq<char>)
    ensures
        q.is_prefix_of(r.app_id_lc) ==> score_of(r, q) == Some(30i32),
        !q.is_prefix_of(r.app_id_lc) && q.is_prefix_of(r.title_lc) ==> score_of(r, q) == Some(
            20i32,
        ),
        !q.is_prefix_of(r.app_id_lc) && !q.is_prefix_of(r.title_lc) && text::contains(
            r.app_id_lc,
            q,
        ) ==> score_of(r, q) == Some(15i32),
        !q.is_prefix_of(r.title_lc) && !text::contains(r.app_id_lc, q) && text::contains(
            r.title_lc,
            q,
        ) ==> score_of(r, q) == Some(10i32),
        score_of(r, q) is None <==> !text::contains(r.app_id_lc, q) && !text::contains(
            r.title_lc,
            q,
        ),
{
    text::law_places_of_a_text(r.app_id_lc, q);
    text::law_places_of_a_text(r.title_lc, q);
    assert(text::starts_with(r.app_id_lc, q) ==> text::occurs_at(r.app_id_lc, q, 0));
    assert(text::starts_with(r.title_lc, q) ==> text::occurs_at(r.title_lc, q, 0));
}

/// The hits are exactly the rows that have a score, each with it, in the order
/// of the rows.
pub proof fn law_hits_are_the_scored_rows(v: Seq<RowView>, q: Seq<char>, n: int)
    requires
        0 <= n <= v.len() <= usize::MAX,
    ensures
        forall|h: (usize, i32)| #[trigger]
            scored(v, q, n).contains(h) <==> h.0 < n && score_of(v[h.0 as int], q) == Some(h.1),
        forall|i: int, j: int|
            0 <= i < j < scored(v, q, n).len() ==> (#[trigger] scored(v, q, n)[i]).0 < (
            #[trigger] scored(v, q, n)[j]).0,
    decreases n,
{
    if n > 0 {
        law_hits_are_the_scored_rows(v, q, n - 1);
        let rest = scored(v, q, n - 1);
        if let Some(s) = score_of(v[n - 1], q) {
            let h = ((n - 1) as usize, s);
            sorting::lemma_push_holds(rest, h);
            assert forall|i: int| 0 <= i < rest.len() implies (#[trigger] rest[i]).0 < n - 1 by {
                assert(rest.contains(rest[i]));
            }
        }
    }
}

/// When a window comes or changes, the list holds it as it is now, and no other
/// entry changes; when it goes, its entry goes.
pub proof fn law_merged_windows(
    items: &mut Vec<WindowRow>,
    ev: ToplevelEvent,
    icon: Option<Arc<Image>>,
    last_active: &mut u64,
    k: int,
)
    requires
        call_ensures(merge_event, (items, ev, icon, last_active), ()),
        one_row_each(sorting::views(old(items)@)),
        0 <= k < old(items)@.len(),
    ensures
        match ev {
            ToplevelEvent::Removed(id) => {
                &&& old(items)@[k].id != id ==> exists|j: int|
                    0 <= j < final(items)@.len() && (#[trigger] final(items)@[j])@ == old(
                        items,
                    )@[k]@
                &&& forall|j: int|
                    0 <= j < final(items)@.len() ==> (#[trigger] final(items)@[j]).id != id
                &&& *old(last_active) == id ==> *final(last_active) == 0
            },
            ToplevelEvent::Updated(t) => {
                &&& k < final(items)@.len()
                &&& old(items)@[k].id != t.id ==> final(items)@[k]@ == old(items)@[k]@
                &&& old(items)@[k].id == t.id ==> final(items)@[k].id == t.id
                    && final(items)@[k].activated == t.activated && (t.title is Some ==> final(items)@[k].title@ == t.title->0@) && (t.app_id is Some ==> final(items)@[k].app_id@
                    == t.app_id->0@)
                &&& t.activated ==> *final(last_active) == t.id
                &&& !t.activated ==> *final(last_active) == *old(last_active)
            },
            ToplevelEvent::Added(t) => true,
        },
{
    let v = sorting::views(old(items)@);
    let n = sorting::views(final(items)@);
    assert(v[k] == old(items)@[k]@);
    assert(n.len() == final(items)@.len());
    match ev {
        ToplevelEvent::Removed(id) => {
            law_rows_follow_the_windows(v, ev, icon, k);
            if v[k].id != id {
                assert(v.contains(v[k]));
                assert(n.contains(v[k]));
                let j = choose|j: int| 0 <= j < n.len() && n[j] == v[k];
                assert(final(items)@[j]@ == n[j]);
            }
            assert forall|j: int| 0 <= j < final(items)@.len() implies (
            #[trigger] final(items)@[j]).id != id by {
                assert(n[j] == final(items)@[j]@);
                assert(n.contains(n[j]));
            }
        },
        ToplevelEvent::Updated(t) => {
            law_rows_follow_the_windows(v, ev, icon, k);
            law_rows_follow_the_windows(v, ToplevelEvent::Added(t), icon, k);
            lemma_place_of(v, t.id);
            assert(k < n.len());
            assert(n[k] == final(items)@[k]@);
        },
        ToplevelEvent::Added(t) => {},
    }
}

} // verus!
