//! What the launcher draws.

use vstd::prelude::*;
use vstd::string::*;

use std::sync::Arc;

use crate::numeral;
use crate::text;
use crate::zofi::bar;
use crate::zofi::bar::BarSlot;
use crate::zofi::launcher::LeftPane;
use crate::zofi::launcher::Launcher;
use crate::zofi::source::Image;
use crate::zofi::source::InspectorCard;
use crate::zofi::source::Layout;
use crate::zofi::source::Preview;
use crate::zofi::source::PreviewChrome;
use crate::zofi::source::Row;
use crate::zofi::source::Source;
use crate::zofi::source::SourceMeta;
use crate::zofi::theme;

verus! {

/// How many lines of a text its preview shows.
pub const PREVIEW_TEXT_MAX_LINES: usize = 200;

// ---------------------------------------------------------------------------
// Texts
// ---------------------------------------------------------------------------

/// Lines with line feeds between them.
pub open spec fn joined_lines(lines: Seq<Seq<char>>) -> Seq<char>
    decreases lines.len(),
{
    if lines.len() == 0 {
        Seq::empty()
    } else if lines.len() == 1 {
        lines[0]
    } else {
        joined_lines(lines.drop_last()) + seq!['\n'] + lines.last()
    }
}

/// The first `n` lines of `s`, or all of them.
pub open spec fn head_of(s: Seq<char>, n: int) -> Seq<char> {
    let lines = text::lines(s);
    joined_lines(lines.take(if lines.len() < n {
        lines.len() as int
    } else {
        n
    }))
}

/// The first `n` lines of a text, or all of them.
pub fn head(s: &str, n: usize) -> (r: String)
    ensures
        r@ == head_of(s@, n as int),
{
    let chars = text::chars_of(s);
    let lines = text::split_lines(chars.as_slice());
    let ghost all = lines@.map_values(|l: Vec<char>| l@);
    let mut out: Vec<char> = Vec::new();
    let mut i: usize = 0;
    proof {
        assert(all.take(0) =~= Seq::<Seq<char>>::empty());
    }
    while i < lines.len() && i < n
        invariant
            i <= lines@.len(),
            i <= n,
            all == lines@.map_values(|l: Vec<char>| l@),
            out@ == joined_lines(all.take(i as int)),
        decreases lines.len() - i,
    {
        proof {
            assert(all.take(i + 1).drop_last() =~= all.take(i as int));
            assert(all.take(i + 1).last() == lines@[i as int]@);
        }
        if i > 0 {
            out.push('\n');
        }
        text::push_all(&mut out, lines[i].as_slice());
        proof {
            if i == 0 {
                assert(out@ =~= lines@[0]@);
                assert(all.take(1)[0] == lines@[0]@);
            } else {
                assert(out@ =~= joined_lines(all.take(i as int)) + seq!['\n'] + lines@[i as int]@);
            }
        }
        i = i + 1;
    }
    text::string_of(out.as_slice())
}

/// A representation in the list, marked where it is the default one.
pub fn mime_label(mime: &str, primary: bool) -> (r: String)
    ensures
        r@ == (if primary {
            "● "@ + mime@
        } else {
            "  "@ + mime@
        }),
{
    if primary {
        text::concat2("● ", mime)
    } else {
        text::concat2("  ", mime)
    }
}

/// The size of the panel.
pub fn panel_size(layout: Layout) -> (r: (u32, u32))
    ensures
        r == (match layout {
            Layout::List => (theme::PANEL_W, theme::PANEL_H),
            Layout::ListAndPreview => (
                (theme::SPLIT_LIST_W + theme::SPLIT_PREVIEW_W) as u32,
                theme::SPLIT_PANEL_H,
            ),
        }),
{
    match layout {
        Layout::List => (theme::PANEL_W, theme::PANEL_H),
        Layout::ListAndPreview => (
            theme::SPLIT_LIST_W + theme::SPLIT_PREVIEW_W,
            theme::SPLIT_PANEL_H,
        ),
    }
}

/// A key that does something, in the bottom bar.
#[derive(Debug)]
pub struct KeyHint {
    pub label: &'static str,
    pub keys: Vec<&'static str>,
    /// Whether it is the dominant one.
    pub primary: bool,
}

/// What a key hint says.
pub open spec fn hint_view(h: KeyHint) -> (Seq<char>, Seq<Seq<char>>, bool) {
    (h.label@, h.keys@.map_values(|k: &'static str| k@), h.primary)
}

/// The key hints of a launcher.
pub open spec fn key_hints_for(
    pane: LeftPane,
    peeks: bool,
    copies: bool,
) -> Seq<(Seq<char>, Seq<Seq<char>>, bool)> {
    let tab = match pane {
        LeftPane::Items => "Mimes"@,
        LeftPane::Mimes => "Items"@,
    };
    let first = seq![
        (tab, seq!["tab"@], false),
        ("Source"@, seq!["ctrl"@, "tab"@], false),
    ];
    let peek = if peeks {
        seq![("Peek"@, seq!["space"@], false)]
    } else {
        Seq::empty()
    };
    let copy = if copies {
        seq![("Copy"@, seq!["⌃C"@], false)]
    } else {
        Seq::empty()
    };
    let last = seq![("Close"@, seq!["esc"@], false), ("Activate"@, seq!["↵"@], true)];
    first + peek + copy + last
}

fn hint(label: &'static str, key: &'static str, primary: bool) -> (r: KeyHint)
    ensures
        hint_view(r) == (label@, seq![key@], primary),
{
    let mut keys: Vec<&'static str> = Vec::new();
    keys.push(key);
    let r = KeyHint { label, keys, primary };
    proof {
        assert(hint_view(r).1 =~= seq![key@]);
    }
    r
}

/// Lists the key hints of a launcher.
pub fn key_hints(pane: LeftPane, peeks: bool, copies: bool) -> (r: Vec<KeyHint>)
    ensures
        r@.map_values(|h: KeyHint| hint_view(h)) == key_hints_for(pane, peeks, copies),
{
    let mut out: Vec<KeyHint> = Vec::new();
    out.push(
        hint(
            match pane {
                LeftPane::Items => "Mimes",
                LeftPane::Mimes => "Items",
            },
            "tab",
            false,
        ),
    );
    let mut keys: Vec<&'static str> = Vec::new();
    keys.push("ctrl");
    keys.push("tab");
    proof {
        assert(keys@.map_values(|k: &'static str| k@) =~= seq!["ctrl"@, "tab"@]);
    }
    out.push(KeyHint { label: "Source", keys, primary: false });
    if peeks {
        out.push(hint("Peek", "space", false));
    }
    if copies {
        out.push(hint("Copy", "⌃C", false));
    }
    out.push(hint("Close", "esc", false));
    out.push(hint("Activate", "↵", true));
    proof {
        assert(out@.map_values(|h: KeyHint| hint_view(h)) =~= key_hints_for(pane, peeks, copies));
    }
    out
}

// ---------------------------------------------------------------------------
// Preview
// ---------------------------------------------------------------------------

/// What the preview shows.
#[derive(Debug)]
pub enum PreviewBody {
    Text(String),
    Code { text: String, lang: String },
    Image(Arc<Image>),
    Inspector(InspectorCard),
    /// That there is nothing to show.
    Nothing,
}

/// What a preview comes down to when it is drawn.
pub open spec fn drawn_as(preview: Option<Preview>, body: PreviewBody) -> bool {
    match preview {
        Some(Preview::Text(s)) => body matches PreviewBody::Text(t) && t@ == head_of(
            s@,
            PREVIEW_TEXT_MAX_LINES as int,
        ),
        Some(Preview::Code { text, lang }) => body matches PreviewBody::Code { text: t, lang: l }
            && t@ == head_of(text@, PREVIEW_TEXT_MAX_LINES as int) && l@ == lang@,
        Some(Preview::Image(image)) => body == PreviewBody::Image(image),
        Some(Preview::Inspector(card)) => body == PreviewBody::Inspector(card),
        None => body is Nothing,
    }
}

/// Cuts a preview down to what is drawn.
pub fn preview_body(preview: Option<Preview>) -> (r: PreviewBody)
    ensures
        drawn_as(preview, r),
{
    match preview {
        Some(Preview::Text(s)) => PreviewBody::Text(head(s.as_str(), PREVIEW_TEXT_MAX_LINES)),
        Some(Preview::Code { text, lang }) => PreviewBody::Code {
            text: head(text.as_str(), PREVIEW_TEXT_MAX_LINES),
            lang,
        },
        Some(Preview::Image(image)) => PreviewBody::Image(image),
        Some(Preview::Inspector(card)) => PreviewBody::Inspector(card),
        None => PreviewBody::Nothing,
    }
}

/// The preview of what is selected, and what surrounds it.
#[derive(Debug)]
pub struct PreviewPane {
    pub chrome: Option<PreviewChrome>,
    pub body: PreviewBody,
}

/// Whether names and values are shown below a preview.
pub fn has_footer(chrome: &Option<PreviewChrome>) -> (r: bool)
    ensures
        r == (chrome matches Some(c) && c.metadata@.len() > 0),
{
    match chrome {
        Some(c) => c.metadata.len() > 0,
        None => false,
    }
}

/// What the left column shows.
#[derive(Debug)]
pub enum ListContent {
    /// So many entries.
    Entries(usize),
    /// That there are none.
    Empty(&'static str),
    /// So many representations.
    Mimes(usize),
}

/// One representation in the list.
#[derive(Debug)]
pub struct MimeRow {
    pub label: String,
    pub selected: bool,
}

/// The full-size image of what is selected, and what is said of it.
#[derive(Debug)]
pub struct Peek {
    pub image: Option<Arc<Image>>,
    pub status: String,
}

impl<S: Source + ?Sized> Launcher<S> {
    /// What is said about the last action.
    pub fn message(&self) -> (r: Option<&str>)
        ensures
            text::opt_str(r) == self@.toast,
    {
        match &self.toast {
            Some(said) => Some(said.as_str()),
            None => None,
        }
    }

    /// Whether the full-size image is shown.
    pub fn is_peeking(&self) -> (r: bool)
        ensures
            r == self@.peek_active,
    {
        self.peek_active
    }

    /// Where the cursor is in the list.
    pub fn position(&self) -> (r: String)
        requires
            self.wf(),
        ensures
            r@ == (if self@.filtered.len() > 0 {
                numeral::decimal((self@.item + 1) as nat) + "/"@ + numeral::decimal(
                    self@.filtered.len(),
                )
            } else {
                "0/0"@
            }),
    {
        let count: usize = self.filtered.len();
        if count > 0 {
            let mut out = numeral::decimal_string((self.items.selected + 1) as u64);
            out.push_str("/");
            numeral::push_decimal(&mut out, count as u64);
            out
        } else {
            "0/0".to_owned()
        }
    }

    /// What the left column shows.
    pub fn list_content(&self) -> (r: ListContent)
        requires
            self.wf(),
        ensures
            match self@.left_pane {
                LeftPane::Mimes => r == ListContent::Mimes(self@.mimes.len() as usize),
                LeftPane::Items => if self@.filtered.len() > 0 {
                    r == ListContent::Entries(self@.filtered.len() as usize)
                } else {
                    r matches ListContent::Empty(said) && call_ensures(
                        S::empty_text,
                        (&*self.shown().source,),
                        said,
                    )
                },
            },
    {
        match self.left_pane {
            LeftPane::Items => if self.filtered.len() > 0 {
                ListContent::Entries(self.filtered.len())
            } else {
                ListContent::Empty(self.source().empty_text())
            },
            LeftPane::Mimes => ListContent::Mimes(self.mime_cache.len()),
        }
    }

    /// One row of the list.
    pub fn row(&self, list_ix: usize) -> (r: Row)
        requires
            self.wf(),
            list_ix < self@.filtered.len(),
        ensures
            call_ensures(
                S::render_item,
                (&*self.shown().source, self@.filtered[list_ix as int], list_ix == self@.item),
                r,
            ),
    {
        self.source().render_item(self.filtered[list_ix], list_ix == self.items.selected)
    }

    /// One row of the list of representations; nothing is named behind the
    /// last.
    pub fn mime_row(&self, list_ix: usize) -> (r: MimeRow)
        ensures
            r.selected == (list_ix == self@.mime),
            r.label@ == (if list_ix == self@.primary_mime_ix {
                "● "@
            } else {
                "  "@
            }) + (if list_ix < self@.mimes.len() {
                self@.mimes[list_ix as int]
            } else {
                ""@
            }),
    {
        let mime = if list_ix < self.mime_cache.len() {
            self.mime_cache[list_ix].as_str()
        } else {
            ""
        };
        MimeRow {
            label: mime_label(mime, list_ix == self.primary_mime_ix),
            selected: list_ix == self.mimes.selected,
        }
    }

    /// The preview of what is selected. Of a representation only its content
    /// is shown, not what surrounds the entry; an inspector card has a header
    /// of its own.
    pub fn preview_pane(&self) -> (r: Option<PreviewPane>)
        requires
            self.wf(),
        ensures
            r is Some == self@.selected() is Some,
            r matches Some(pane) ==> {
                let idx = self@.selected()->0;
                &&& match self@.left_pane {
                    LeftPane::Items => if pane.body is Inspector {
                        pane.chrome is None
                    } else {
                        call_ensures(
                            S::preview_chrome,
                            (&*self.shown().source, idx),
                            pane.chrome,
                        )
                    },
                    LeftPane::Mimes => pane.chrome is None,
                }
                &&& exists|p: Option<Preview>|
                    {
                        &&& #[trigger] drawn_as(p, pane.body)
                        &&& if self@.left_pane == LeftPane::Mimes
                            && self@.selected_mime() is Some {
                            exists|mime: &str|
                                mime@ == self@.selected_mime()->0 && #[trigger] call_ensures(
                                    S::preview_for_mime,
                                    (&*self.shown().source, idx, mime),
                                    p,
                                )
                        } else {
                            call_ensures(S::preview, (&*self.shown().source, idx), p)
                        }
                    }
            },
    {
        if self.items.selected >= self.filtered.len() {
            return None;
        }
        let idx = self.filtered[self.items.selected];
        let with_mime = self.left_pane == LeftPane::Mimes && self.mimes.selected
            < self.mime_cache.len();
        let preview = if with_mime {
            let mime = self.mime_cache[self.mimes.selected].as_str();
            let p = self.source().preview_for_mime(idx, mime);
            proof {
                assert(mime@ == self@.selected_mime()->0);
                assert(call_ensures(
                    S::preview_for_mime,
                    (&*self.shown().source, idx, mime),
                    p,
                ));
            }
            p
        } else {
            self.source().preview(idx)
        };
        let ghost p = preview;
        let body = preview_body(preview);
        proof {
            assert(drawn_as(p, body));
        }
        let chrome = match (self.left_pane, &body) {
            (LeftPane::Mimes, _) | (_, PreviewBody::Inspector(_)) => None,
            _ => self.source().preview_chrome(idx),
        };
        Some(PreviewPane { chrome, body })
    }

    /// The full-size image of what is selected, under the key of the entry.
    pub fn peek(&self) -> (r: Peek)
        requires
            self.wf(),
        ensures
            match self@.selected() {
                Some(idx) => {
                    &&& call_ensures(S::peek_image, (&*self.shown().source, idx), r.image)
                    &&& exists|key: Option<String>|
                        {
                            &&& #[trigger] call_ensures(
                                S::item_key,
                                (&*self.shown().source, idx),
                                key,
                            )
                            &&& r.status@ == (match key {
                                Some(k) => k@,
                                None => Seq::empty(),
                            })
                        }
                },
                None => r.image is None && r.status@.len() == 0,
            },
    {
        if self.items.selected >= self.filtered.len() {
            return Peek { image: None, status: String::new() };
        }
        let idx = self.filtered[self.items.selected];
        let image = self.source().peek_image(idx);
        let key = self.source().item_key(idx);
        proof {
            assert(call_ensures(S::item_key, (&*self.shown().source, idx), key));
        }
        let status = match key {
            Some(k) => k,
            None => String::new(),
        };
        Peek { image, status }
    }

    /// Whether `meta` may describe one of the sources that the one at a place
    /// is made of; there may also be no such source.
    pub open spec fn may_be_part(&self, slot: BarSlot, meta: Option<SourceMeta>) -> bool {
        match slot {
            BarSlot::UnionChild(i, j) => exists|v: Vec<SourceMeta>|
                {
                    &&& #[trigger] call_ensures(
                        S::sub_sources,
                        (&*self.sources()[i as int].source,),
                        v,
                    )
                    &&& meta == (if j < v@.len() {
                        Some(v@[j as int])
                    } else {
                        None
                    })
                },
            _ => meta is None,
        }
    }

    fn part(&self, slot: BarSlot) -> (r: Option<SourceMeta>)
        requires
            slot.place() < self.sources().len(),
        ensures
            self.may_be_part(slot, r),
    {
        match slot {
            BarSlot::UnionChild(i, j) => {
                let parts = self.registry.get(i).source.sub_sources();
                proof {
                    assert(call_ensures(
                        S::sub_sources,
                        (&*self.sources()[i as int].source,),
                        parts,
                    ));
                }
                if j < parts.len() {
                    Some(parts[j])
                } else {
                    None
                }
            },
            _ => None,
        }
    }

    /// The slots of the bar.
    pub fn slots(&self) -> (r: &[BarSlot])
        ensures
            r@ == self.bar(),
    {
        self.slots.as_slice()
    }

    /// Which slot of the bar is shown.
    pub fn active_slot(&self) -> (r: usize)
        ensures
            r == self@.active_slot,
    {
        self.active_slot
    }

    /// Which list is on the left.
    pub fn left_pane(&self) -> (r: LeftPane)
        ensures
            r == self@.left_pane,
    {
        self.left_pane
    }

    /// The glyph of a slot: that of its source, or of the part that it shows.
    pub fn slot_icon(&self, slot: BarSlot) -> (r: &'static str)
        requires
            slot.place() < self.sources().len(),
        ensures
            exists|meta: Option<SourceMeta>| #[trigger]
                self.may_be_part(slot, meta) && match meta {
                    Some(m) => r@ == m.icon@,
                    None => call_ensures(
                        S::icon,
                        (&*self.sources()[slot.place() as int].source,),
                        r,
                    ),
                },
    {
        match self.part(slot) {
            Some(m) => m.icon,
            None => self.registry.get(slot.registry_idx()).icon(),
        }
    }

    /// The label of a slot.
    pub fn slot_label(&self, slot: BarSlot) -> (r: String)
        requires
            slot.place() < self.sources().len(),
        ensures
            match slot {
                BarSlot::UnionAll(_) => r@ == "All"@,
                _ => exists|meta: Option<SourceMeta>| #[trigger]
                    self.may_be_part(slot, meta) && match meta {
                        Some(m) => r@ == bar::capitalized(bar::short_name(m.name@)),
                        None => exists|name: &'static str| #[trigger]
                            call_ensures(
                                S::name,
                                (&*self.sources()[slot.place() as int].source,),
                                name,
                            ) && r@ == bar::capitalized(bar::short_name(name@)),
                    },
            },
    {
        match slot {
            BarSlot::UnionAll(_) => "All".to_owned(),
            _ => match self.part(slot) {
                Some(m) => bar::short_label(m.name),
                None => {
                    let said = self.registry.get(slot.registry_idx()).name();
                    proof {
                        assert(call_ensures(
                            S::name,
                            (&*self.sources()[slot.place() as int].source,),
                            said,
                        ));
                    }
                    bar::short_label(said)
                },
            },
        }
    }

    /// The name by which a slot's glyph is tinted; without one it has the
    /// accent colour.
    pub fn slot_tint(&self, slot: BarSlot) -> (r: Option<&'static str>)
        requires
            slot.place() < self.sources().len(),
        ensures
            match slot {
                BarSlot::UnionAll(_) => r is None,
                BarSlot::Registry(i) => r matches Some(name) && call_ensures(
                    S::name,
                    (&*self.sources()[i as int].source,),
                    name,
                ),
                BarSlot::UnionChild(_, _) => exists|meta: Option<SourceMeta>| #[trigger]
                    self.may_be_part(slot, meta) && text::opt_str(r) == (match meta {
                        Some(m) => Some(m.name@),
                        None => None,
                    }),
            },
    {
        match slot {
            BarSlot::UnionAll(_) => None,
            BarSlot::Registry(i) => Some(self.registry.get(i).name()),
            BarSlot::UnionChild(_, _) => match self.part(slot) {
                Some(m) => Some(m.name),
                None => None,
            },
        }
    }
}

/// Joined lines are the lines with a break between each two.
pub proof fn law_joined_lines(a: Seq<Seq<char>>, b: Seq<Seq<char>>)
    ensures
        joined_lines(Seq::empty()) == Seq::<char>::empty(),
        a.len() == 1 ==> joined_lines(a) == a[0],
        a.len() > 0 && b.len() > 0 ==> joined_lines(a + b) == joined_lines(a) + seq!['\n']
            + joined_lines(b),
    decreases b.len(),
{
    if a.len() > 0 && b.len() > 0 {
        let s = a + b;
        assert(s.last() == b.last());
        assert(s.drop_last() =~= a + b.drop_last());
        if b.len() == 1 {
            assert(s.drop_last() =~= a);
        } else {
            law_joined_lines(a, b.drop_last());
            assert(joined_lines(s) =~= joined_lines(a) + seq!['\n'] + joined_lines(b));
        }
    }
}

/// The head of a text is its first lines, all of them if there are no more.
pub proof fn law_head_is_the_first_lines(s: Seq<char>, n: int)
    requires
        0 <= n,
    ensures
        text::lines(s).len() <= n ==> head_of(s, n) == joined_lines(text::lines(s)),
        text::lines(s).len() > n ==> head_of(s, n) == joined_lines(text::lines(s).take(n)),
{
    let l = text::lines(s);
    assert(l.take(l.len() as int) =~= l);
}

/// The keys that are shown: tab and the source always, the space bar only where
/// there is something to look at, copying only where there is something to
/// copy, and closing and activating last, of which activating stands out alone.
pub proof fn law_key_hints(pane: LeftPane, peeks: bool, copies: bool)
    ensures
        ({
            let h = key_hints_for(pane, peeks, copies);
            let n = h.len();
            &&& n == 4 + (if peeks {
                1int
            } else {
                0
            }) + (if copies {
                1int
            } else {
                0
            })
            &&& h[0] == ((if pane == LeftPane::Items {
                "Mimes"@
            } else {
                "Items"@
            }), seq!["tab"@], false)
            &&& h[1] == ("Source"@, seq!["ctrl"@, "tab"@], false)
            &&& peeks ==> h[2] == ("Peek"@, seq!["space"@], false)
            &&& copies ==> h[n - 3] == ("Copy"@, seq!["⌃C"@], false)
            &&& h[n - 2] == ("Close"@, seq!["esc"@], false)
            &&& h[n - 1] == ("Activate"@, seq!["↵"@], true)
            &&& forall|i: int| 0 <= i < n - 1 ==> !(#[trigger] h[i]).2
        }),
{
}

} // verus!
