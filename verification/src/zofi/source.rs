//! What a source of launcher entries offers.

use vstd::prelude::*;
use vstd::string::*;

use std::sync::Arc;

use crate::text;

verus! {

/// How an image is encoded.
#[derive(Clone, Copy, Debug, PartialEq, Eq, Structural)]
pub enum ImageFormat {
    Png,
    Jpeg,
    Svg,
}

/// An encoded image.
#[derive(Debug)]
pub struct Image {
    pub format: ImageFormat,
    pub bytes: Vec<u8>,
    /// Tells images apart when they are drawn.
    pub id: u64,
}

/// What is shown beside the list.
#[derive(Debug)]
pub enum Preview {
    Text(String),
    /// Text in a language, by its file extension.
    Code { text: String, lang: String },
    Image(Arc<Image>),
    Inspector(InspectorCard),
}

/// A title with rows below it.
#[derive(Debug)]
pub struct InspectorCard {
    pub icon: Option<Arc<Image>>,
    pub title: String,
    pub subtitle: Option<String>,
    pub rows: Vec<InspectorRow>,
}

/// One row of a card.
#[derive(Debug)]
pub struct InspectorRow {
    pub label: String,
    pub value: String,
    /// Whether the value is a path or an identifier.
    pub mono: bool,
}

impl View for InspectorRow {
    type V = (Seq<char>, Seq<char>, bool);

    open spec fn view(&self) -> (Seq<char>, Seq<char>, bool) {
        (self.label@, self.value@, self.mono)
    }
}

/// What the launcher does after an entry was activated.
#[derive(Clone, Copy, Debug, PartialEq, Eq, Structural)]
pub enum ActivateOutcome {
    /// Leave.
    Quit,
    /// Stay and list again.
    Refresh,
}

/// A badge in the header of a preview.
#[derive(Debug, PartialEq, Eq)]
pub struct PreviewPill {
    pub text: String,
    pub active: bool,
}

/// What surrounds a preview.
#[derive(Debug, PartialEq, Eq)]
pub struct PreviewChrome {
    pub title: String,
    pub pills: Vec<PreviewPill>,
    /// Names and values below the preview.
    pub metadata: Vec<(String, String)>,
}

/// How a source shows in the switcher bar.
#[derive(Clone, Copy, Debug, PartialEq, Eq)]
pub struct SourceMeta {
    pub name: &'static str,
    pub icon: &'static str,
    pub prefix: Option<char>,
}

/// Whether there is a preview beside the list.
#[derive(Clone, Copy, Debug, PartialEq, Eq, Structural)]
pub enum Layout {
    List,
    ListAndPreview,
}

/// The picture at the start of a row.
#[derive(Debug)]
pub enum RowIcon {
    Image(Arc<Image>),
    /// The image in this file.
    Path(String),
    /// A picture that comes with the program, in this colour.
    Asset(&'static str, u32),
    /// A glyph on its own.
    Glyph(char),
    /// A letter on a tile.
    Tile(String),
    /// A glyph on a badge.
    Badge(char),
}

/// What a row of the list shows.
#[derive(Debug)]
pub struct Row {
    /// The glyph and the name of the source that the row is from, where rows
    /// of several sources are mixed.
    pub gutter: Option<(&'static str, &'static str)>,
    pub icon: RowIcon,
    pub title: String,
    /// A second line, unless it is empty.
    pub subtitle: String,
    pub selected: bool,
}

/// A source of launcher entries. Entries go by their index.
///
/// What a source says may change between two calls, so nothing is promised of
/// that.
pub trait Source {
    /// The name of the source.
    fn name(&self) -> &'static str;

    /// The glyph of the source in the switcher bar.
    fn icon(&self) -> &'static str;

    /// What the input says while it is empty.
    fn placeholder(&self) -> &'static str;

    /// What is said when there is nothing to list.
    fn empty_text(&self) -> &'static str;

    /// The character that switches to the source when it is typed first.
    fn prefix(&self) -> (r: Option<char>)
        default_ensures
            r is None,
    {
        None
    }

    /// The entries that match `query`.
    fn filter(&self, query: &str) -> Vec<usize>;

    /// What the row of an entry shows.
    fn render_item(&self, ix: usize, selected: bool) -> Row;

    /// Activates an entry.
    fn activate(&self, ix: usize) -> ActivateOutcome;

    /// The preview of an entry.
    fn preview(&self, ix: usize) -> (r: Option<Preview>)
        default_ensures
            r is None,
    {
        None
    }

    /// What surrounds the preview of an entry.
    fn preview_chrome(&self, ix: usize) -> (r: Option<PreviewChrome>)
        default_ensures
            r is None,
    {
        None
    }

    /// The representations that an entry has.
    fn mimes(&self, ix: usize) -> (r: Vec<String>)
        default_ensures
            r@.len() == 0,
    {
        Vec::new()
    }

    /// Which of the representations is the default one.
    fn primary_mime_index(&self, ix: usize) -> (r: Option<usize>)
        default_ensures
            exists|primary: Option<String>| #[trigger]
                call_ensures(Self::primary_mime, (self, ix), primary) && match primary {
                    Some(p) => exists|all: Vec<String>| #[trigger]
                        call_ensures(Self::mimes, (self, ix), all) && is_first_place(all@, p@, r),
                    None => r is None,
                },
    {
        let primary = self.primary_mime(ix);
        assert(call_ensures(Self::primary_mime, (self, ix), primary));
        match &primary {
            Some(p) => {
                let all = self.mimes(ix);
                assert(call_ensures(Self::mimes, (self, ix), all));
                position_of_text(&all, p.as_str())
            },
            None => None,
        }
    }

    /// The default representation.
    fn primary_mime(&self, ix: usize) -> (r: Option<String>)
        default_ensures
            r is None,
    {
        None
    }

    /// The preview of one representation.
    fn preview_for_mime(&self, ix: usize, mime: &str) -> (r: Option<Preview>)
        default_ensures
            call_ensures(Self::preview, (self, ix), r),
    {
        self.preview(ix)
    }

    /// Activates an entry by one representation.
    fn activate_with_mime(&self, ix: usize, mime: &str) -> (r: ActivateOutcome)
        default_ensures
            call_ensures(Self::activate, (self, ix), r),
    {
        self.activate(ix)
    }

    /// Whether there is a preview beside the list.
    fn layout(&self) -> (r: Layout)
        default_ensures
            r == Layout::List,
    {
        Layout::List
    }

    /// A notice above the list.
    fn banner(&self) -> (r: Option<String>)
        default_ensures
            r is None,
    {
        None
    }

    /// How much an entry ranks above others whatever the query is.
    fn weight(&self, ix: usize) -> (r: i32)
        default_ensures
            r == 0,
    {
        0
    }

    /// The entries that match `query`, each with how well it does.
    fn filter_scored(&self, query: &str) -> (r: Vec<(usize, i32)>)
        default_ensures
            exists|found: Vec<usize>| #[trigger]
                call_ensures(Self::filter, (self, query), found) && zero_scored(found@, r@),
    {
        let found = self.filter(query);
        let r = with_zero_scores(&found);
        assert(call_ensures(Self::filter, (self, query), found));
        r
    }

    /// The sources that this one is made of.
    fn sub_sources(&self) -> (r: Vec<SourceMeta>)
        default_ensures
            r@.len() == 0,
    {
        Vec::new()
    }

    /// Restricts what is listed to one of the sources that this one is made
    /// of.
    fn set_sub_filter(&self, idx: Option<usize>) {
    }

    /// The key by which the use of an entry is recorded.
    fn item_key(&self, ix: usize) -> (r: Option<String>)
        default_ensures
            r is None,
    {
        None
    }

    /// The source under which the use of an entry is recorded.
    fn source_name(&self, ix: usize) -> (r: &'static str)
        default_ensures
            call_ensures(Self::name, (self,), r),
    {
        self.name()
    }

    /// The full-size image of an entry.
    fn peek_image(&self, ix: usize) -> (r: Option<Arc<Image>>)
        default_ensures
            r is None,
    {
        None
    }

    /// Whether entries may have full-size images.
    fn can_peek(&self) -> (r: bool)
        default_ensures
            !r,
    {
        false
    }

    /// The image of an entry, encoded for the clipboard.
    fn copy_image_bytes(&self, ix: usize) -> (r: Option<Arc<Vec<u8>>>)
        default_ensures
            r is None,
    {
        None
    }

    /// Whether entries may have images to copy.
    fn can_copy_image(&self) -> (r: bool)
        default_ensures
            !r,
    {
        false
    }
}

/// A source behind a pointer is that source.
impl<S: Source + ?Sized> Source for Box<S> {
    fn name(&self) -> (r: &'static str)
        ensures
            call_ensures(S::name, (&**self,), r),
    {
        (**self).name()
    }

    fn icon(&self) -> (r: &'static str)
        ensures
            call_ensures(S::icon, (&**self,), r),
    {
        (**self).icon()
    }

    fn placeholder(&self) -> (r: &'static str)
        ensures
            call_ensures(S::placeholder, (&**self,), r),
    {
        (**self).placeholder()
    }

    fn empty_text(&self) -> (r: &'static str)
        ensures
            call_ensures(S::empty_text, (&**self,), r),
    {
        (**self).empty_text()
    }

    fn prefix(&self) -> (r: Option<char>)
        ensures
            call_ensures(S::prefix, (&**self,), r),
    {
        (**self).prefix()
    }

    fn filter(&self, query: &str) -> (r: Vec<usize>)
        ensures
            call_ensures(S::filter, (&**self, query), r),
    {
        (**self).filter(query)
    }

    fn render_item(&self, ix: usize, selected: bool) -> (r: Row)
        ensures
            call_ensures(S::render_item, (&**self, ix, selected), r),
    {
        (**self).render_item(ix, selected)
    }

    fn activate(&self, ix: usize) -> (r: ActivateOutcome)
        ensures
            call_ensures(S::activate, (&**self, ix), r),
    {
        (**self).activate(ix)
    }

    fn preview(&self, ix: usize) -> (r: Option<Preview>)
        ensures
            call_ensures(S::preview, (&**self, ix), r),
    {
        (**self).preview(ix)
    }

    fn preview_chrome(&self, ix: usize) -> (r: Option<PreviewChrome>)
        ensures
            call_ensures(S::preview_chrome, (&**self, ix), r),
    {
        (**self).preview_chrome(ix)
    }

    fn mimes(&self, ix: usize) -> (r: Vec<String>)
        ensures
            call_ensures(S::mimes, (&**self, ix), r),
    {
        (**self).mimes(ix)
    }

    fn primary_mime_index(&self, ix: usize) -> (r: Option<usize>)
        ensures
            call_ensures(S::primary_mime_index, (&**self, ix), r),
    {
        (**self).primary_mime_index(ix)
    }

    fn primary_mime(&self, ix: usize) -> (r: Option<String>)
        ensures
            call_ensures(S::primary_mime, (&**self, ix), r),
    {
        (**self).primary_mime(ix)
    }

    fn preview_for_mime(&self, ix: usize, mime: &str) -> (r: Option<Preview>)
        ensures
            call_ensures(S::preview_for_mime, (&**self, ix, mime), r),
    {
        (**self).preview_for_mime(ix, mime)
    }

    fn activate_with_mime(&self, ix: usize, mime: &str) -> (r: ActivateOutcome)
        ensures
            call_ensures(S::activate_with_mime, (&**self, ix, mime), r),
    {
        (**self).activate_with_mime(ix, mime)
    }

    fn layout(&self) -> (r: Layout)
        ensures
            call_ensures(S::layout, (&**self,), r),
    {
        (**self).layout()
    }

    fn banner(&self) -> (r: Option<String>)
        ensures
            call_ensures(S::banner, (&**self,), r),
    {
        (**self).banner()
    }

    fn weight(&self, ix: usize) -> (r: i32)
        ensures
            call_ensures(S::weight, (&**self, ix), r),
    {
        (**self).weight(ix)
    }

    fn filter_scored(&self, query: &str) -> (r: Vec<(usize, i32)>)
        ensures
            call_ensures(S::filter_scored, (&**self, query), r),
    {
        (**self).filter_scored(query)
    }

    fn sub_sources(&self) -> (r: Vec<SourceMeta>)
        ensures
            call_ensures(S::sub_sources, (&**self,), r),
    {
        (**self).sub_sources()
    }

    fn item_key(&self, ix: usize) -> (r: Option<String>)
        ensures
            call_ensures(S::item_key, (&**self, ix), r),
    {
        (**self).item_key(ix)
    }

    fn source_name(&self, ix: usize) -> (r: &'static str)
        ensures
            call_ensures(S::source_name, (&**self, ix), r),
    {
        (**self).source_name(ix)
    }

    fn peek_image(&self, ix: usize) -> (r: Option<Arc<Image>>)
        ensures
            call_ensures(S::peek_image, (&**self, ix), r),
    {
        (**self).peek_image(ix)
    }

    fn can_peek(&self) -> (r: bool)
        ensures
            call_ensures(S::can_peek, (&**self,), r),
    {
        (**self).can_peek()
    }

    fn copy_image_bytes(&self, ix: usize) -> (r: Option<Arc<Vec<u8>>>)
        ensures
            call_ensures(S::copy_image_bytes, (&**self, ix), r),
    {
        (**self).copy_image_bytes(ix)
    }

    fn can_copy_image(&self) -> (r: bool)
        ensures
            call_ensures(S::can_copy_image, (&**self,), r),
    {
        (**self).can_copy_image()
    }

    fn set_sub_filter(&self, idx: Option<usize>)
        ensures
            call_ensures(S::set_sub_filter, (&**self, idx), ()),
    {
        (**self).set_sub_filter(idx)
    }
}

/// Whether `scored` is `found` with nothing matching better than another.
pub open spec fn zero_scored(found: Seq<usize>, scored: Seq<(usize, i32)>) -> bool {
    &&& scored.len() == found.len()
    &&& forall|i: int| 0 <= i < scored.len() ==> #[trigger] scored[i] == (found[i], 0i32)
}

/// Entries, none of which matches better than another.
pub fn with_zero_scores(found: &Vec<usize>) -> (r: Vec<(usize, i32)>)
    ensures
        zero_scored(found@, r@),
{
    let mut out: Vec<(usize, i32)> = Vec::new();
    let mut i: usize = 0;
    while i < found.len()
        invariant
            i <= found@.len(),
            out@.len() == i,
            forall|k: int| 0 <= k < i ==> #[trigger] out@[k] == (found@[k], 0i32),
        decreases found.len() - i,
    {
        out.push((found[i], 0));
        i = i + 1;
    }
    out
}

/// Whether `r` is the place of the first text that is `wanted`.
pub open spec fn is_first_place(all: Seq<String>, wanted: Seq<char>, r: Option<usize>) -> bool {
    match r {
        Some(i) => {
            &&& i < all.len()
            &&& all[i as int]@ == wanted
            &&& forall|k: int| 0 <= k < i ==> (#[trigger] all[k])@ != wanted
        },
        None => forall|k: int| 0 <= k < all.len() ==> (#[trigger] all[k])@ != wanted,
    }
}

/// The place of the first text that is `wanted`.
pub fn position_of_text(all: &Vec<String>, wanted: &str) -> (r: Option<usize>)
    ensures
        is_first_place(all@, wanted@, r),
{
    let mut i: usize = 0;
    while i < all.len()
        invariant
            i <= all@.len(),
            forall|k: int| 0 <= k < i ==> (#[trigger] all@[k])@ != wanted@,
        decreases all.len() - i,
    {
        if text::str_eq(all[i].as_str(), wanted) {
            return Some(i);
        }
        i = i + 1;
    }
    None
}

/// Which of the first `n` keys hold `needle`, in order.
pub open spec fn matching(keys: Seq<Seq<char>>, needle: Seq<char>, n: int) -> Seq<usize>
    decreases n,
{
    if n <= 0 {
        Seq::empty()
    } else if text::contains(keys[n - 1], needle) {
        matching(keys, needle, n - 1).push((n - 1) as usize)
    } else {
        matching(keys, needle, n - 1)
    }
}

/// What matches is listed once each and in order: exactly the places of the
/// keys that hold `needle`.
pub proof fn law_matching_is_exact(keys: Seq<Seq<char>>, needle: Seq<char>, n: int)
    requires
        0 <= n <= keys.len() <= usize::MAX,
    ensures
        ({
            let m = matching(keys, needle, n);
            &&& forall|i: int, j: int| 0 <= i < j < m.len() ==> (#[trigger] m[i]) < (#[trigger] m[j])
            &&& forall|i: int|
                0 <= i < m.len() ==> (#[trigger] m[i]) < n && text::contains(
                    keys[m[i] as int],
                    needle,
                )
            &&& forall|k: int|
                0 <= k < n && text::contains(#[trigger] keys[k], needle) ==> m.contains(k as usize)
        }),
    decreases n,
{
    if n > 0 {
        law_matching_is_exact(keys, needle, n - 1);
        let before = matching(keys, needle, n - 1);
        let m = matching(keys, needle, n);
        assert forall|k: int| 0 <= k < n && text::contains(#[trigger] keys[k], needle) implies m.contains(
            k as usize,
        ) by {
            if k < n - 1 {
                let i = choose|i: int| 0 <= i < before.len() && before[i] == k as usize;
                assert(m[i] == k as usize);
            } else {
                assert(m[m.len() - 1] == k as usize);
            }
        }
        assert forall|i: int, j: int| 0 <= i < j < m.len() implies (#[trigger] m[i]) < (
            #[trigger] m[j]) by {
            assert(m[i] == before[i]);
            if j < before.len() {
                assert(m[j] == before[j]);
            }
        }
        assert forall|i: int| 0 <= i < m.len() implies (#[trigger] m[i]) < n && text::contains(
            keys[m[i] as int],
            needle,
        ) by {
            if i < before.len() {
                assert(m[i] == before[i]);
            }
        }
    }
}

/// Finds the keys that hold `needle`.
pub fn filter_keys(keys: &Vec<String>, needle: &str) -> (r: Vec<usize>)
    ensures
        r@ == matching(text::views(keys@), needle@, keys@.len() as int),
{
    let wanted = text::chars_of(needle);
    let ghost all = text::views(keys@);
    let mut out: Vec<usize> = Vec::new();
    let mut i: usize = 0;
    while i < keys.len()
        invariant
            i <= keys@.len(),
            all == text::views(keys@),
            wanted@ == needle@,
            out@ == matching(all, needle@, i as int),
        decreases keys.len() - i,
    {
        let key = text::chars_of(keys[i].as_str());
        proof {
            assert(all[i as int] == key@);
        }
        if text::occurs(key.as_slice(), wanted.as_slice()) {
            out.push(i);
        }
        i = i + 1;
    }
    out
}

/// Every index below `n`.
pub open spec fn all_indices(n: nat) -> Seq<usize> {
    Seq::new(n, |i: int| i as usize)
}

/// Every index below `n`.
pub fn indices(n: usize) -> (r: Vec<usize>)
    ensures
        r@ == all_indices(n as nat),
{
    let mut out: Vec<usize> = Vec::new();
    let mut i: usize = 0;
    while i < n
        invariant
            i <= n,
            out@ =~= all_indices(i as nat),
        decreases n - i,
    {
        out.push(i);
        i = i + 1;
    }
    out
}

} // verus!
