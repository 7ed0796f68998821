//! The clipboard history.

use vstd::prelude::*;
use vstd::string::*;

use std::sync::Arc;

use crate::clipd::daemon::Request;
use crate::clipd::model;
use crate::clipd::model::Entry;
use crate::clipd::model::EntryView;
use crate::clipd::model::Kind;
use crate::numeral;
use crate::sorting;
use crate::text;
use crate::zofi::source;
use crate::zofi::source::ActivateOutcome;
use crate::zofi::source::Image;
use crate::zofi::source::ImageFormat;
use crate::zofi::source::Layout;
use crate::zofi::source::Preview;
use crate::zofi::source::Row;
use crate::zofi::source::RowIcon;
use crate::zofi::source::Source;

verus! {

/// How many items are listed.
pub const LIST_LIMIT: usize = 500;

/// What the source needs from its surroundings.
pub trait ClipboardHost {
    /// An id that no other image has.
    fn next_image_id(&self) -> u64;

    /// Sends a request to the daemon.
    fn send(&self, request: Request);
}

/// What came of starting the daemon.
#[derive(Debug)]
pub enum Started {
    /// It answered in time.
    Ready,
    /// It was started but did not answer.
    Silent,
    /// It could not be started, for this reason.
    Failed(String),
}

/// Whether the daemon runs, and why it does not; `started` says what came of
/// starting it, where it did not run.
pub fn daemon_state(running: bool, started: Option<Started>) -> (r: (bool, Option<String>))
    ensures
        r.0 == (running || started == Some(Started::Ready)),
        text::opt(r.1) == (if running {
            None
        } else {
            match started {
                Some(Started::Silent) => Some("spawned but did not become ready in 1.5s"@),
                Some(Started::Failed(why)) => Some(why@),
                _ => None,
            }
        }),
{
    if running {
        return (true, None);
    }
    match started {
        Some(Started::Ready) => (true, None),
        Some(Started::Silent) => (
            false,
            Some("spawned but did not become ready in 1.5s".to_owned()),
        ),
        Some(Started::Failed(why)) => (false, Some(why)),
        None => (false, None),
    }
}

/// The format of an image, by its media type.
pub open spec fn format_of(mime: Seq<char>) -> Option<ImageFormat> {
    let m = text::ascii_lower(mime);
    if m == "image/png"@ {
        Some(ImageFormat::Png)
    } else if m == "image/jpeg"@ || m == "image/jpg"@ {
        Some(ImageFormat::Jpeg)
    } else {
        None
    }
}

/// The format of an image, by its media type.
pub fn image_format_from_mime(mime: &str) -> (r: Option<ImageFormat>)
    ensures
        r == format_of(mime@),
{
    let m = text::to_ascii_lower(mime);
    if text::str_eq(m.as_str(), "image/png") {
        Some(ImageFormat::Png)
    } else if text::str_eq(m.as_str(), "image/jpeg") || text::str_eq(m.as_str(), "image/jpg") {
        Some(ImageFormat::Jpeg)
    } else {
        None
    }
}

/// Whether `img` is the representation `mime` of an item.
pub open spec fn is_image_of(img: Image, e: EntryView, mime: Seq<char>) -> bool {
    &&& format_of(mime) == Some(img.format)
    &&& model::content_of(e.mimes, mime) == Some(img.bytes@)
}

/// Whether the representation `mime` of an item can be drawn.
pub open spec fn drawable(e: EntryView, mime: Seq<char>) -> bool {
    format_of(mime) is Some && model::content_of(e.mimes, mime) is Some
}

/// Whether `kept` is what is kept of an item: the image in its default
/// representation, where it is an image that can be drawn.
pub open spec fn is_kept_for(kept: Option<Arc<Image>>, e: EntryView) -> bool {
    match kept {
        Some(img) => e.kind == Kind::Image && is_image_of(*img, e, e.primary_mime),
        None => !(e.kind == Kind::Image && drawable(e, e.primary_mime)),
    }
}

/// The image in the representation `mime` of an item.
pub fn decode_image_for_mime(entry: &Entry, mime: &str, id: u64) -> (r: Option<Image>)
    ensures
        match r {
            Some(img) => is_image_of(img, entry@, mime@) && img.id == id,
            None => !drawable(entry@, mime@),
        },
{
    match image_format_from_mime(mime) {
        Some(format) => match entry.content_for(mime) {
            Some(c) => Some(Image { format, bytes: vstd::slice::slice_to_vec(c), id }),
            None => None,
        },
        None => None,
    }
}

/// The history as the launcher lists it.
pub struct ClipboardSource<H: ClipboardHost + ?Sized = dyn ClipboardHost> {
    entries: Vec<Entry>,
    search_keys: Vec<String>,
    images: Vec<Option<Arc<Image>>>,
    daemon_running: bool,
    daemon_error: Option<String>,
    host: Box<H>,
}

/// The text by which an item is found.
pub open spec fn key_of(e: EntryView) -> Seq<char> {
    text::lowercase(
        match e.preview {
            Some(p) => p,
            None => Seq::empty(),
        },
    )
}

/// The texts by which items are found.
pub open spec fn keys_of(v: Seq<EntryView>) -> Seq<Seq<char>> {
    v.map_values(|e: EntryView| key_of(e))
}

/// What a row says.
pub open spec fn label_of(e: EntryView) -> Seq<char> {
    match e.kind {
        Kind::Text => match e.preview {
            Some(p) => p,
            None => "(empty)"@,
        },
        Kind::Image => {
            let size = match model::content_of(e.mimes, e.primary_mime) {
                Some(c) => c.len(),
                None => 0,
            };
            "image \u{b7} "@ + e.primary_mime + " \u{b7} "@ + numeral::decimal(size) + " bytes"@
        },
    }
}

/// Whether `p` is the preview of the representation `mime`: a text is shown as
/// it is, an image as an image where it can be drawn.
pub open spec fn is_preview(p: Option<Preview>, e: EntryView, mime: Seq<char>) -> bool {
    match e.kind {
        Kind::Text => match model::content_of(e.mimes, mime) {
            Some(c) => p matches Some(Preview::Text(t)) && t@ == text::utf8_lossy(c),
            None => p is None,
        },
        Kind::Image => if drawable(e, mime) {
            p matches Some(Preview::Image(img)) && is_image_of(*img, e, mime)
        } else {
            p matches Some(Preview::Text(t)) && t@ == "[unsupported image mime: "@ + mime + "]"@
        },
    }
}

fn entry_label(e: &Entry) -> (r: String)
    ensures
        r@ == label_of(e@),
{
    match e.kind {
        Kind::Text => match &e.preview {
            Some(p) => p.clone(),
            None => "(empty)".to_owned(),
        },
        Kind::Image => {
            let size: usize = match e.primary_content() {
                Some(c) => c.len(),
                None => 0,
            };
            let mut s = "image \u{b7} ".to_owned();
            s.push_str(e.primary_mime.as_str());
            s.push_str(" \u{b7} ");
            numeral::push_decimal(&mut s, size as u64);
            s.push_str(" bytes");
            s
        },
    }
}

impl<H: ClipboardHost + ?Sized> ClipboardSource<H> {
    /// The items listed.
    pub closed spec fn listed(&self) -> Seq<EntryView> {
        sorting::views(self.entries@)
    }

    /// Whether the daemon runs, and why it does not.
    pub closed spec fn daemon(&self) -> (bool, Option<Seq<char>>) {
        (self.daemon_running, text::opt(self.daemon_error))
    }

    /// What passes requests on to the daemon.
    pub closed spec fn asks_by(&self) -> &H {
        &*self.host
    }

    /// Whether `request` asks for an item, by the representation `mime` or by
    /// the default one.
    pub open spec fn asks_for(&self, ix: int, mime: Option<Seq<char>>, request: Request) -> bool {
        request matches Request::Activate { uuid, mime: m } && uuid@ == self.listed()[ix].uuid
            && text::opt(m) == mime
    }

    /// The image that is kept for an item: the same each time it is drawn.
    pub closed spec fn kept_image(&self, ix: int) -> Option<Arc<Image>> {
        self.images@[ix]
    }

    /// The keys and the images are those of the items.
    #[verifier::type_invariant]
    spec fn wf(&self) -> bool {
        &&& text::views(self.search_keys@) == keys_of(self.listed())
        &&& self.images@.len() == self.entries@.len()
        &&& forall|i: int|
            0 <= i < self.images@.len() ==> is_kept_for(
                #[trigger] self.images@[i],
                self.entries@[i]@,
            )
    }

    /// Whether `p` is the preview of the representation `mime` of an item, the
    /// kept image where that is the default one of an image.
    pub open spec fn shows(&self, ix: int, mime: Seq<char>, p: Option<Preview>) -> bool {
        let e = self.listed()[ix];
        &&& is_preview(p, e, mime)
        &&& e.kind == Kind::Image && mime == e.primary_mime && drawable(e, mime) ==> p == Some(
            Preview::Image(self.kept_image(ix)->0),
        )
    }

    /// The source for some items.
    pub fn new(
        entries: Vec<Entry>,
        daemon_running: bool,
        daemon_error: Option<String>,
        host: Box<H>,
    ) -> (r: Self)
        ensures
            r.listed() == sorting::views(entries@),
            r.daemon() == (daemon_running, text::opt(daemon_error)),
            r.asks_by() == &*host,
            forall|i: int|
                0 <= i < entries@.len() ==> is_kept_for(
                    #[trigger] r.kept_image(i),
                    entries@[i]@,
                ),
    {
        let mut search_keys: Vec<String> = Vec::new();
        let mut images: Vec<Option<Arc<Image>>> = Vec::new();
        let ghost all = sorting::views(entries@);
        let mut i: usize = 0;
        while i < entries.len()
            invariant
                all == sorting::views(entries@),
                i <= entries@.len(),
                search_keys@.len() == i,
                images@.len() == i,
                forall|k: int| 0 <= k < i ==> (#[trigger] search_keys@[k])@ == keys_of(all)[k],
                forall|k: int|
                    0 <= k < i ==> is_kept_for(#[trigger] images@[k], entries@[k]@),
            decreases entries.len() - i,
        {
            let e = &entries[i];
            let key = match &e.preview {
                Some(p) => text::to_lowercase(p.as_str()),
                None => {
                    let blank = String::new();
                    proof {
                        assert(blank@ =~= Seq::<char>::empty());
                    }
                    text::to_lowercase(blank.as_str())
                },
            };
            proof {
                assert(keys_of(all)[i as int] == key_of(e@));
            }
            search_keys.push(key);
            let image: Option<Arc<Image>> = if e.kind == Kind::Image {
                let id = host.next_image_id();
                match decode_image_for_mime(e, e.primary_mime.as_str(), id) {
                    Some(img) => Some(Arc::new(img)),
                    None => None,
                }
            } else {
                None
            };
            images.push(image);
            i = i + 1;
        }
        proof {
            assert(text::views(search_keys@) =~= keys_of(all));
        }
        ClipboardSource { entries, search_keys, images, daemon_running, daemon_error, host }
    }

    /// The request that activates an item.
    pub fn request_for(&self, ix: usize, mime: Option<String>) -> (r: Option<Request>)
        ensures
            if ix < self.listed().len() {
                r matches Some(request) && self.asks_for(ix as int, text::opt(mime), request)
            } else {
                r is None
            },
    {
        if ix < self.entries.len() {
            Some(Request::Activate { uuid: self.entries[ix].uuid.clone(), mime })
        } else {
            None
        }
    }

    /// The notice while the daemon does not run.
    pub fn notice(&self) -> (r: Option<String>)
        ensures
            text::opt(r) == (match self.daemon() {
                (true, _) => None,
                (false, Some(why)) => Some("\u{26a0} zofi-clipd not running: "@ + why),
                (false, None) => Some(
                    "\u{26a0} zofi-clipd not running: "@ + "daemon did not start"@,
                ),
            }),
    {
        if self.daemon_running {
            return None;
        }
        let detail = match &self.daemon_error {
            Some(e) => e.as_str(),
            None => "daemon did not start",
        };
        Some(text::concat2("\u{26a0} zofi-clipd not running: ", detail))
    }

    /// The items that match `query`.
    pub fn matches(&self, query: &str) -> (r: Vec<usize>)
        ensures
            r@ == (if query@.len() == 0 {
                source::all_indices(self.listed().len())
            } else {
                source::matching(
                    keys_of(self.listed()),
                    text::lowercase(query@),
                    self.listed().len() as int,
                )
            }),
    {
        if query.is_empty() {
            return source::indices(self.entries.len());
        }
        let q = text::to_lowercase(query);
        proof {
            use_type_invariant(self);
            assert(text::views(self.search_keys@).len() == self.listed().len());
        }
        source::filter_keys(&self.search_keys, q.as_str())
    }

    /// The preview of one representation of an item.
    pub fn show(&self, ix: usize, mime: &str) -> (r: Option<Preview>)
        ensures
            if ix < self.listed().len() {
                self.shows(ix as int, mime@, r)
            } else {
                r is None
            },
    {
        proof {
            use_type_invariant(self);
        }
        if ix >= self.entries.len() {
            return None;
        }
        let e = &self.entries[ix];
        match e.kind {
            Kind::Text => match e.content_for(mime) {
                Some(c) => Some(Preview::Text(text::from_utf8_lossy(c))),
                None => None,
            },
            Kind::Image => {
                if text::str_eq(mime, e.primary_mime.as_str()) {
                    if let Some(img) = &self.images[ix] {
                        return Some(Preview::Image(Arc::clone(img)));
                    }
                }
                match decode_image_for_mime(e, mime, self.host.next_image_id()) {
                    Some(img) => Some(Preview::Image(Arc::new(img))),
                    None => {
                        let mut s = "[unsupported image mime: ".to_owned();
                        s.push_str(mime);
                        s.push_str("]");
                        Some(Preview::Text(s))
                    },
                }
            },
        }
    }
}

impl<H: ClipboardHost + ?Sized> Source for ClipboardSource<H> {
    fn name(&self) -> (r: &'static str)
        ensures
            r@ == "clipboard"@,
    {
        "clipboard"
    }

    fn icon(&self) -> (r: &'static str)
        ensures
            r@ == "\u{25a4}"@,
    {
        "\u{25a4}"
    }

    fn placeholder(&self) -> (r: &'static str)
        ensures
            r@ == "Search clipboard..."@,
    {
        "Search clipboard..."
    }

    fn empty_text(&self) -> (r: &'static str)
        ensures
            r@ == "No clipboard entries"@,
    {
        "No clipboard entries"
    }

    fn filter(&self, query: &str) -> (r: Vec<usize>)
        ensures
            r@ == (if query@.len() == 0 {
                source::all_indices(self.listed().len())
            } else {
                source::matching(
                    keys_of(self.listed()),
                    text::lowercase(query@),
                    self.listed().len() as int,
                )
            }),
    {
        self.matches(query)
    }

    fn render_item(&self, ix: usize, selected: bool) -> (r: Row)
        ensures
            ix < self.listed().len() ==> {
                let e = self.listed()[ix as int];
                &&& r.gutter is None
                &&& r.icon == RowIcon::Badge(
                    match e.kind {
                        Kind::Text => '\u{b6}',
                        Kind::Image => '\u{25eb}',
                    },
                )
                &&& r.title@ == label_of(e)
                &&& r.subtitle@.len() == 0
                &&& r.selected == selected
            },
    {
        if ix >= self.entries.len() {
            return Row {
                gutter: None,
                icon: RowIcon::Badge('\u{b6}'),
                title: String::new(),
                subtitle: String::new(),
                selected,
            };
        }
        let e = &self.entries[ix];
        let glyph = match e.kind {
            Kind::Text => '\u{b6}',
            Kind::Image => '\u{25eb}',
        };
        Row {
            gutter: None,
            icon: RowIcon::Badge(glyph),
            title: entry_label(e),
            subtitle: String::new(),
            selected,
        }
    }

    /// Asks the daemon for an item, and leaves.
    fn activate(&self, ix: usize) -> (r: ActivateOutcome)
        ensures
            r == ActivateOutcome::Quit,
            ix < self.listed().len() ==> exists|request: Request|
                self.asks_for(ix as int, None, request) && #[trigger] call_ensures(
                    H::send,
                    (self.asks_by(), request),
                    (),
                ),
    {
        if let Some(request) = self.request_for(ix, None) {
            let ghost sent = request;
            self.host.send(request);
            assert(call_ensures(H::send, (self.asks_by(), sent), ()));
        }
        ActivateOutcome::Quit
    }

    /// Asks the daemon for one representation of an item, and leaves.
    fn activate_with_mime(&self, ix: usize, mime: &str) -> (r: ActivateOutcome)
        ensures
            r == ActivateOutcome::Quit,
            ix < self.listed().len() ==> exists|request: Request|
                self.asks_for(ix as int, Some(mime@), request) && #[trigger] call_ensures(
                    H::send,
                    (self.asks_by(), request),
                    (),
                ),
    {
        if let Some(request) = self.request_for(ix, Some(mime.to_owned())) {
            let ghost sent = request;
            self.host.send(request);
            assert(call_ensures(H::send, (self.asks_by(), sent), ()));
        }
        ActivateOutcome::Quit
    }

    fn mimes(&self, ix: usize) -> (r: Vec<String>)
        ensures
            text::views(r@) == (if ix < self.listed().len() {
                self.listed()[ix as int].mimes.map_values(|m: (Seq<char>, Seq<u8>)| m.0)
            } else {
                Seq::empty()
            }),
    {
        let mut out: Vec<String> = Vec::new();
        if ix < self.entries.len() {
            let e = &self.entries[ix];
            let mut i: usize = 0;
            while i < e.mimes.len()
                invariant
                    i <= e.mimes@.len(),
                    out@.len() == i,
                    forall|k: int| 0 <= k < i ==> (#[trigger] out@[k])@ == e.mimes@[k].mime@,
                decreases e.mimes.len() - i,
            {
                out.push(e.mimes[i].mime.clone());
                i = i + 1;
            }
            proof {
                assert(text::views(out@) =~= e@.mimes.map_values(|m: (Seq<char>, Seq<u8>)| m.0));
            }
        }
        proof {
            if ix >= self.listed().len() {
                assert(text::views(out@) =~= Seq::<Seq<char>>::empty());
            }
        }
        out
    }

    fn primary_mime(&self, ix: usize) -> (r: Option<String>)
        ensures
            text::opt(r) == (if ix < self.listed().len() {
                Some(self.listed()[ix as int].primary_mime)
            } else {
                None
            }),
    {
        if ix < self.entries.len() {
            Some(self.entries[ix].primary_mime.clone())
        } else {
            None
        }
    }

    fn preview_for_mime(&self, ix: usize, mime: &str) -> (r: Option<Preview>)
        ensures
            if ix < self.listed().len() {
                self.shows(ix as int, mime@, r)
            } else {
                r is None
            },
    {
        self.show(ix, mime)
    }

    fn preview(&self, ix: usize) -> (r: Option<Preview>)
        ensures
            if ix < self.listed().len() {
                self.shows(ix as int, self.listed()[ix as int].primary_mime, r)
            } else {
                r is None
            },
    {
        if ix >= self.entries.len() {
            return None;
        }
        self.show(ix, self.entries[ix].primary_mime.as_str())
    }

    fn layout(&self) -> (r: Layout)
        ensures
            r == Layout::ListAndPreview,
    {
        Layout::ListAndPreview
    }

    fn banner(&self) -> (r: Option<String>)
        ensures
            text::opt(r) == (match self.daemon() {
                (true, _) => None,
                (false, Some(why)) => Some("\u{26a0} zofi-clipd not running: "@ + why),
                (false, None) => Some(
                    "\u{26a0} zofi-clipd not running: "@ + "daemon did not start"@,
                ),
            }),
    {
        self.notice()
    }
}

/// The pictures that can be drawn are PNG and JPEG, by the name in whatever
/// case.
pub proof fn law_drawable_formats(mime: Seq<char>)
    ensures
        format_of(mime) == Some(ImageFormat::Png) <==> text::ascii_lower(mime) == "image/png"@,
        format_of(mime) == Some(ImageFormat::Jpeg) <==> text::ascii_lower(mime) == "image/jpeg"@
            || text::ascii_lower(mime) == "image/jpg"@,
        format_of(mime) != Some(ImageFormat::Svg),
{
    reveal_strlit("image/png");
    reveal_strlit("image/jpeg");
    reveal_strlit("image/jpg");
    assert("image/png"@[6] == 'p' && "image/jpg"@[6] == 'j' && "image/jpeg"@[6] == 'j');
}

/// A text is listed by its preview, an image by its kind and the size of its
/// content; both are found by the preview in lower case.
pub proof fn law_labels(e: EntryView)
    ensures
        e.kind == Kind::Text && e.preview is Some ==> label_of(e) == e.preview->0,
        e.kind == Kind::Text && e.preview is None ==> label_of(e) == "(empty)"@,
        e.kind == Kind::Image ==> label_of(e) == "image \u{b7} "@ + e.primary_mime + " \u{b7} "@
            + numeral::decimal(
            match model::content_of(e.mimes, e.primary_mime) {
                Some(c) => c.len(),
                None => 0,
            },
        ) + " bytes"@,
        e.preview is Some ==> key_of(e) == text::lowercase(e.preview->0),
        e.preview is None ==> key_of(e) == text::lowercase(Seq::empty()),
{
}

} // verus!
