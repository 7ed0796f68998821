//! The daemon's rules: which representation of an offer is taken, what is
//! recorded, what is served, and how requests are answered.

use vstd::prelude::*;
use vstd::string::*;

use std::collections::HashMap;

use crate::clipd::db;
use crate::clipd::model;
use crate::clipd::model::Entry;
use crate::clipd::model::Kind;
use crate::clipd::model::MimeContent;
use crate::clipd::preview;
use crate::sorting;
use crate::text;

verus! {

broadcast use vstd::std_specs::hash::group_hash_axioms;

/// The most bytes of text that are taken.
pub const TEXT_CAP_BYTES: usize = 1_000_000;

/// The most bytes of an image that are taken.
pub const IMAGE_CAP_BYTES: usize = 10_000_000;

/// How many items the history keeps.
pub const DEFAULT_RING_SIZE: usize = 500;

/// Why an offer was dropped.
#[derive(Debug)]
pub enum OfferError {
    /// None of the representations can be used.
    NoMime(Vec<String>),
    /// The representation of this name is empty.
    EmptyContent(String),
    /// The content is longer than this many bytes.
    TooLarge(usize),
}

// ---------------------------------------------------------------------------
// Choosing representations
// ---------------------------------------------------------------------------

/// The first name that is `wanted` but for the case of ASCII letters.
pub open spec fn named(mimes: Seq<Seq<char>>, wanted: Seq<char>) -> Option<Seq<char>>
    decreases mimes.len(),
{
    if mimes.len() == 0 {
        None
    } else if text::ascii_lower(mimes[0]) == text::ascii_lower(wanted) {
        Some(mimes[0])
    } else {
        named(mimes.skip(1), wanted)
    }
}

/// The first name that begins with `image/`.
pub open spec fn any_image(mimes: Seq<Seq<char>>) -> Option<Seq<char>>
    decreases mimes.len(),
{
    if mimes.len() == 0 {
        None
    } else if text::starts_with(mimes[0], "image/"@) {
        Some(mimes[0])
    } else {
        any_image(mimes.skip(1))
    }
}

/// The first of `wanted` that is offered.
pub open spec fn first_named(mimes: Seq<Seq<char>>, wanted: Seq<Seq<char>>) -> Option<Seq<char>>
    decreases wanted.len(),
{
    if wanted.len() == 0 {
        None
    } else {
        match named(mimes, wanted[0]) {
            Some(m) => Some(m),
            None => first_named(mimes, wanted.skip(1)),
        }
    }
}

/// The names of text, best first.
pub open spec fn text_names() -> Seq<Seq<char>> {
    seq![
        "text/plain;charset=utf-8"@,
        "UTF8_STRING"@,
        "text/plain"@,
        "text/html"@,
        "text/uri-list"@,
    ]
}

/// The representation to take: an image where there is one, PNG before JPEG
/// before others, else the best text.
pub open spec fn picked(mimes: Seq<Seq<char>>) -> Option<(Kind, Seq<char>)> {
    let image = match first_named(mimes, seq!["image/png"@, "image/jpeg"@]) {
        Some(m) => Some(m),
        None => any_image(mimes),
    };
    match (image, first_named(mimes, text_names())) {
        (Some(m), _) => Some((Kind::Image, m)),
        (None, Some(m)) => Some((Kind::Text, m)),
        (None, None) => None,
    }
}

fn find_named(mimes: &Vec<String>, wanted: &str) -> (r: Option<String>)
    ensures
        text::opt(r) == named(text::views(mimes@), wanted@),
{
    let ghost all = text::views(mimes@);
    let mut i: usize = 0;
    proof {
        assert(all.skip(0) == all);
    }
    while i < mimes.len()
        invariant
            all == text::views(mimes@),
            i <= mimes@.len(),
            named(all, wanted@) == named(all.skip(i as int), wanted@),
        decreases mimes.len() - i,
    {
        proof {
            assert(all.skip(i as int)[0] == mimes@[i as int]@);
            assert(all.skip(i as int).skip(1) == all.skip(i + 1));
        }
        if text::eq_ignore_ascii_case(mimes[i].as_str(), wanted) {
            return Some(mimes[i].clone());
        }
        i = i + 1;
    }
    None
}

fn find_image(mimes: &Vec<String>) -> (r: Option<String>)
    ensures
        text::opt(r) == any_image(text::views(mimes@)),
{
    let ghost all = text::views(mimes@);
    let mut i: usize = 0;
    proof {
        assert(all.skip(0) == all);
    }
    while i < mimes.len()
        invariant
            all == text::views(mimes@),
            i <= mimes@.len(),
            any_image(all) == any_image(all.skip(i as int)),
        decreases mimes.len() - i,
    {
        proof {
            assert(all.skip(i as int)[0] == mimes@[i as int]@);
            assert(all.skip(i as int).skip(1) == all.skip(i + 1));
        }
        if text::str_starts_with(mimes[i].as_str(), "image/") {
            return Some(mimes[i].clone());
        }
        i = i + 1;
    }
    None
}

fn find_first(mimes: &Vec<String>, wanted: &Vec<&str>) -> (r: Option<String>)
    ensures
        text::opt(r) == first_named(text::views(mimes@), wanted@.map_values(|s: &str| s@)),
{
    let ghost all = wanted@.map_values(|s: &str| s@);
    let ghost offered = text::views(mimes@);
    let mut i: usize = 0;
    proof {
        assert(all.skip(0) == all);
    }
    while i < wanted.len()
        invariant
            all == wanted@.map_values(|s: &str| s@),
            offered == text::views(mimes@),
            i <= wanted@.len(),
            first_named(offered, all) == first_named(offered, all.skip(i as int)),
        decreases wanted.len() - i,
    {
        proof {
            assert(all.skip(i as int)[0] == wanted@[i as int]@);
            assert(all.skip(i as int).skip(1) == all.skip(i + 1));
        }
        let m = find_named(mimes, wanted[i]);
        if m.is_some() {
            return m;
        }
        i = i + 1;
    }
    None
}

/// A picked representation.
pub open spec fn pick_view(p: Option<(Kind, String)>) -> Option<(Kind, Seq<char>)> {
    match p {
        Some((k, m)) => Some((k, m@)),
        None => None,
    }
}

/// Picks the representation to take.
pub fn pick_mime(mimes: &Vec<String>) -> (r: Option<(Kind, String)>)
    ensures
        pick_view(r) == picked(text::views(mimes@)),
{
    let images: Vec<&str> = vec!["image/png", "image/jpeg"];
    proof {
        assert(images@.map_values(|s: &str| s@) =~= seq!["image/png"@, "image/jpeg"@]);
    }
    if let Some(m) = find_first(mimes, &images) {
        return Some((Kind::Image, m));
    }
    if let Some(m) = find_image(mimes) {
        return Some((Kind::Image, m));
    }
    let texts: Vec<&str> = vec![
        "text/plain;charset=utf-8",
        "UTF8_STRING",
        "text/plain",
        "text/html",
        "text/uri-list",
    ];
    proof {
        assert(texts@.map_values(|s: &str| s@) =~= text_names());
    }
    match find_first(mimes, &texts) {
        Some(m) => Some((Kind::Text, m)),
        None => None,
    }
}

/// Whether a representation is worth keeping beside the default one of an
/// item of some kind.
pub open spec fn kept_beside(mime: Seq<char>, kind: Kind) -> bool {
    let m = text::ascii_lower(mime);
    match kind {
        Kind::Text => text::starts_with(m, "text/"@) || m == "utf8_string"@ || m == "string"@,
        Kind::Image => text::starts_with(m, "image/"@),
    }
}

/// Whether a representation is worth keeping beside the default one.
pub fn worth_keeping(mime: &str, kind: Kind) -> (r: bool)
    ensures
        r == kept_beside(mime@, kind),
{
    let m = text::to_ascii_lower(mime);
    match kind {
        Kind::Text => text::str_starts_with(m.as_str(), "text/") || text::str_eq(
            m.as_str(),
            "utf8_string",
        ) || text::str_eq(m.as_str(), "string"),
        Kind::Image => text::str_starts_with(m.as_str(), "image/"),
    }
}

/// The representations to ask for beside the default one, in the order in
/// which they were offered.
pub open spec fn extra_names(
    advertised: Seq<Seq<char>>,
    primary: Seq<char>,
    kind: Kind,
) -> Seq<Seq<char>>
    decreases advertised.len(),
{
    if advertised.len() == 0 {
        Seq::empty()
    } else {
        let rest = extra_names(advertised.drop_last(), primary, kind);
        let m = advertised.last();
        if m == primary || !kept_beside(m, kind) {
            rest
        } else {
            rest.push(m)
        }
    }
}

/// The representations to ask for beside the default one.
pub fn wanted_extras(advertised: &Vec<String>, primary: &str, kind: Kind) -> (r: Vec<String>)
    ensures
        text::views(r@) == extra_names(text::views(advertised@), primary@, kind),
{
    let ghost all = text::views(advertised@);
    let mut out: Vec<String> = Vec::new();
    let mut i: usize = 0;
    proof {
        assert(all.take(0) == Seq::<Seq<char>>::empty());
        assert(text::views(out@) =~= Seq::<Seq<char>>::empty());
    }
    while i < advertised.len()
        invariant
            all == text::views(advertised@),
            i <= advertised@.len(),
            text::views(out@) == extra_names(all.take(i as int), primary@, kind),
        decreases advertised.len() - i,
    {
        let m = advertised[i].as_str();
        proof {
            assert(all.take(i + 1).drop_last() == all.take(i as int));
            assert(all.take(i + 1).last() == m@);
        }
        if !text::str_eq(m, primary) && worth_keeping(m, kind) {
            let ghost had = text::views(out@);
            out.push(advertised[i].clone());
            proof {
                assert(text::views(out@) =~= had.push(m@));
            }
        }
        i = i + 1;
    }
    proof {
        assert(all.take(i as int) == all);
    }
    out
}

/// What came of asking for the extras: those that arrived and are not empty.
pub open spec fn arrived(
    names: Seq<Seq<char>>,
    received: Seq<Option<Seq<u8>>>,
) -> Seq<(Seq<char>, Seq<u8>)>
    decreases names.len(),
{
    if names.len() == 0 || names.len() != received.len() {
        Seq::empty()
    } else {
        let rest = arrived(names.drop_last(), received.drop_last());
        match received.last() {
            Some(c) => if c.len() > 0 {
                rest.push((names.last(), c))
            } else {
                rest
            },
            None => rest,
        }
    }
}

/// Contents behind options.
pub open spec fn opt_contents(v: Seq<Option<Vec<u8>>>) -> Seq<Option<Seq<u8>>> {
    v.map_values(
        |o: Option<Vec<u8>>|
            match o {
                Some(c) => Some(c@),
                None => None,
            },
    )
}

/// Keeps the extras that arrived; `received` holds what came for each name.
pub fn collect_extras(names: &Vec<String>, received: &Vec<Option<Vec<u8>>>) -> (r: Vec<MimeContent>)
    requires
        names@.len() == received@.len(),
    ensures
        model::contents(r@) == arrived(text::views(names@), opt_contents(received@)),
{
    let ghost all = text::views(names@);
    let ghost got = opt_contents(received@);
    let mut out: Vec<MimeContent> = Vec::new();
    let mut i: usize = 0;
    proof {
        assert(model::contents(out@) =~= Seq::<(Seq<char>, Seq<u8>)>::empty());
    }
    while i < names.len()
        invariant
            all == text::views(names@),
            got == opt_contents(received@),
            names@.len() == received@.len(),
            i <= names@.len(),
            model::contents(out@) == arrived(all.take(i as int), got.take(i as int)),
        decreases names.len() - i,
    {
        proof {
            assert(all.take(i + 1).drop_last() == all.take(i as int));
            assert(got.take(i + 1).drop_last() == got.take(i as int));
            assert(all.take(i + 1).last() == names@[i as int]@);
            assert(got.take(i + 1).last() == got[i as int]);
        }
        if let Some(c) = &received[i] {
            if c.len() > 0 {
                let ghost had = model::contents(out@);
                out.push(
                    MimeContent {
                        mime: names[i].clone(),
                        content: vstd::slice::slice_to_vec(c.as_slice()),
                    },
                );
                proof {
                    assert(model::contents(out@) =~= had.push((names@[i as int]@, c@)));
                }
            }
        }
        i = i + 1;
    }
    proof {
        assert(all.take(i as int) == all);
        assert(got.take(i as int) == got);
    }
    out
}

// ---------------------------------------------------------------------------
// Receiving
// ---------------------------------------------------------------------------

/// The most bytes that are taken of an item.
pub open spec fn cap(kind: Kind) -> usize {
    match kind {
        Kind::Text => TEXT_CAP_BYTES,
        Kind::Image => IMAGE_CAP_BYTES,
    }
}

/// The most bytes that are taken of an item.
pub fn cap_of(kind: Kind) -> (r: usize)
    ensures
        r == cap(kind),
{
    match kind {
        Kind::Text => TEXT_CAP_BYTES,
        Kind::Image => IMAGE_CAP_BYTES,
    }
}

/// Content that arrives piece by piece.
#[derive(Debug)]
pub struct Received {
    out: Vec<u8>,
    cap: usize,
}

impl Received {
    /// What has arrived.
    pub closed spec fn bytes(&self) -> Seq<u8> {
        self.out@
    }

    /// The most that may arrive.
    pub closed spec fn limit(&self) -> usize {
        self.cap
    }

    /// No more than the limit has arrived.
    pub open spec fn wf(&self) -> bool {
        self.bytes().len() <= self.limit()
    }

    /// Nothing has arrived yet.
    pub fn new(cap: usize) -> (r: Self)
        ensures
            r.wf(),
            r.bytes().len() == 0,
            r.limit() == cap,
    {
        Received { out: Vec::new(), cap }
    }

    /// Takes a piece; more than the limit is refused.
    pub fn take(&mut self, piece: &[u8]) -> (r: Result<(), OfferError>)
        requires
            old(self).wf(),
        ensures
            final(self).wf(),
            final(self).limit() == old(self).limit(),
            match r {
                Ok(_) => {
                    &&& old(self).bytes().len() + piece@.len() <= old(self).limit()
                    &&& final(self).bytes() == old(self).bytes() + piece@
                },
                Err(e) => {
                    &&& e == OfferError::TooLarge(old(self).limit())
                    &&& old(self).bytes().len() + piece@.len() > old(self).limit()
                    &&& final(self).bytes() == old(self).bytes()
                },
            },
    {
        assert(self.out@.len() == self.out.len());
        if piece.len() > self.cap - self.out.len() {
            return Err(OfferError::TooLarge(self.cap));
        }
        let ghost before = self.out@;
        let mut i: usize = 0;
        while i < piece.len()
            invariant
                i <= piece@.len(),
                self.out@ =~= before + piece@.take(i as int),
                self.cap == old(self).cap,
            decreases piece.len() - i,
        {
            self.out.push(piece[i]);
            i = i + 1;
        }
        proof {
            assert(piece@.take(i as int) == piece@);
        }
        Ok(())
    }

    /// All that has arrived.
    pub fn finish(self) -> (r: Vec<u8>)
        ensures
            r@ == self.bytes(),
    {
        self.out
    }
}

// ---------------------------------------------------------------------------
// The daemon's state
// ---------------------------------------------------------------------------

/// What the daemon knows of offers and what it serves.
pub struct State {
    offer_mimes: HashMap<u32, Vec<String>>,
    pending: Option<u32>,
    held_source: Option<u32>,
    held_mime: String,
    held_content: Vec<u8>,
    expect_self_hash: Option<[u8; 32]>,
}

#[verifier::ext_equal]
pub struct StateView {
    /// The names that each offer advertised.
    pub offers: Map<u32, Seq<Seq<char>>>,
    /// The selection that was not looked at yet.
    pub pending: Option<u32>,
    /// The source through which the daemon serves a selection.
    pub held_source: Option<u32>,
    pub held_mime: Seq<char>,
    pub held_content: Seq<u8>,
    /// The hash of what the daemon serves itself.
    pub expect_self_hash: Option<[u8; 32]>,
}

impl View for State {
    type V = StateView;

    closed spec fn view(&self) -> StateView {
        StateView {
            offers: self.offer_mimes@.map_values(|v: Vec<String>| text::views(v@)),
            pending: self.pending,
            held_source: self.held_source,
            held_mime: self.held_mime@,
            held_content: self.held_content@,
            expect_self_hash: self.expect_self_hash,
        }
    }
}

impl StateView {
    /// The names that an offer advertised; none of an offer that is not known.
    pub open spec fn names_of(self, offer: u32) -> Seq<Seq<char>> {
        if self.offers.contains_key(offer) {
            self.offers[offer]
        } else {
            Seq::empty()
        }
    }

    /// While `content` is served through `source`.
    pub open spec fn held(self, source: u32, mime: Seq<char>, content: Seq<u8>) -> StateView {
        StateView {
            held_source: Some(source),
            held_mime: mime,
            held_content: content,
            expect_self_hash: Some(db::blake3_hash(content)),
            ..self
        }
    }

    /// After `source` stopped being the selection.
    pub open spec fn cancelled(self, source: u32) -> StateView {
        if self.held_source == Some(source) {
            StateView {
                held_source: None,
                held_mime: Seq::empty(),
                held_content: Seq::empty(),
                expect_self_hash: None,
                ..self
            }
        } else {
            self
        }
    }

    /// Whether content with this hash is recorded.
    pub open spec fn records(self, hash: [u8; 32]) -> bool {
        self.expect_self_hash != Some(hash)
    }
}

/// What to do when content is asked for.
#[derive(Debug)]
pub enum SendAction {
    /// The source is not the one that serves.
    Ignore,
    /// Write this.
    Serve(Vec<u8>),
    /// Another representation was asked for: close.
    Close,
}

fn same_hash(a: &[u8; 32], b: &[u8; 32]) -> (r: bool)
    ensures
        r == (*a == *b),
{
    let mut i: usize = 0;
    while i < 32
        invariant
            i <= 32,
            forall|k: int| 0 <= k < i ==> a[k] == b[k],
        decreases 32 - i,
    {
        if a[i] != b[i] {
            return false;
        }
        i = i + 1;
    }
    proof {
        assert(a@ =~= b@);
        assert(*a =~= *b);
    }
    true
}

impl State {
    /// Nothing offered, nothing served.
    pub fn new() -> (r: Self)
        ensures
            r@ == (StateView {
                offers: Map::empty(),
                pending: None,
                held_source: None,
                held_mime: Seq::empty(),
                held_content: Seq::empty(),
                expect_self_hash: None,
            }),
    {
        let r = State {
            offer_mimes: HashMap::new(),
            pending: None,
            held_source: None,
            held_mime: String::new(),
            held_content: Vec::new(),
            expect_self_hash: None,
        };
        proof {
            assert(r@.offers =~= Map::<u32, Seq<Seq<char>>>::empty());
        }
        r
    }

    /// A new offer, which has advertised nothing yet.
    pub fn data_offer(&mut self, offer: u32)
        ensures
            final(self)@ == (StateView {
                offers: old(self)@.offers.insert(offer, Seq::empty()),
                ..old(self)@
            }),
    {
        let ghost before = self@;
        let names: Vec<String> = Vec::new();
        proof {
            assert(text::views(names@) =~= Seq::<Seq<char>>::empty());
        }
        self.offer_mimes.insert(offer, names);
        proof {
            assert(self@.offers =~= before.offers.insert(offer, Seq::empty()));
        }
    }

    /// An offer advertises a representation.
    pub fn offer(&mut self, offer: u32, mime: String)
        ensures
            final(self)@ == (StateView {
                offers: old(self)@.offers.insert(offer, old(self)@.names_of(offer).push(mime@)),
                ..old(self)@
            }),
    {
        let ghost before = self@;
        let mut names: Vec<String> = match self.offer_mimes.remove(&offer) {
            Some(v) => v,
            None => Vec::new(),
        };
        let ghost had = text::views(names@);
        proof {
            if !before.offers.contains_key(offer) {
                assert(had =~= Seq::<Seq<char>>::empty());
            }
            assert(had == before.names_of(offer));
        }
        names.push(mime);
        proof {
            assert(text::views(names@) =~= had.push(mime@));
        }
        self.offer_mimes.insert(offer, names);
        proof {
            assert(self@.offers =~= before.offers.insert(offer, had.push(mime@)));
        }
    }

    /// An offer became the selection.
    pub fn selection(&mut self, offer: u32)
        ensures
            final(self)@ == (StateView { pending: Some(offer), ..old(self)@ }),
    {
        self.pending = Some(offer);
    }

    /// Takes the selection to look at, with what it advertised.
    pub fn take_pending(&mut self) -> (r: Option<(u32, Vec<String>)>)
        ensures
            final(self)@ == (StateView { pending: None, ..old(self)@ }),
            match r {
                Some((offer, names)) => {
                    &&& old(self)@.pending == Some(offer)
                    &&& text::views(names@) == old(self)@.names_of(offer)
                },
                None => old(self)@.pending is None,
            },
    {
        match self.pending {
            Some(offer) => {
                self.pending = None;
                let names: Vec<String> = match self.offer_mimes.get(&offer) {
                    Some(v) => clone_names(v),
                    None => {
                        let none: Vec<String> = Vec::new();
                        proof {
                            assert(text::views(none@) =~= Seq::<Seq<char>>::empty());
                        }
                        none
                    },
                };
                Some((offer, names))
            },
            None => None,
        }
    }

    /// Forgets an offer.
    pub fn forget(&mut self, offer: u32)
        ensures
            final(self)@ == (StateView { offers: old(self)@.offers.remove(offer), ..old(self)@ }),
    {
        let ghost before = self@;
        self.offer_mimes.remove(&offer);
        proof {
            assert(self@.offers =~= before.offers.remove(offer));
        }
    }

    /// Whether content with the hash `hash`, read from the representation
    /// `mime`, is to be recorded: the daemon's own selection comes back as an
    /// offer and is passed over.
    pub fn judge(&self, mime: &str, content: &[u8], hash: [u8; 32]) -> (r: Result<
        bool,
        OfferError,
    >)
        ensures
            match r {
                Ok(record) => {
                    &&& content@.len() > 0
                    &&& record == self@.records(hash)
                },
                Err(e) => {
                    &&& content@.len() == 0
                    &&& e matches OfferError::EmptyContent(m) && m@ == mime@
                },
            },
    {
        if content.len() == 0 {
            return Err(OfferError::EmptyContent(mime.to_owned()));
        }
        match &self.expect_self_hash {
            Some(h) => Ok(!same_hash(h, &hash)),
            None => Ok(true),
        }
    }

    /// [`State::judge`] by the content's own hash.
    pub fn judge_content(&self, mime: &str, content: &[u8]) -> (r: Result<bool, OfferError>)
        ensures
            match r {
                Ok(record) => {
                    &&& content@.len() > 0
                    &&& record == self@.records(db::blake3_hash(content@))
                },
                Err(e) => {
                    &&& content@.len() == 0
                    &&& e matches OfferError::EmptyContent(m) && m@ == mime@
                },
            },
    {
        self.judge(mime, content, db::content_hash(content))
    }

    /// Serves `content` through the new source; returns the source that it
    /// replaces.
    pub fn hold_selection(&mut self, source: u32, mime: String, content: Vec<u8>) -> (prev: Option<
        u32,
    >)
        ensures
            final(self)@ == old(self)@.held(source, mime@, content@),
            prev == old(self)@.held_source,
    {
        let prev = self.held_source;
        self.expect_self_hash = Some(db::content_hash(content.as_slice()));
        self.held_mime = mime;
        self.held_content = content;
        self.held_source = Some(source);
        prev
    }

    /// Content is asked for.
    pub fn on_send(&self, source: u32, mime: &str) -> (r: SendAction)
        ensures
            if self@.held_source != Some(source) {
                r is Ignore
            } else if mime@ == self@.held_mime {
                r matches SendAction::Serve(c) && c@ == self@.held_content
            } else {
                r is Close
            },
    {
        let serves = match self.held_source {
            Some(s) => s == source,
            None => false,
        };
        if !serves {
            SendAction::Ignore
        } else if text::str_eq(mime, self.held_mime.as_str()) {
            SendAction::Serve(vstd::slice::slice_to_vec(self.held_content.as_slice()))
        } else {
            SendAction::Close
        }
    }

    /// A source is no longer the selection; returns whether it has to be
    /// destroyed.
    pub fn on_cancelled(&mut self, source: u32) -> (r: bool)
        ensures
            r == (old(self)@.held_source == Some(source)),
            final(self)@ == old(self)@.cancelled(source),
    {
        let serves = match self.held_source {
            Some(s) => s == source,
            None => false,
        };
        if serves {
            self.held_source = None;
            self.held_content = Vec::new();
            self.held_mime = String::new();
            self.expect_self_hash = None;
        }
        serves
    }
}

fn clone_names(v: &Vec<String>) -> (r: Vec<String>)
    ensures
        text::views(r@) == text::views(v@),
{
    let mut out: Vec<String> = Vec::new();
    let mut i: usize = 0;
    while i < v.len()
        invariant
            i <= v@.len(),
            out@.len() == i,
            forall|k: int| 0 <= k < i ==> (#[trigger] out@[k])@ == v@[k]@,
        decreases v.len() - i,
    {
        out.push(v[i].clone());
        i = i + 1;
    }
    proof {
        assert(text::views(out@) =~= text::views(v@));
    }
    out
}

/// Chooses what to take of an offer.
pub fn choose_offer(mimes: Vec<String>) -> (r: Result<(Kind, String), OfferError>)
    ensures
        match r {
            Ok((kind, mime)) => picked(text::views(mimes@)) == Some((kind, mime@)),
            Err(e) => {
                &&& picked(text::views(mimes@)) is None
                &&& e == OfferError::NoMime(mimes)
            },
        },
{
    match pick_mime(&mimes) {
        Some(p) => Ok(p),
        None => Err(OfferError::NoMime(mimes)),
    }
}

/// The preview of an item: only text has one.
pub fn preview_for(kind: Kind, content: &[u8]) -> (r: Option<String>)
    ensures
        text::opt(r) == (match kind {
            Kind::Text => Some(preview::preview_of(text::utf8_lossy(content@))),
            Kind::Image => None,
        }),
{
    match kind {
        Kind::Text => Some(preview::build_from_bytes(content)),
        Kind::Image => None,
    }
}

// ---------------------------------------------------------------------------
// Requests
// ---------------------------------------------------------------------------

/// What a client asks for.
#[derive(Debug)]
pub enum Request {
    /// Serve an item again, by one of its representations or by the default
    /// one.
    Activate { uuid: String, mime: Option<String> },
    /// Record `bytes` as a new item and serve it.
    SetSelection { mime: String, bytes: Vec<u8> },
}

/// What a client is told.
#[derive(Debug)]
pub enum Response {
    Done,
    Error { message: String },
}

/// The message of an error.
pub open spec fn message_of(r: Response) -> Option<Seq<char>> {
    match r {
        Response::Done => None,
        Response::Error { message } => Some(message@),
    }
}

/// What looking for an item gave.
#[derive(Debug)]
pub enum Lookup {
    Found(Entry),
    Missing,
    /// Looking failed, for this reason.
    Failed(String),
}

fn error2(a: &str, b: &str) -> (r: Response)
    ensures
        message_of(r) == Some(a@ + b@),
{
    Response::Error { message: text::concat2(a, b) }
}

/// The representation that a request to serve an item means.
pub open spec fn target_mime(mime: Option<Seq<char>>, primary: Seq<char>) -> Seq<char> {
    match mime {
        Some(m) => m,
        None => primary,
    }
}

/// Decides on a request to serve the item `uuid`: what to serve, once the item
/// was marked as used, or the answer.
pub fn activate(uuid: &str, mime: Option<String>, found: Lookup) -> (r: Result<
    (String, Vec<u8>),
    Response,
>)
    ensures
        match found {
            Lookup::Found(e) => {
                let target = target_mime(text::opt(mime), e.primary_mime@);
                match (r, model::content_of(e@.mimes, target)) {
                    (Ok((m, c)), Some(content)) => m@ == target && c@ == content,
                    (Err(resp), None) => message_of(resp) == Some(
                        "mime "@ + target + " not stored for "@ + uuid@,
                    ),
                    _ => false,
                }
            },
            Lookup::Missing => r matches Err(resp) && message_of(resp) == Some(
                "uuid "@ + uuid@ + " not found"@,
            ),
            Lookup::Failed(why) => r matches Err(resp) && message_of(resp) == Some(
                "db get: "@ + why@,
            ),
        },
{
    match found {
        Lookup::Found(entry) => {
            let target = match mime {
                Some(m) => m,
                None => entry.primary_mime.clone(),
            };
            match entry.content_for(target.as_str()) {
                Some(c) => {
                    let content = vstd::slice::slice_to_vec(c);
                    Ok((target, content))
                },
                None => {
                    let mut message = "mime ".to_owned();
                    message.push_str(target.as_str());
                    message.push_str(" not stored for ");
                    message.push_str(uuid);
                    Err(Response::Error { message })
                },
            }
        },
        Lookup::Missing => {
            let mut message = "uuid ".to_owned();
            message.push_str(uuid);
            message.push_str(" not found");
            Err(Response::Error { message })
        },
        Lookup::Failed(why) => Err(error2("db get: ", why.as_str())),
    }
}

/// The answer after an item was marked as used: an error says why that failed,
/// and then nothing is served.
pub fn after_touch(failure: Option<String>) -> (r: Response)
    ensures
        message_of(r) == (match text::opt(failure) {
            Some(why) => Some("touch: "@ + why),
            None => None,
        }),
{
    match failure {
        Some(why) => error2("touch: ", why.as_str()),
        None => Response::Done,
    }
}

/// The kind of an item that a client hands over.
pub fn kind_of(mime: &str) -> (r: Kind)
    ensures
        r == (if kept_beside(mime@, Kind::Image) {
            Kind::Image
        } else {
            Kind::Text
        }),
{
    if worth_keeping(mime, Kind::Image) {
        Kind::Image
    } else {
        Kind::Text
    }
}

/// The answer after an item that a client handed over was recorded.
pub fn after_record(failure: Option<String>) -> (r: Response)
    ensures
        message_of(r) == (match text::opt(failure) {
            Some(why) => Some("record: "@ + why),
            None => None,
        }),
{
    match failure {
        Some(why) => error2("record: ", why.as_str()),
        None => Response::Done,
    }
}

// ---------------------------------------------------------------------------
// Laws
// ---------------------------------------------------------------------------

/// What the daemon serves is not recorded when it comes back as an offer,
/// however often, until its own source is cancelled; then everything is.
pub proof fn law_own_selection_is_passed_over(
    s: StateView,
    source: u32,
    mime: Seq<char>,
    content: Seq<u8>,
    other: u32,
    hash: [u8; 32],
)
    requires
        other != source,
    ensures
        !s.held(source, mime, content).records(db::blake3_hash(content)),
        !s.held(source, mime, content).cancelled(other).records(db::blake3_hash(content)),
        s.held(source, mime, content).cancelled(source).records(hash),
{
}

/// An image is preferred: no text is picked from an offer that has an image.
pub proof fn law_images_come_first(mimes: Seq<Seq<char>>, i: int)
    requires
        0 <= i < mimes.len(),
        text::starts_with(mimes[i], "image/"@),
    ensures
        match picked(mimes) {
            Some((kind, _)) => kind == Kind::Image,
            None => false,
        },
{
    lemma_any_image(mimes, i);
}

proof fn lemma_any_image(mimes: Seq<Seq<char>>, i: int)
    requires
        0 <= i < mimes.len(),
        text::starts_with(mimes[i], "image/"@),
    ensures
        any_image(mimes) is Some,
    decreases mimes.len(),
{
    if !text::starts_with(mimes[0], "image/"@) {
        assert(mimes.skip(1)[i - 1] == mimes[i]);
        lemma_any_image(mimes.skip(1), i - 1);
    }
}

/// What is picked was offered.
pub proof fn law_picked_is_offered(mimes: Seq<Seq<char>>)
    ensures
        match picked(mimes) {
            Some((_, m)) => mimes.contains(m),
            None => true,
        },
{
    lemma_first_named_offered(mimes, seq!["image/png"@, "image/jpeg"@]);
    lemma_first_named_offered(mimes, text_names());
    lemma_any_image_offered(mimes);
}

proof fn lemma_named_offered(mimes: Seq<Seq<char>>, wanted: Seq<char>)
    ensures
        match named(mimes, wanted) {
            Some(m) => mimes.contains(m),
            None => true,
        },
    decreases mimes.len(),
{
    if mimes.len() > 0 {
        if text::ascii_lower(mimes[0]) == text::ascii_lower(wanted) {
            assert(mimes.contains(mimes[0]));
        } else {
            lemma_named_offered(mimes.skip(1), wanted);
            if let Some(m) = named(mimes.skip(1), wanted) {
                let k = choose|k: int| 0 <= k < mimes.skip(1).len() && mimes.skip(1)[k] == m;
                assert(mimes[k + 1] == m);
            }
        }
    }
}

proof fn lemma_first_named_offered(mimes: Seq<Seq<char>>, wanted: Seq<Seq<char>>)
    ensures
        match first_named(mimes, wanted) {
            Some(m) => mimes.contains(m),
            None => true,
        },
    decreases wanted.len(),
{
    if wanted.len() > 0 {
        lemma_named_offered(mimes, wanted[0]);
        lemma_first_named_offered(mimes, wanted.skip(1));
    }
}

proof fn lemma_any_image_offered(mimes: Seq<Seq<char>>)
    ensures
        match any_image(mimes) {
            Some(m) => mimes.contains(m),
            None => true,
        },
    decreases mimes.len(),
{
    if mimes.len() > 0 {
        if text::starts_with(mimes[0], "image/"@) {
            assert(mimes.contains(mimes[0]));
        } else {
            lemma_any_image_offered(mimes.skip(1));
            if let Some(m) = any_image(mimes.skip(1)) {
                let k = choose|k: int| 0 <= k < mimes.skip(1).len() && mimes.skip(1)[k] == m;
                assert(mimes[k + 1] == m);
            }
        }
    }
}

/// Whether name number `k` is `wanted` but for the case of ASCII letters, and
/// is the first such name.
pub open spec fn is_first_like(mimes: Seq<Seq<char>>, wanted: Seq<char>, k: int) -> bool {
    &&& 0 <= k < mimes.len()
    &&& text::ascii_lower(mimes[k]) == text::ascii_lower(wanted)
    &&& forall|j: int|
        0 <= j < k ==> text::ascii_lower(#[trigger] mimes[j]) != text::ascii_lower(wanted)
}

/// Whether no name is `wanted`, whatever the case of its ASCII letters.
pub open spec fn none_like(mimes: Seq<Seq<char>>, wanted: Seq<char>) -> bool {
    forall|j: int|
        0 <= j < mimes.len() ==> text::ascii_lower(#[trigger] mimes[j]) != text::ascii_lower(wanted)
}

proof fn lemma_first_like(mimes: Seq<Seq<char>>, wanted: Seq<char>)
    ensures
        forall|k: int| #[trigger]
            is_first_like(mimes, wanted, k) ==> named(mimes, wanted) == Some(mimes[k]),
        none_like(mimes, wanted) <==> named(mimes, wanted) is None,
    decreases mimes.len(),
{
    if mimes.len() > 0 {
        let t = mimes.skip(1);
        lemma_first_like(t, wanted);
        assert forall|k: int| #[trigger] is_first_like(mimes, wanted, k) implies named(
            mimes,
            wanted,
        ) == Some(mimes[k]) by {
            if k > 0 {
                assert(text::ascii_lower(mimes[0]) != text::ascii_lower(wanted));
                assert forall|j: int| 0 <= j < k - 1 implies text::ascii_lower(#[trigger] t[j])
                    != text::ascii_lower(wanted) by {
                    assert(t[j] == mimes[j + 1]);
                }
                assert(is_first_like(t, wanted, k - 1));
            }
        }
        if named(mimes, wanted) is None {
            assert forall|j: int| 0 <= j < mimes.len() implies text::ascii_lower(
                #[trigger] mimes[j],
            ) != text::ascii_lower(wanted) by {
                if j > 0 {
                    assert(t[j - 1] == mimes[j]);
                }
            }
        }
        if none_like(mimes, wanted) {
            assert(text::ascii_lower(mimes[0]) != text::ascii_lower(wanted));
            assert forall|j: int| 0 <= j < t.len() implies text::ascii_lower(#[trigger] t[j])
                != text::ascii_lower(wanted) by {
                assert(t[j] == mimes[j + 1]);
            }
        }
    }
}

proof fn lemma_first_image(mimes: Seq<Seq<char>>)
    ensures
        (forall|j: int|
            0 <= j < mimes.len() ==> !("image/"@).is_prefix_of(#[trigger] mimes[j])) <==> any_image(
            mimes,
        ) is None,
        forall|k: int|
            {
                &&& 0 <= k < mimes.len()
                &&& ("image/"@).is_prefix_of(#[trigger] mimes[k])
                &&& forall|j: int| 0 <= j < k ==> !("image/"@).is_prefix_of(#[trigger] mimes[j])
            } ==> any_image(mimes) == Some(mimes[k]),
    decreases mimes.len(),
{
    let p = "image/"@;
    assert forall|s: Seq<char>| #[trigger] text::starts_with(s, p) == p.is_prefix_of(s) by {
        text::law_places_of_a_text(s, p);
        if text::starts_with(s, p) {
            assert(s.subrange(0, p.len() as int) =~= p);
            assert(p.is_prefix_of(s));
        }
        if p.is_prefix_of(s) {
            assert(s.subrange(0, p.len() as int) =~= p);
        }
    }
    if mimes.len() > 0 {
        let t = mimes.skip(1);
        lemma_first_image(t);
        assert(text::starts_with(mimes[0], p) == p.is_prefix_of(mimes[0]));
        if !p.is_prefix_of(mimes[0]) {
            if any_image(t) is None {
                assert forall|j: int| 0 <= j < mimes.len() implies !p.is_prefix_of(
                    #[trigger] mimes[j],
                ) by {
                    if j > 0 {
                        assert(t[j - 1] == mimes[j]);
                    }
                }
            }
            if forall|j: int| 0 <= j < mimes.len() ==> !p.is_prefix_of(#[trigger] mimes[j]) {
                assert forall|j: int| 0 <= j < t.len() implies !p.is_prefix_of(#[trigger] t[j]) by {
                    assert(t[j] == mimes[j + 1]);
                }
            }
            assert forall|k: int|
                {
                    &&& 0 <= k < mimes.len()
                    &&& p.is_prefix_of(#[trigger] mimes[k])
                    &&& forall|j: int| 0 <= j < k ==> !p.is_prefix_of(#[trigger] mimes[j])
                } implies any_image(mimes) == Some(mimes[k]) by {
                assert(t[k - 1] == mimes[k]);
                assert forall|j: int| 0 <= j < k - 1 implies !p.is_prefix_of(#[trigger] t[j]) by {
                    assert(t[j] == mimes[j + 1]);
                }
            }
        } else {
            assert(any_image(mimes) == Some(mimes[0]));
        }
    }
}

/// From an offer with images a PNG is taken, else a JPEG, else the first image
/// of any kind; and it is taken as an image.
pub proof fn law_best_image_is_picked(mimes: Seq<Seq<char>>, k: int)
    ensures
        is_first_like(mimes, "image/png"@, k) ==> picked(mimes) == Some((Kind::Image, mimes[k])),
        none_like(mimes, "image/png"@) && is_first_like(mimes, "image/jpeg"@, k) ==> picked(mimes)
            == Some((Kind::Image, mimes[k])),
        ({
            &&& none_like(mimes, "image/png"@)
            &&& none_like(mimes, "image/jpeg"@)
            &&& 0 <= k < mimes.len()
            &&& ("image/"@).is_prefix_of(mimes[k])
            &&& forall|j: int| 0 <= j < k ==> !("image/"@).is_prefix_of(#[trigger] mimes[j])
        }) ==> picked(mimes) == Some((Kind::Image, mimes[k])),
{
    reveal_with_fuel(first_named, 3);
    lemma_first_like(mimes, "image/png"@);
    lemma_first_like(mimes, "image/jpeg"@);
    lemma_first_image(mimes);
}

/// From an offer without images the best text is taken, as text: one that is
/// `text/plain;charset=utf-8`, else `UTF8_STRING`, else `text/plain`, else
/// `text/html`, else `text/uri-list`, in whatever case, the first of several.
/// Nothing is taken exactly if none of these is offered.
pub proof fn law_best_text_is_picked(mimes: Seq<Seq<char>>, k: int)
    requires
        none_like(mimes, "image/png"@),
        none_like(mimes, "image/jpeg"@),
        forall|j: int| 0 <= j < mimes.len() ==> !("image/"@).is_prefix_of(#[trigger] mimes[j]),
    ensures
        is_first_like(mimes, "text/plain;charset=utf-8"@, k) ==> picked(mimes) == Some(
            (Kind::Text, mimes[k]),
        ),
        none_like(mimes, "text/plain;charset=utf-8"@) && is_first_like(mimes, "UTF8_STRING"@, k)
            ==> picked(mimes) == Some((Kind::Text, mimes[k])),
        none_like(mimes, "text/plain;charset=utf-8"@) && none_like(mimes, "UTF8_STRING"@)
            && is_first_like(mimes, "text/plain"@, k) ==> picked(mimes) == Some(
            (Kind::Text, mimes[k]),
        ),
        none_like(mimes, "text/plain;charset=utf-8"@) && none_like(mimes, "UTF8_STRING"@)
            && none_like(mimes, "text/plain"@) && is_first_like(mimes, "text/html"@, k) ==> picked(
            mimes,
        ) == Some((Kind::Text, mimes[k])),
        none_like(mimes, "text/plain;charset=utf-8"@) && none_like(mimes, "UTF8_STRING"@)
            && none_like(mimes, "text/plain"@) && none_like(mimes, "text/html"@) && is_first_like(
            mimes,
            "text/uri-list"@,
            k,
        ) ==> picked(mimes) == Some((Kind::Text, mimes[k])),
        picked(mimes) is None <==> {
            &&& none_like(mimes, "text/plain;charset=utf-8"@)
            &&& none_like(mimes, "UTF8_STRING"@)
            &&& none_like(mimes, "text/plain"@)
            &&& none_like(mimes, "text/html"@)
            &&& none_like(mimes, "text/uri-list"@)
        },
{
    reveal_with_fuel(first_named, 6);
    lemma_first_like(mimes, "image/png"@);
    lemma_first_like(mimes, "image/jpeg"@);
    lemma_first_image(mimes);
    lemma_first_like(mimes, "text/plain;charset=utf-8"@);
    lemma_first_like(mimes, "UTF8_STRING"@);
    lemma_first_like(mimes, "text/plain"@);
    lemma_first_like(mimes, "text/html"@);
    lemma_first_like(mimes, "text/uri-list"@);
}

/// Beside text every other text is kept, beside an image every other image, by
/// what the name begins with, whatever its case.
pub proof fn law_what_is_kept_beside(mime: Seq<char>)
    ensures
        kept_beside(mime, Kind::Image) <==> ("image/"@).is_prefix_of(text::ascii_lower(mime)),
        kept_beside(mime, Kind::Text) <==> {
            ||| ("text/"@).is_prefix_of(text::ascii_lower(mime))
            ||| text::ascii_lower(mime) == "utf8_string"@
            ||| text::ascii_lower(mime) == "string"@
        },
{
    text::law_places_of_a_text(text::ascii_lower(mime), "image/"@);
    text::law_places_of_a_text(text::ascii_lower(mime), "text/"@);
}

/// The extra names that are asked for are exactly those advertised that are
/// kept beside the item, but for the item's own.
pub proof fn law_extras_are_the_kept_ones(advertised: Seq<Seq<char>>, primary: Seq<char>, kind: Kind)
    ensures
        forall|m: Seq<char>| #[trigger]
            extra_names(advertised, primary, kind).contains(m) <==> advertised.contains(m) && m
                != primary && kept_beside(m, kind),
    decreases advertised.len(),
{
    if advertised.len() > 0 {
        let t = advertised.drop_last();
        law_extras_are_the_kept_ones(t, primary, kind);
        assert(t.push(advertised.last()) =~= advertised);
        sorting::lemma_push_holds(t, advertised.last());
        sorting::lemma_push_holds(extra_names(t, primary, kind), advertised.last());
    }
}

/// Each extra that arrived with content is kept under its name, and nothing
/// else is.
pub proof fn law_arrived_extras_are_kept(names: Seq<Seq<char>>, received: Seq<Option<Seq<u8>>>)
    requires
        names.len() == received.len(),
    ensures
        forall|e: (Seq<char>, Seq<u8>)| #[trigger]
            arrived(names, received).contains(e) <==> exists|k: int|
                0 <= k < names.len() && #[trigger] names[k] == e.0 && received[k] == Some(e.1)
                    && e.1.len() > 0,
    decreases names.len(),
{
    if names.len() > 0 {
        let n = names.len() - 1;
        let a = names.drop_last();
        let b = received.drop_last();
        law_arrived_extras_are_kept(a, b);
        assert(names[n] == names.last() && received[n] == received.last());
        if let Some(c) = received.last() {
            sorting::lemma_push_holds(arrived(a, b), (names.last(), c));
        }
        assert forall|e: (Seq<char>, Seq<u8>)| #[trigger] arrived(names, received).contains(
            e,
        ) <==> exists|k: int|
            0 <= k < names.len() && #[trigger] names[k] == e.0 && received[k] == Some(e.1)
                && e.1.len() > 0 by {
            if arrived(a, b).contains(e) {
                let k = choose|k: int|
                    0 <= k < a.len() && #[trigger] a[k] == e.0 && b[k] == Some(e.1) && e.1.len()
                        > 0;
                assert(names[k] == a[k] && received[k] == b[k]);
            }
            if exists|k: int|
                0 <= k < names.len() && #[trigger] names[k] == e.0 && received[k] == Some(e.1)
                    && e.1.len() > 0 {
                let k = choose|k: int|
                    0 <= k < names.len() && #[trigger] names[k] == e.0 && received[k] == Some(e.1)
                        && e.1.len() > 0;
                if k < n {
                    assert(a[k] == names[k] && b[k] == received[k]);
                }
            }
        }
    }
}

/// Text may have a million bytes, an image ten million.
pub proof fn law_caps()
    ensures
        cap(Kind::Text) == 1_000_000,
        cap(Kind::Image) == 10_000_000,
{
}

/// What the daemon serves is what it was given last, and it expects to see just
/// that again. A source that is cancelled stops the serving if it is the one
/// that serves, and changes nothing else.
pub proof fn law_served_until_cancelled(
    s: StateView,
    source: u32,
    other: u32,
    mime: Seq<char>,
    content: Seq<u8>,
)
    ensures
        ({
            let t = s.held(source, mime, content);
            &&& t.held_source == Some(source)
            &&& t.held_mime == mime
            &&& t.held_content == content
            &&& !t.records(db::blake3_hash(content))
            &&& forall|h: [u8; 32]| h != db::blake3_hash(content) ==> #[trigger] t.records(h)
            &&& t.offers == s.offers && t.pending == s.pending
            &&& other != source ==> t.cancelled(other) == t
            &&& t.cancelled(source).held_source is None
            &&& t.cancelled(source).held_content.len() == 0
            &&& forall|h: [u8; 32]| #[trigger] t.cancelled(source).records(h)
            &&& t.cancelled(source).offers == s.offers && t.cancelled(source).pending == s.pending
        }),
{
}

/// A representation that is asked for by name is that one; else it is the
/// item's own.
pub proof fn law_target_representation(mime: Option<Seq<char>>, primary: Seq<char>)
    ensures
        mime is Some ==> target_mime(mime, primary) == mime->0,
        mime is None ==> target_mime(mime, primary) == primary,
{
}

/// Of an offer without images the best text is taken, as text: one that is
/// `text/plain;charset=utf-8` but for case, else one that is `UTF8_STRING`, else
/// `text/plain`, else `text/html`, else `text/uri-list`; and nothing exactly if
/// none of these is offered.
pub proof fn law_offer_without_images(mimes: Vec<String>, r: Option<(Kind, String)>, k: int)
    requires
        call_ensures(pick_mime, (&mimes,), r),
        none_like(text::views(mimes@), "image/png"@),
        none_like(text::views(mimes@), "image/jpeg"@),
        forall|j: int| 0 <= j < mimes@.len() ==> !("image/"@).is_prefix_of((#[trigger] mimes@[j])@),
    ensures
        ({
            let v = text::views(mimes@);
            let taken = r matches Some(p) && p.0 == Kind::Text && p.1@ == v[k];
            &&& is_first_like(v, "text/plain;charset=utf-8"@, k) ==> taken
            &&& none_like(v, "text/plain;charset=utf-8"@) && is_first_like(v, "UTF8_STRING"@, k)
                ==> taken
            &&& none_like(v, "text/plain;charset=utf-8"@) && none_like(v, "UTF8_STRING"@)
                && is_first_like(v, "text/plain"@, k) ==> taken
            &&& none_like(v, "text/plain;charset=utf-8"@) && none_like(v, "UTF8_STRING"@)
                && none_like(v, "text/plain"@) && is_first_like(v, "text/html"@, k) ==> taken
            &&& none_like(v, "text/plain;charset=utf-8"@) && none_like(v, "UTF8_STRING"@)
                && none_like(v, "text/plain"@) && none_like(v, "text/html"@) && is_first_like(
                v,
                "text/uri-list"@,
                k,
            ) ==> taken
            &&& r is None <==> none_like(v, "text/plain;charset=utf-8"@) && none_like(
                v,
                "UTF8_STRING"@,
            ) && none_like(v, "text/plain"@) && none_like(v, "text/html"@) && none_like(
                v,
                "text/uri-list"@,
            )
        }),
{
    let v = text::views(mimes@);
    assert forall|j: int| 0 <= j < v.len() implies !("image/"@).is_prefix_of(#[trigger] v[j]) by {
        assert(v[j] == mimes@[j]@);
    }
    law_best_text_is_picked(v, k);
}

/// Of an offer with images an image is taken, as an image: a PNG, else a JPEG,
/// else the first of any kind.
pub proof fn law_offer_with_images(mimes: Vec<String>, r: Option<(Kind, String)>, k: int)
    requires
        call_ensures(pick_mime, (&mimes,), r),
    ensures
        ({
            let v = text::views(mimes@);
            let taken = r matches Some(p) && p.0 == Kind::Image && p.1@ == v[k];
            &&& is_first_like(v, "image/png"@, k) ==> taken
            &&& none_like(v, "image/png"@) && is_first_like(v, "image/jpeg"@, k) ==> taken
            &&& ({
                &&& none_like(v, "image/png"@)
                &&& none_like(v, "image/jpeg"@)
                &&& 0 <= k < v.len()
                &&& ("image/"@).is_prefix_of(v[k])
                &&& forall|j: int| 0 <= j < k ==> !("image/"@).is_prefix_of(#[trigger] v[j])
            }) ==> taken
        }),
{
    law_best_image_is_picked(text::views(mimes@), k);
}

/// Content that the daemon serves itself is not recorded when it comes back;
/// other content is, unless there is none.
pub proof fn law_own_content_is_not_recorded(
    s: State,
    mime: &str,
    content: &[u8],
    r: Result<bool, OfferError>,
)
    requires
        call_ensures(State::judge_content, (&s, mime, content), r),
    ensures
        r is Err <==> content@.len() == 0,
        r is Ok ==> (r->Ok_0 <==> s@.expect_self_hash != Some(db::blake3_hash(content@))),
{
}

/// Only the source that serves is answered, and with what it serves, under that
/// name alone.
pub proof fn law_only_the_serving_source_answers(s: State, source: u32, mime: &str, r: SendAction)
    requires
        call_ensures(State::on_send, (&s, source, mime), r),
    ensures
        r is Ignore <==> s@.held_source != Some(source),
        r is Serve <==> s@.held_source == Some(source) && mime@ == s@.held_mime,
        r is Serve ==> r->Serve_0@ == s@.held_content,
{
}

/// What a client hands over is an image if its name says so, else text.
pub proof fn law_kind_by_name(mime: &str, r: Kind)
    requires
        call_ensures(kind_of, (mime,), r),
    ensures
        r == Kind::Image <==> ("image/"@).is_prefix_of(text::ascii_lower(mime@)),
{
    law_what_is_kept_beside(mime@);
}

/// The names of an offer are those advertised for it since it was announced, in
/// their order; announcing it again starts anew, and forgetting it leaves none.
/// No offer touches another.
pub proof fn law_offers_collect_their_names(s: &mut State, offer: u32, mime: String, other: u32)
    requires
        call_ensures(State::offer, (s, offer, mime), ()),
    ensures
        final(s)@.names_of(offer) == old(s)@.names_of(offer).push(mime@),
        other != offer ==> final(s)@.names_of(other) == old(s)@.names_of(other),
        final(s)@.pending == old(s)@.pending,
        final(s)@.held_source == old(s)@.held_source,
{
}

/// Announcing an offer gives it no names, and changes no other offer.
pub proof fn law_announced_offer_is_empty(s: &mut State, offer: u32, other: u32)
    requires
        call_ensures(State::data_offer, (s, offer), ()),
    ensures
        final(s)@.names_of(offer).len() == 0,
        other != offer ==> final(s)@.names_of(other) == old(s)@.names_of(other),
        final(s)@.pending == old(s)@.pending,
{
}

/// A selection is looked at once, with all the names of its offer.
pub proof fn law_selection_is_looked_at_once(s: &mut State, r: Option<(u32, Vec<String>)>)
    requires
        call_ensures(State::take_pending, (s,), r),
    ensures
        final(s)@.pending is None,
        r is Some <==> old(s)@.pending is Some,
        r matches Some(p) ==> old(s)@.pending == Some(p.0) && text::views(p.1@) == old(
            s,
        )@.names_of(p.0),
        final(s)@.offers == old(s)@.offers,
{
}

/// What is received is kept whole, as long as it is within the limit; a piece
/// that would go beyond it is refused, and nothing of it is kept.
pub proof fn law_received_within_the_limit(c: &mut Received, piece: &[u8], r: Result<(), OfferError>)
    requires
        old(c).wf(),
        call_ensures(Received::take, (c, piece), r),
    ensures
        r is Ok <==> old(c).bytes().len() + piece@.len() <= old(c).limit(),
        r is Ok ==> final(c).bytes() == old(c).bytes() + piece@,
        r is Err ==> final(c).bytes() == old(c).bytes(),
        final(c).limit() == old(c).limit(),
{
}

} // verus!
