//! Items of the clipboard history.

use vstd::prelude::*;
use vstd::string::*;

use crate::text;

verus! {

/// What an item is.
#[derive(Clone, Copy, Debug, PartialEq, Eq, Structural)]
pub enum Kind {
    Text,
    Image,
}

impl Kind {
    /// The name under which a kind is stored.
    pub open spec fn name(self) -> Seq<char> {
        match self {
            Kind::Text => "text"@,
            Kind::Image => "image"@,
        }
    }

    /// The name under which the kind is stored.
    pub fn as_str(&self) -> (r: &'static str)
        ensures
            r@ == self.name(),
    {
        match self {
            Kind::Text => "text",
            Kind::Image => "image",
        }
    }

    /// The kind stored under `s`.
    pub fn parse(s: &str) -> (r: Option<Self>)
        ensures
            r == (if s@ == "text"@ {
                Some(Kind::Text)
            } else if s@ == "image"@ {
                Some(Kind::Image)
            } else {
                None
            }),
    {
        if text::str_eq(s, "text") {
            Some(Kind::Text)
        } else if text::str_eq(s, "image") {
            Some(Kind::Image)
        } else {
            None
        }
    }

    /// The kind stored under `s`; what is not known counts as text.
    pub fn from_stored(s: &str) -> (r: Self)
        ensures
            r == (if s@ == "image"@ && s@ != "text"@ {
                Kind::Image
            } else {
                Kind::Text
            }),
    {
        match Kind::parse(s) {
            Some(k) => k,
            None => Kind::Text,
        }
    }
}

/// Reading a kind's name gives the kind back.
pub proof fn law_kind_names_differ(a: Kind, b: Kind)
    ensures
        a.name() == b.name() ==> a == b,
{
    reveal_strlit("text");
    reveal_strlit("image");
    assert("text"@.len() != "image"@.len());
}

/// One representation of an item.
#[derive(Debug)]
pub struct MimeContent {
    pub mime: String,
    pub content: Vec<u8>,
}

impl View for MimeContent {
    type V = (Seq<char>, Seq<u8>);

    open spec fn view(&self) -> (Seq<char>, Seq<u8>) {
        (self.mime@, self.content@)
    }
}

impl Clone for MimeContent {
    fn clone(&self) -> (r: Self)
        ensures
            r@ == self@,
    {
        MimeContent {
            mime: self.mime.clone(),
            content: vstd::slice::slice_to_vec(self.content.as_slice()),
        }
    }
}

/// Representations, by name and content.
pub open spec fn contents(v: Seq<MimeContent>) -> Seq<(Seq<char>, Seq<u8>)> {
    v.map_values(|m: MimeContent| m@)
}

/// The content of the first representation called `mime`.
pub open spec fn content_of(v: Seq<(Seq<char>, Seq<u8>)>, mime: Seq<char>) -> Option<Seq<u8>>
    decreases v.len(),
{
    if v.len() == 0 {
        None
    } else if v[0].0 == mime {
        Some(v[0].1)
    } else {
        content_of(v.skip(1), mime)
    }
}

/// An item of the history.
#[derive(Debug)]
pub struct Entry {
    /// Stays the same as long as the item is known.
    pub uuid: String,
    pub kind: Kind,
    /// The representation that is used by default.
    pub primary_mime: String,
    /// The beginning of a text; images have none.
    pub preview: Option<String>,
    pub created_at: i64,
    pub last_used_at: i64,
    /// Every representation that was captured.
    pub mimes: Vec<MimeContent>,
}

#[verifier::ext_equal]
pub struct EntryView {
    pub uuid: Seq<char>,
    pub kind: Kind,
    pub primary_mime: Seq<char>,
    pub preview: Option<Seq<char>>,
    pub created_at: i64,
    pub last_used_at: i64,
    pub mimes: Seq<(Seq<char>, Seq<u8>)>,
}

impl View for Entry {
    type V = EntryView;

    open spec fn view(&self) -> EntryView {
        EntryView {
            uuid: self.uuid@,
            kind: self.kind,
            primary_mime: self.primary_mime@,
            preview: text::opt(self.preview),
            created_at: self.created_at,
            last_used_at: self.last_used_at,
            mimes: contents(self.mimes@),
        }
    }
}

/// A byte string behind an option.
pub open spec fn opt_bytes(o: Option<&[u8]>) -> Option<Seq<u8>> {
    match o {
        Some(b) => Some(b@),
        None => None,
    }
}

impl Entry {
    /// The content of the default representation.
    pub fn primary_content(&self) -> (r: Option<&[u8]>)
        ensures
            opt_bytes(r) == content_of(self@.mimes, self@.primary_mime),
    {
        self.content_for(self.primary_mime.as_str())
    }

    /// The content of the representation called `mime`.
    pub fn content_for(&self, mime: &str) -> (r: Option<&[u8]>)
        ensures
            opt_bytes(r) == content_of(self@.mimes, mime@),
    {
        let ghost all = self@.mimes;
        let mut i: usize = 0;
        proof {
            assert(all.skip(0) == all);
        }
        while i < self.mimes.len()
            invariant
                all == contents(self.mimes@),
                i <= self.mimes@.len(),
                content_of(all, mime@) == content_of(all.skip(i as int), mime@),
            decreases self.mimes.len() - i,
        {
            proof {
                assert(all.skip(i as int)[0] == self.mimes@[i as int]@);
                assert(all.skip(i as int).skip(1) == all.skip(i + 1));
            }
            if text::str_eq(self.mimes[i].mime.as_str(), mime) {
                return Some(self.mimes[i].content.as_slice());
            }
            i = i + 1;
        }
        None
    }
}

/// The content under a name is that of the first representation of that name,
/// and there is none only if no representation has it.
pub proof fn law_content_of_a_name(v: Seq<(Seq<char>, Seq<u8>)>, mime: Seq<char>, k: int)
    ensures
        0 <= k < v.len() && v[k].0 == mime && (forall|j: int|
            0 <= j < k ==> (#[trigger] v[j]).0 != mime) ==> content_of(v, mime) == Some(v[k].1),
        (forall|j: int| 0 <= j < v.len() ==> (#[trigger] v[j]).0 != mime) ==> content_of(
            v,
            mime,
        ) is None,
    decreases v.len(),
{
    if v.len() > 0 && v[0].0 != mime {
        let t = v.skip(1);
        law_content_of_a_name(t, mime, k - 1);
        assert forall|j: int| 0 <= j < t.len() implies #[trigger] t[j] == v[j + 1] by {}
    }
}

} // verus!
