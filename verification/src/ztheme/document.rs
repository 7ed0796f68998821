//! TOML documents, as far as the configuration needs them: sections that hold
//! texts under keys.

use vstd::prelude::*;
use vstd::string::*;

use toml::Value;

use crate::text;

verus! {

// ---------------------------------------------------------------------------
// Documents
// ---------------------------------------------------------------------------

/// What stands in a document under a name. Of the values in a section only the
/// texts are kept; `None` stands for a value of another kind.
#[derive(Debug)]
pub enum Section {
    Table(Vec<(String, Option<String>)>),
    Array(Vec<Option<String>>),
    /// Anything else.
    Scalar,
}

/// What a [`Section`] holds.
#[verifier::ext_equal]
pub enum SectionView {
    Table(Seq<(Seq<char>, Option<Seq<char>>)>),
    Array(Seq<Option<Seq<char>>>),
    Scalar,
}

impl View for Section {
    type V = SectionView;

    open spec fn view(&self) -> SectionView {
        match *self {
            Section::Table(v) => SectionView::Table(
                v@.map_values(|e: (String, Option<String>)| (e.0@, text::opt(e.1))),
            ),
            Section::Array(v) => SectionView::Array(
                v@.map_values(|e: Option<String>| text::opt(e)),
            ),
            Section::Scalar => SectionView::Scalar,
        }
    }
}

/// What sections hold, each under its name.
pub open spec fn section_views(v: Seq<(String, Section)>) -> Seq<(Seq<char>, SectionView)> {
    v.map_values(|s: (String, Section)| (s.0@, s.1@))
}

/// The first of the things called `key`.
pub open spec fn first_of<T>(m: Seq<(Seq<char>, T)>, key: Seq<char>) -> Option<T>
    decreases m.len(),
{
    if m.len() == 0 {
        None
    } else if m[0].0 == key {
        Some(m[0].1)
    } else {
        first_of(m.skip(1), key)
    }
}

/// The text that a section holds under `key`. A section that is written as an
/// array stands for a record of one field, so its first value counts.
pub open spec fn text_of(section: SectionView, key: Seq<char>) -> Option<Seq<char>> {
    match section {
        SectionView::Table(m) => match first_of(m, key) {
            Some(value) => value,
            None => None,
        },
        SectionView::Array(a) => if a.len() > 0 {
            a[0]
        } else {
            None
        },
        SectionView::Scalar => None,
    }
}

/// The text at `key` in the section `section` of a document.
pub open spec fn text_at(
    sections: Seq<(Seq<char>, SectionView)>,
    section: Seq<char>,
    key: Seq<char>,
) -> Option<Seq<char>> {
    match first_of(sections, section) {
        Some(s) => text_of(s, key),
        None => None,
    }
}

fn find_value(entries: &Vec<(String, Option<String>)>, key: &str) -> (r: Option<String>)
    ensures
        text::opt(r) == text_of(Section::Table(*entries)@, key@),
{
    let ghost all = entries@.map_values(|e: (String, Option<String>)| (e.0@, text::opt(e.1)));
    let mut i: usize = 0;
    proof {
        assert(all.skip(0) =~= all);
        assert(Section::Table(*entries)@ == SectionView::Table(all));
    }
    while i < entries.len()
        invariant
            i <= entries@.len(),
            all == entries@.map_values(|e: (String, Option<String>)| (e.0@, text::opt(e.1))),
            Section::Table(*entries)@ == SectionView::Table(all),
            first_of(all, key@) == first_of(all.skip(i as int), key@),
        decreases entries.len() - i,
    {
        proof {
            assert(all.skip(i as int)[0] == all[i as int]);
            assert(all.skip(i as int).skip(1) =~= all.skip(i + 1));
        }
        if text::str_eq(entries[i].0.as_str(), key) {
            return match &entries[i].1 {
                Some(s) => Some(s.clone()),
                None => None,
            };
        }
        i = i + 1;
    }
    None
}

/// Finds the text at `key` in the section `section`.
pub fn find_text(sections: &Vec<(String, Section)>, section: &str, key: &str) -> (r: Option<
    String,
>)
    ensures
        text::opt(r) == text_at(section_views(sections@), section@, key@),
{
    let ghost all = section_views(sections@);
    let mut i: usize = 0;
    proof {
        assert(all.skip(0) =~= all);
    }
    while i < sections.len()
        invariant
            i <= sections@.len(),
            all == section_views(sections@),
            first_of(all, section@) == first_of(all.skip(i as int), section@),
        decreases sections.len() - i,
    {
        proof {
            assert(all.skip(i as int)[0] == all[i as int]);
            assert(all.skip(i as int).skip(1) =~= all.skip(i + 1));
        }
        if text::str_eq(sections[i].0.as_str(), section) {
            return match &sections[i].1 {
                Section::Table(entries) => find_value(entries, key),
                Section::Array(values) => if values.len() > 0 {
                    match &values[0] {
                        Some(s) => Some(s.clone()),
                        None => None,
                    }
                } else {
                    None
                },
                Section::Scalar => None,
            };
        }
        i = i + 1;
    }
    None
}

// ---------------------------------------------------------------------------
// Reading and writing
// ---------------------------------------------------------------------------

/// What a TOML document holds; none where it is malformed.
pub uninterp spec fn toml_sections(document: Seq<char>) -> Option<Seq<(Seq<char>, SectionView)>>;

/// The TOML document with one section that holds one key with a text, or why
/// there is none.
pub uninterp spec fn toml_document(
    section: Seq<char>,
    key: Seq<char>,
    value: Seq<char>,
) -> Result<Seq<char>, Seq<char>>;

/// What optional sections hold.
pub open spec fn opt_sections(v: Option<Vec<(String, Section)>>) -> Option<
    Seq<(Seq<char>, SectionView)>,
> {
    match v {
        Some(s) => Some(section_views(s@)),
        None => None,
    }
}

/// The view of a text or of an error.
pub open spec fn either(r: Result<String, String>) -> Result<Seq<char>, Seq<char>> {
    match r {
        Ok(s) => Ok(s@),
        Err(e) => Err(e@),
    }
}

/// Whether a word needs no quotes: one or more small letters and hyphens.
pub open spec fn plain_word(s: Seq<char>) -> bool {
    &&& s.len() > 0
    &&& forall|i: int| 0 <= i < s.len() ==> ('a' <= #[trigger] s[i] <= 'z' || s[i] == '-')
}

/// How often `c` stands at the end of a text without a break.
pub open spec fn run_at_end(s: Seq<char>, c: char) -> nat
    decreases s.len(),
{
    if s.len() > 0 && s.last() == c {
        run_at_end(s.drop_last(), c) + 1
    } else {
        0
    }
}

/// The longest run of quotes of one kind that can be written.
pub const MAX_QUOTES: usize = 255;

/// Whether no quote is repeated more often than can be written.
pub open spec fn few_quotes(s: Seq<char>) -> bool {
    forall|n: int|
        0 <= n <= s.len() ==> run_at_end(#[trigger] s.take(n), '\'') <= MAX_QUOTES && run_at_end(
            s.take(n),
            '"',
        ) <= MAX_QUOTES
}

/// Calls `toml::from_str` for a table and takes over what stands in it: the
/// texts in tables and arrays, and which values are no texts.
///
/// Claims that the outcome depends on the document alone.
#[verifier::external_body]
fn parse_toml(document: &str) -> (r: Option<Vec<(String, Section)>>)
    ensures
        opt_sections(r) == toml_sections(document@),
{
    let table = toml::from_str::<toml::Table>(document).ok()?;
    let text = |v: Value| v.as_str().map(|s| s.to_owned());
    let sections = table.into_iter().map(|(name, v)| match v {
        Value::Table(t) => {
            (name, Section::Table(t.into_iter().map(|(key, v)| (key, text(v))).collect()))
        },
        Value::Array(a) => (name, Section::Array(a.into_iter().map(text).collect())),
        _ => (name, Section::Scalar),
    });
    Some(sections.collect())
}

/// Calls `toml::to_string_pretty` for a table `section` with the string
/// `value` at `key`. A longer run of quotes than [`MAX_QUOTES`] is left out:
/// `toml_write` counts the quotes on end in a byte, which overflows there.
///
/// Claims that the outcome depends on the three texts alone, and that any text
/// can be written below words of small letters and hyphens and is read back as
/// it was: every character that a TOML string cannot hold as it is, is escaped.
#[verifier::external_body]
fn write_toml(section: &str, key: &str, value: &str) -> (r: Result<String, String>)
    requires
        plain_word(section@),
        plain_word(key@),
        few_quotes(value@),
    ensures
        either(r) == toml_document(section@, key@, value@),
        r is Ok,
        toml_sections(r->Ok_0@) == Some(
            seq![(section@, SectionView::Table(seq![(key@, Some(value@))]))],
        ),
{
    let mut inner = toml::Table::new();
    inner.insert(key.to_owned(), Value::String(value.to_owned()));
    let mut outer = toml::Table::new();
    outer.insert(section.to_owned(), Value::Table(inner));
    toml::to_string_pretty(&outer).map_err(|e| e.to_string())
}

/// Whether no quote in a text is repeated more often than can be written.
pub fn can_be_written(s: &str) -> (r: bool)
    ensures
        r == few_quotes(s@),
{
    let chars = text::chars_of(s);
    let mut single: usize = 0;
    let mut double: usize = 0;
    let mut i: usize = 0;
    while i < chars.len()
        invariant
            i <= chars@.len(),
            chars@ == s@,
            single == run_at_end(s@.take(i as int), '\''),
            double == run_at_end(s@.take(i as int), '"'),
            single <= MAX_QUOTES,
            double <= MAX_QUOTES,
            forall|n: int|
                0 <= n <= i ==> run_at_end(#[trigger] s@.take(n), '\'') <= MAX_QUOTES
                    && run_at_end(s@.take(n), '"') <= MAX_QUOTES,
        decreases chars.len() - i,
    {
        let c = chars[i];
        proof {
            assert(s@.take(i + 1).drop_last() =~= s@.take(i as int));
            assert(s@.take(i + 1).last() == c);
        }
        single = if c == '\'' {
            single + 1
        } else {
            0
        };
        double = if c == '"' {
            double + 1
        } else {
            0
        };
        i = i + 1;
        if single > MAX_QUOTES || double > MAX_QUOTES {
            return false;
        }
    }
    true
}

/// The text at `key` in the section `section` of a document; none where the
/// document is malformed.
pub open spec fn text_in(document: Seq<char>, section: Seq<char>, key: Seq<char>) -> Option<
    Seq<char>,
> {
    match toml_sections(document) {
        Some(sections) => text_at(sections, section, key),
        None => None,
    }
}

/// Reads the text at `key` in the section `section` of a document.
pub fn read_text(document: &str, section: &str, key: &str) -> (r: Option<String>)
    ensures
        text::opt(r) == text_in(document@, section@, key@),
{
    match parse_toml(document) {
        Some(sections) => find_text(&sections, section, key),
        None => None,
    }
}

/// Writes a document with one section that holds one key with a text, which
/// is read back as it was.
pub fn write_text(section: &str, key: &str, value: &str) -> (r: Result<String, String>)
    requires
        plain_word(section@),
        plain_word(key@),
        few_quotes(value@),
    ensures
        r is Ok,
        toml_document(section@, key@, value@) == Ok::<Seq<char>, Seq<char>>(r->Ok_0@),
        text_in(r->Ok_0@, section@, key@) == Some(value@),
{
    let r = write_toml(section, key, value);
    proof {
        let sections = toml_sections(r->Ok_0@)->0;
        assert(sections[0].0 == section@);
        assert(sections[0].1->Table_0[0].0 == key@);
    }
    r
}

/// An entry is the first under its name, and there is none only if none has the
/// name.
pub proof fn law_first_entry_counts<T>(m: Seq<(Seq<char>, T)>, key: Seq<char>, k: int)
    ensures
        0 <= k < m.len() && m[k].0 == key && (forall|j: int| 0 <= j < k ==> (#[trigger] m[j]).0 != key)
            ==> first_of(m, key) == Some(m[k].1),
        (forall|j: int| 0 <= j < m.len() ==> (#[trigger] m[j]).0 != key) ==> first_of(
            m,
            key,
        ) is None,
    decreases m.len(),
{
    if m.len() > 0 && m[0].0 != key {
        let t = m.skip(1);
        law_first_entry_counts(t, key, k - 1);
        assert forall|j: int| 0 <= j < t.len() implies #[trigger] t[j] == m[j + 1] by {}
    }
}

} // verus!
