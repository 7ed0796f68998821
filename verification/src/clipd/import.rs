//! Importing a history that another clipboard manager kept.

use vstd::prelude::*;
use vstd::string::*;
use vstd::utf8::*;

use crate::clipd::preview;
use crate::numeral;
use crate::sorting;
use crate::text;

verus! {

/// The outcome of reading a list of texts.
pub open spec fn list_view(r: Result<Vec<String>, String>) -> Result<Seq<Seq<char>>, Seq<char>> {
    match r {
        Ok(v) => Ok(text::views(v@)),
        Err(e) => Err(e@),
    }
}

/// The texts in a JSON array of strings, or why the bytes are none.
pub uninterp spec fn json_strings(b: Seq<u8>) -> Result<Seq<Seq<char>>, Seq<char>>;

/// Calls `serde_json::from_slice` for a list of strings; an error is taken
/// over by its text.
///
/// Claims that the outcome depends on the bytes alone.
#[verifier::external_body]
fn parse_strings(b: &[u8]) -> (r: Result<Vec<String>, String>)
    ensures
        list_view(r) == json_strings(b@),
{
    serde_json::from_slice::<Vec<String>>(b).map_err(|e| e.to_string())
}

// ---------------------------------------------------------------------------
// UTF-16
// ---------------------------------------------------------------------------

/// The two-byte units of `b`, low byte first.
pub open spec fn units(b: Seq<u8>) -> Seq<u16> {
    Seq::new(b.len() / 2, |i: int| (b[2 * i] + 256 * b[2 * i + 1]) as u16)
}

pub open spec fn high_surrogate(u: u16) -> bool {
    0xd800 <= u <= 0xdbff
}

pub open spec fn low_surrogate(u: u16) -> bool {
    0xdc00 <= u <= 0xdfff
}

/// The character that two surrogates stand for.
pub open spec fn paired(hi: u16, lo: u16) -> char {
    (0x10000 + (hi - 0xd800) * 0x400 + (lo - 0xdc00)) as char
}

/// The text that UTF-16 units stand for; none where a surrogate is alone.
pub open spec fn utf16_text(u: Seq<u16>) -> Option<Seq<char>>
    decreases u.len(),
{
    if u.len() == 0 {
        Some(Seq::empty())
    } else if low_surrogate(u.last()) {
        if u.len() >= 2 && high_surrogate(u[u.len() - 2]) {
            match utf16_text(u.take(u.len() - 2)) {
                Some(s) => Some(s.push(paired(u[u.len() - 2], u.last()))),
                None => None,
            }
        } else {
            None
        }
    } else if high_surrogate(u.last()) {
        None
    } else {
        match utf16_text(u.drop_last()) {
            Some(s) => Some(s.push(u.last() as char)),
            None => None,
        }
    }
}

/// `std::char::from_u32`: the character of a code point, where it is one.
pub assume_specification[ std::char::from_u32 ](i: u32) -> (r: Option<char>)
    ensures
        r == (if i < 0xd800 || 0xe000 <= i <= 0x10ffff {
            Some(i as char)
        } else {
            None
        }),
;

proof fn lemma_text_ends_no_high(u: Seq<u16>)
    ensures
        u.len() > 0 && utf16_text(u) is Some ==> !high_surrogate(u.last()),
{
}

/// A surrogate that stands alone spoils all that follows.
proof fn lemma_stuck(u: Seq<u16>, j: int)
    requires
        0 < j <= u.len(),
        utf16_text(u.take(j)) is None,
        j == u.len() || !high_surrogate(u[j - 1]) || !low_surrogate(u[j]),
    ensures
        utf16_text(u) is None,
    decreases u.len() - j,
{
    if j == u.len() {
        assert(u.take(j) == u);
    } else {
        let next = u.take(j + 1);
        assert(next.last() == u[j]);
        assert(next.drop_last() == u.take(j));
        assert(next[j - 1] == u[j - 1]);
        if high_surrogate(u[j]) && j + 1 < u.len() && low_surrogate(u[j + 1]) {
            let after = u.take(j + 2);
            assert(after.last() == u[j + 1]);
            assert(after[j] == u[j]);
            assert(after.take(j) == u.take(j));
            lemma_stuck(u, j + 2);
        } else {
            assert(utf16_text(next) is None);
            lemma_stuck(u, j + 1);
        }
    }
}

/// Reads UTF-16 units.
pub fn from_utf16(u: &Vec<u16>) -> (r: Option<String>)
    ensures
        text::opt(r) == utf16_text(u@),
{
    let mut out = String::new();
    let mut i: usize = 0;
    proof {
        assert(u@.take(0) == Seq::<u16>::empty());
    }
    while i < u.len()
        invariant
            i <= u@.len(),
            utf16_text(u@.take(i as int)) == Some(out@),
        decreases u.len() - i,
    {
        let a = u[i];
        proof {
            assert(u@.take(i + 1).last() == a);
            assert(u@.take(i + 1).drop_last() == u@.take(i as int));
            if i > 0 {
                lemma_text_ends_no_high(u@.take(i as int));
                assert(u@.take(i as int).last() == u@[i - 1]);
                assert(u@.take(i + 1)[i - 1] == u@[i - 1]);
            }
        }
        if a < 0xd800 || a > 0xdfff {
            match std::char::from_u32(a as u32) {
                Some(c) => out.push(c),
                None => {
                    return None;
                },
            }
            i = i + 1;
        } else if a <= 0xdbff && i + 1 < u.len() && 0xdc00 <= u[i + 1] && u[i + 1] <= 0xdfff {
            let b = u[i + 1];
            let code: u32 = 0x10000 + (a as u32 - 0xd800) * 0x400 + (b as u32 - 0xdc00);
            match std::char::from_u32(code) {
                Some(c) => out.push(c),
                None => {
                    return None;
                },
            }
            proof {
                assert(u@.take(i + 2).last() == b);
                assert(u@.take(i + 2)[i as int] == a);
                assert(u@.take(i + 2).take(i as int) == u@.take(i as int));
            }
            i = i + 2;
        } else {
            proof {
                assert(utf16_text(u@.take(i + 1)) is None);
                lemma_stuck(u@, i + 1);
            }
            return None;
        }
    }
    proof {
        assert(u@.take(i as int) == u@);
    }
    Some(out)
}

/// How many of the first `n` units have a zero high byte.
pub open spec fn zero_highs(b: Seq<u8>, n: int) -> int
    decreases n,
{
    if n <= 0 {
        0
    } else {
        zero_highs(b, n - 1) + if b[2 * n - 1] == 0 {
            1int
        } else {
            0
        }
    }
}

/// How many units are looked at.
pub open spec fn sampled(b: Seq<u8>) -> int {
    if b.len() < 64 {
        b.len() as int / 2
    } else {
        32
    }
}

/// The part of `b` that looks like UTF-16: what follows a byte-order mark, or
/// all of it where at least seven in ten of the units looked at have a zero
/// high byte.
pub open spec fn utf16_part(b: Seq<u8>) -> Option<Seq<u8>> {
    if b.len() < 4 || b.len() % 2 != 0 {
        None
    } else if b[0] == 0xff && b[1] == 0xfe {
        Some(b.skip(2))
    } else if zero_highs(b, sampled(b)) * 10 < sampled(b) * 7 {
        None
    } else {
        Some(b)
    }
}

/// The text of bytes that look like UTF-16, without trailing NULs.
pub open spec fn utf16_of(b: Seq<u8>) -> Option<Seq<char>> {
    match utf16_part(b) {
        Some(part) => match utf16_text(units(part)) {
            Some(s) => Some(text::trim_end_matches(s, seq!['\0'])),
            None => None,
        },
        None => None,
    }
}

/// Reads bytes that look like UTF-16.
pub fn decode_utf16_if_likely(bytes: &[u8]) -> (r: Option<String>)
    ensures
        text::opt(r) == utf16_of(bytes@),
{
    if bytes.len() < 4 || bytes.len() % 2 != 0 {
        return None;
    }
    let start: usize = if bytes[0] == 0xff && bytes[1] == 0xfe {
        2
    } else {
        let pairs: usize = if bytes.len() < 64 {
            bytes.len() / 2
        } else {
            32
        };
        let mut nuls: usize = 0;
        let mut i: usize = 0;
        while i < pairs
            invariant
                pairs == sampled(bytes@),
                2 * pairs <= bytes@.len(),
                pairs <= 32,
                i <= pairs,
                nuls <= i,
                nuls == zero_highs(bytes@, i as int),
            decreases pairs - i,
        {
            if bytes[2 * i + 1] == 0 {
                nuls = nuls + 1;
            }
            i = i + 1;
        }
        if nuls * 10 < pairs * 7 {
            return None;
        }
        0
    };
    let ghost part = bytes@.skip(start as int);
    proof {
        assert(bytes@.skip(0) == bytes@);
    }
    let mut u: Vec<u16> = Vec::new();
    let n: usize = (bytes.len() - start) / 2;
    assert(bytes@.len() == bytes.len());
    let mut k: usize = 0;
    while k < n
        invariant
            part == bytes@.skip(start as int),
            start <= bytes@.len(),
            bytes@.len() == bytes.len(),
            2 * n <= bytes@.len() - start,
            n == part.len() / 2,
            k <= n,
            u@ =~= units(part).take(k as int),
        decreases n - k,
    {
        let lo = bytes[start + 2 * k];
        let hi = bytes[start + 2 * k + 1];
        u.push(lo as u16 + 256 * (hi as u16));
        proof {
            assert(part[2 * k] == lo);
            assert(part[2 * k + 1] == hi);
        }
        k = k + 1;
    }
    proof {
        assert(units(part).take(k as int) =~= units(part));
    }
    match from_utf16(&u) {
        Some(s) => {
            let nul: Vec<char> = vec!['\0'];
            let v = text::chars_of(s.as_str());
            proof {
                assert(nul@ == seq!['\0']);
            }
            Some(text::string_of(text::stripped_end(v.as_slice(), nul.as_slice())))
        },
        None => None,
    }
}

// ---------------------------------------------------------------------------
// The items
// ---------------------------------------------------------------------------

/// An item to record.
#[derive(Debug)]
pub struct ImportItem {
    pub content: Vec<u8>,
    pub preview: String,
    pub ts: i64,
}

#[verifier::ext_equal]
pub struct ImportView {
    pub content: Seq<u8>,
    pub preview: Seq<char>,
    pub ts: i64,
}

impl View for ImportItem {
    type V = ImportView;

    open spec fn view(&self) -> ImportView {
        ImportView { content: self.content@, preview: self.preview@, ts: self.ts }
    }
}

pub open spec fn item_views(v: Seq<ImportItem>) -> Seq<ImportView> {
    v.map_values(|i: ImportItem| i@)
}

/// The text that is recorded for `raw`.
pub open spec fn normalized(raw: Seq<char>) -> Seq<char> {
    match utf16_of(encode_utf8(raw)) {
        Some(s) => s,
        None => raw,
    }
}

/// Whether `raw` turns out to be UTF-16.
pub open spec fn converts(raw: Seq<char>) -> bool {
    raw.len() > 0 && utf16_of(encode_utf8(raw)) is Some
}

/// The items that the last `n` of `items` give, the last first: the list has
/// the newest first, and the newest gets the latest time. Empty texts are
/// passed over.
pub open spec fn imported(items: Seq<Seq<char>>, now: i64, n: int) -> Seq<ImportView>
    decreases n,
{
    if n <= 0 {
        Seq::empty()
    } else {
        let rest = imported(items, now, n - 1);
        let raw = items[items.len() - n];
        let t = normalized(raw);
        if raw.len() == 0 || t.len() == 0 {
            rest
        } else {
            rest.push(
                ImportView {
                    content: encode_utf8(t),
                    preview: preview::preview_of(t),
                    ts: (now + n - 1) as i64,
                },
            )
        }
    }
}

/// How many of the last `n` of `items` turn out to be UTF-16.
pub open spec fn converted(items: Seq<Seq<char>>, n: int) -> int
    decreases n,
{
    if n <= 0 {
        0
    } else {
        converted(items, n - 1) + if converts(items[items.len() - n]) {
            1int
        } else {
            0
        }
    }
}

/// The items to record and how many of them were UTF-16.
pub fn plan_import(items: &Vec<String>, now: i64) -> (r: (Vec<ImportItem>, usize))
    requires
        0 <= now,
        now + items@.len() <= i64::MAX,
    ensures
        item_views(r.0@) == imported(text::views(items@), now, items@.len() as int),
        r.1 == converted(text::views(items@), items@.len() as int),
{
    let ghost all = text::views(items@);
    let mut out: Vec<ImportItem> = Vec::new();
    let mut count: usize = 0;
    let mut n: usize = 0;
    proof {
        assert(item_views(out@) =~= Seq::<ImportView>::empty());
    }
    while n < items.len()
        invariant
            all == text::views(items@),
            0 <= now,
            now + items@.len() <= i64::MAX,
            n <= items@.len(),
            count <= n,
            item_views(out@) == imported(all, now, n as int),
            count == converted(all, n as int),
        decreases items.len() - n,
    {
        let raw = items[items.len() - 1 - n].as_str();
        proof {
            assert(all[all.len() - (n + 1)] == raw@);
        }
        if !raw.is_empty() {
            let t = match decode_utf16_if_likely(raw.as_bytes()) {
                Some(s) => {
                    count = count + 1;
                    s
                },
                None => raw.to_owned(),
            };
            proof {
                assert(t@ == normalized(raw@));
            }
            if !t.as_str().is_empty() {
                let ghost had = item_views(out@);
                let item = ImportItem {
                    content: vstd::slice::slice_to_vec(t.as_str().as_bytes()),
                    preview: preview::build(t.as_str()),
                    ts: now + n as i64,
                };
                out.push(item);
                proof {
                    assert(item_views(out@) =~= had.push(item@));
                }
            }
        }
        n = n + 1;
    }
    (out, count)
}

/// Reads a JSON array of texts, newest first.
pub fn read_list(bytes: &[u8]) -> (r: Result<Vec<String>, String>)
    ensures
        list_view(r) == (match json_strings(bytes@) {
            Ok(list) => Ok::<Seq<Seq<char>>, Seq<char>>(list),
            Err(why) => Err("parse JSON array of strings: "@ + why),
        }),
{
    match parse_strings(bytes) {
        Ok(list) => Ok(list),
        Err(e) => Err(text::concat2("parse JSON array of strings: ", e.as_str())),
    }
}

/// What is said of an import.
pub fn summary(inserted: u64, deduped: u64, converted: u64, path: &str) -> (r: String)
    ensures
        r@ == "imported "@ + numeral::decimal(inserted as nat) + " entries ("@ + numeral::decimal(
            deduped as nat,
        ) + " duplicates collapsed, "@ + numeral::decimal(converted as nat)
            + " converted from UTF-16) from "@ + path@,
{
    let mut s = "imported ".to_owned();
    numeral::push_decimal(&mut s, inserted);
    s.push_str(" entries (");
    numeral::push_decimal(&mut s, deduped);
    s.push_str(" duplicates collapsed, ");
    numeral::push_decimal(&mut s, converted);
    s.push_str(" converted from UTF-16) from ");
    s.push_str(path);
    s
}

/// Items are recorded oldest first and each at a later time than those before
/// it, so the newest ends up on top.
pub proof fn law_import_keeps_order(items: Seq<Seq<char>>, now: i64, n: int)
    requires
        0 <= n <= items.len(),
        0 <= now,
        now + items.len() <= i64::MAX,
    ensures
        forall|i: int, j: int|
            0 <= i < j < imported(items, now, n).len() ==> imported(items, now, n)[i].ts
                < imported(items, now, n)[j].ts,
        forall|i: int|
            0 <= i < imported(items, now, n).len() ==> now <= (#[trigger] imported(
                items,
                now,
                n,
            )[i]).ts < now + n,
    decreases n,
{
    if n > 0 {
        law_import_keeps_order(items, now, n - 1);
        let rest = imported(items, now, n - 1);
        let all = imported(items, now, n);
        assert forall|i: int| 0 <= i < all.len() implies now <= (#[trigger] all[i]).ts < now
            + n by {
            if i < rest.len() {
                assert(all[i] == rest[i]);
            }
        }
        assert forall|i: int, j: int| 0 <= i < j < all.len() implies all[i].ts < all[j].ts by {
            assert(all[i] == rest[i]);
            if j < rest.len() {
                assert(all[j] == rest[j]);
            }
        }
    }
}

/// The UTF-16 units of a text.
pub open spec fn utf16_units(s: Seq<char>) -> Seq<u16>
    decreases s.len(),
{
    if s.len() == 0 {
        Seq::empty()
    } else {
        let c = s.last() as int;
        let rest = utf16_units(s.drop_last());
        if c < 0x10000 {
            rest.push(c as u16)
        } else {
            rest.push((0xd800 + (c - 0x10000) / 0x400) as u16).push(
                (0xdc00 + (c - 0x10000) % 0x400) as u16,
            )
        }
    }
}

proof fn lemma_char_range(c: char)
    ensures
        c as int <= 0x10ffff,
        !(0xd800 <= c as int <= 0xdfff),
        (c as int) < 0x10000 ==> (c as int) as u16 as char == c,
        (c as int) as char == c,
{
}

/// Every text is read back from its UTF-16 units.
pub proof fn law_utf16_round_trip(s: Seq<char>)
    ensures
        utf16_text(utf16_units(s)) == Some(s),
    decreases s.len(),
{
    if s.len() > 0 {
        let t = s.drop_last();
        law_utf16_round_trip(t);
        let rest = utf16_units(t);
        let c = s.last() as int;
        let u = utf16_units(s);
        assert(t.push(s.last()) =~= s);
        lemma_char_range(s.last());
        if c < 0x10000 {
            assert(u.drop_last() =~= rest);
            assert(u.last() as char == s.last());
        } else {
            let hi = (0xd800 + (c - 0x10000) / 0x400) as u16;
            let lo = (0xdc00 + (c - 0x10000) % 0x400) as u16;
            assert(0xd800 <= hi <= 0xdbff);
            assert(0xdc00 <= lo <= 0xdfff);
            assert(u.take(u.len() - 2) =~= rest);
            assert((hi - 0xd800) * 0x400 + (lo - 0xdc00) == c - 0x10000);
            assert(paired(hi, lo) == s.last());
        }
    }
}

/// A unit of a pair that stands alone at the end is no text.
pub proof fn law_half_a_pair_is_no_text(u: Seq<u16>, x: u16)
    ensures
        0xd800 <= x <= 0xdbff ==> utf16_text(u.push(x)) is None,
        0xdc00 <= x <= 0xdfff && (u.len() == 0 || !(0xd800 <= u.last() <= 0xdbff)) ==> utf16_text(
            u.push(x),
        ) is None,
{
    let v = u.push(x);
    if u.len() > 0 {
        assert(v[v.len() - 2] == u.last());
    }
}

/// Bytes are two to a unit, the low one first.
pub proof fn law_units_are_little_endian(b: Seq<u8>, i: int)
    requires
        0 <= i,
        2 * i + 1 < b.len(),
    ensures
        units(b).len() == b.len() / 2,
        units(b)[i] == b[2 * i] + 256 * b[2 * i + 1],
{
}

/// Every entry that holds text after normalization is imported with that text,
/// its preview, and a time by its place: the last entry of the list is the
/// oldest. Nothing else is imported.
pub proof fn law_every_text_is_imported(items: Seq<Seq<char>>, now: i64, n: int)
    requires
        0 <= n <= items.len(),
    ensures
        forall|x: ImportView| #[trigger]
            imported(items, now, n).contains(x) <==> exists|k: int|
                {
                    &&& items.len() - n <= k < items.len()
                    &&& (#[trigger] items[k]).len() > 0
                    &&& normalized(items[k]).len() > 0
                    &&& x.content == encode_utf8(normalized(items[k]))
                    &&& x.preview == preview::preview_of(normalized(items[k]))
                    &&& x.ts == (now + items.len() - k - 1) as i64
                },
    decreases n,
{
    if n > 0 {
        law_every_text_is_imported(items, now, n - 1);
        let m = items.len() - n;
        let t = normalized(items[m]);
        let one = ImportView {
            content: encode_utf8(t),
            preview: preview::preview_of(t),
            ts: (now + n - 1) as i64,
        };
        let rest = imported(items, now, n - 1);
        sorting::lemma_push_holds(rest, one);
        assert forall|x: ImportView| #[trigger] imported(items, now, n).contains(x) <==> exists|
            k: int,
        |
            {
                &&& items.len() - n <= k < items.len()
                &&& (#[trigger] items[k]).len() > 0
                &&& normalized(items[k]).len() > 0
                &&& x.content == encode_utf8(normalized(items[k]))
                &&& x.preview == preview::preview_of(normalized(items[k]))
                &&& x.ts == (now + items.len() - k - 1) as i64
            } by {
            if x == one && items[m].len() > 0 && t.len() > 0 {
                assert(items[m].len() > 0);
            }
        }
    }
}

/// A text without UTF-16 in it stays as it is, and one with it becomes what it
/// encodes, without zeros at the end.
pub proof fn law_normalized(raw: Seq<char>)
    ensures
        utf16_of(encode_utf8(raw)) is None ==> normalized(raw) == raw,
        utf16_of(encode_utf8(raw)) is Some ==> normalized(raw) == utf16_of(encode_utf8(raw))->0,
        ({
            let b = encode_utf8(raw);
            &&& b.len() < 4 || b.len() % 2 != 0 ==> utf16_of(b) is None
            &&& b.len() >= 4 && b.len() % 2 == 0 && b[0] == 0xff && b[1] == 0xfe ==> (utf16_of(
                b,
            ) is None <==> utf16_text(units(b.skip(2))) is None)
            &&& utf16_of(b) is Some ==> !(seq!['\0']).is_suffix_of(utf16_of(b)->0)
        }),
{
    let b = encode_utf8(raw);
    if utf16_of(b) is Some {
        let part = utf16_part(b)->0;
        lemma_no_zeros_left(utf16_text(units(part))->0);
    }
}

proof fn lemma_no_zeros_left(s: Seq<char>)
    ensures
        !(seq!['\0']).is_suffix_of(text::trim_end_matches(s, seq!['\0'])),
    decreases s.len(),
{
    let z = seq!['\0'];
    text::law_places_of_a_text(s, z);
    if text::ends_with(s, z) {
        lemma_no_zeros_left(s.take(s.len() - 1));
    }
}

} // verus!
