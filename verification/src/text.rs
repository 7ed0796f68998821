//! Text as sequences of characters: the string operations that the rest of
//! the library is specified over.

use vstd::prelude::*;
use vstd::utf8::*;
use vstd::string::*;

verus! {

/// `String::push` appends one character at the end.
pub assume_specification[ String::push ](s: &mut String, c: char)
    ensures
        final(s)@ == old(s)@.push(c),
;

/// `String::push_str` appends the characters of a string slice at the end.
pub assume_specification[ String::push_str ](s: &mut String, other: &str)
    ensures
        final(s)@ == old(s)@ + other@,
;

/// The characters of a string, in order.
pub fn chars_of(s: &str) -> (r: Vec<char>)
    ensures
        r@ == s@,
{
    let mut v: Vec<char> = Vec::new();
    for c in it: s.chars()
        invariant
            v@ == it.seq().take(it.index() as int),
            it.seq() == s@,
    {
        v.push(c);
    }
    v
}

/// The string made of the given characters.
pub fn string_of(v: &[char]) -> (r: String)
    ensures
        r@ == v@,
{
    let mut s = String::new();
    let mut i: usize = 0;
    while i < v.len()
        invariant
            i <= v.len(),
            s@ == v@.take(i as int),
        decreases v.len() - i,
    {
        s.push(v[i]);
        i = i + 1;
    }
    s
}

/// Whether two strings hold the same characters.
pub fn str_eq(a: &str, b: &str) -> (r: bool)
    ensures
        r == (a@ == b@),
{
    let x = a.as_bytes();
    let y = b.as_bytes();
    if x.len() != y.len() {
        return false;
    }
    let mut i: usize = 0;
    while i < x.len()
        invariant
            x.len() == y.len(),
            i <= x.len(),
            x@ == a.spec_bytes(),
            y@ == b.spec_bytes(),
            x@.take(i as int) == y@.take(i as int),
        decreases x.len() - i,
    {
        if x[i] != y[i] {
            return false;
        }
        assert(x@.take(i + 1) == x@.take(i as int).push(x@[i as int]));
        assert(y@.take(i + 1) == y@.take(i as int).push(y@[i as int]));
        i = i + 1;
    }
    proof {
        assert(x@ == x@.take(x@.len() as int));
        assert(y@ == y@.take(y@.len() as int));
        encode_utf8_decode_utf8(a@);
        encode_utf8_decode_utf8(b@);
    }
    true
}


// ---------------------------------------------------------------------------
// Whitespace
// ---------------------------------------------------------------------------

/// The characters with the Unicode property `White_Space`.
pub open spec fn white_space(c: char) -> bool {
    ||| 0x09 <= c as u32 <= 0x0d
    ||| c as u32 == 0x20
    ||| c as u32 == 0x85
    ||| c as u32 == 0xa0
    ||| c as u32 == 0x1680
    ||| 0x2000 <= c as u32 <= 0x200a
    ||| c as u32 == 0x2028
    ||| c as u32 == 0x2029
    ||| c as u32 == 0x202f
    ||| c as u32 == 0x205f
    ||| c as u32 == 0x3000
}

/// Whether `c` is whitespace.
pub fn is_white_space(c: char) -> (r: bool)
    ensures
        r == white_space(c),
{
    let u: u32 = c as u32;
    (0x09 <= u && u <= 0x0d) || u == 0x20 || u == 0x85 || u == 0xa0 || u == 0x1680 || (0x2000 <= u
        && u <= 0x200a) || u == 0x2028 || u == 0x2029 || u == 0x202f || u == 0x205f || u == 0x3000
}

/// `s` without its leading whitespace.
pub open spec fn trim_start(s: Seq<char>) -> Seq<char>
    decreases s.len(),
{
    if s.len() > 0 && white_space(s[0]) {
        trim_start(s.drop_first())
    } else {
        s
    }
}

/// `s` without its trailing whitespace.
pub open spec fn trim_end(s: Seq<char>) -> Seq<char>
    decreases s.len(),
{
    if s.len() > 0 && white_space(s.last()) {
        trim_end(s.drop_last())
    } else {
        s
    }
}

/// `s` without leading and trailing whitespace.
pub open spec fn trim(s: Seq<char>) -> Seq<char> {
    trim_end(trim_start(s))
}

/// Removes leading and trailing whitespace.
pub fn trimmed(s: &[char]) -> (r: &[char])
    ensures
        r@ == trim(s@),
{
    let mut a: usize = 0;
    proof {
        assert(s@.skip(0) == s@);
    }
    while a < s.len() && is_white_space(s[a])
        invariant
            a <= s.len(),
            trim_start(s@) == trim_start(s@.skip(a as int)),
        decreases s.len() - a,
    {
        proof {
            assert(s@.skip(a as int).drop_first() == s@.skip(a + 1));
        }
        a = a + 1;
    }
    proof {
        assert(trim_start(s@) == s@.skip(a as int));
    }
    let mut b: usize = s.len();
    while b > a && is_white_space(s[b - 1])
        invariant
            a <= b <= s.len(),
            trim_start(s@) == s@.skip(a as int),
            trim(s@) == trim_end(s@.subrange(a as int, b as int)),
        decreases b - a,
    {
        proof {
            assert(s@.subrange(a as int, b as int).drop_last() == s@.subrange(a as int, b - 1));
        }
        b = b - 1;
    }
    vstd::slice::slice_subrange(s, a, b)
}

/// [`trimmed`] on strings.
pub fn trim_string(s: &str) -> (r: String)
    ensures
        r@ == trim(s@),
{
    let v = chars_of(s);
    string_of(trimmed(v.as_slice()))
}

// ---------------------------------------------------------------------------
// Searching
// ---------------------------------------------------------------------------

/// Whether `needle` occurs in `hay` at position `i`.
pub open spec fn occurs_at(hay: Seq<char>, needle: Seq<char>, i: int) -> bool {
    &&& 0 <= i
    &&& i + needle.len() <= hay.len()
    &&& hay.subrange(i, i + needle.len()) == needle
}

/// Whether `needle` occurs anywhere in `hay`.
pub open spec fn contains(hay: Seq<char>, needle: Seq<char>) -> bool {
    exists|i: int| occurs_at(hay, needle, i)
}

/// Whether `s` begins with `prefix`.
pub open spec fn starts_with(s: Seq<char>, prefix: Seq<char>) -> bool {
    occurs_at(s, prefix, 0)
}

/// Whether `s` ends with `suffix`.
pub open spec fn ends_with(s: Seq<char>, suffix: Seq<char>) -> bool {
    occurs_at(s, suffix, s.len() - suffix.len())
}

/// Decides [`occurs_at`].
pub fn match_at(hay: &[char], needle: &[char], at: usize) -> (r: bool)
    ensures
        r == occurs_at(hay@, needle@, at as int),
{
    if at > hay.len() || needle.len() > hay.len() - at {
        return false;
    }
    let mut j: usize = 0;
    while j < needle.len()
        invariant
            at + needle.len() <= hay.len(),
            j <= needle.len(),
            forall|k: int| 0 <= k < j ==> hay@[at + k] == needle@[k],
        decreases needle.len() - j,
    {
        if hay[at + j] != needle[j] {
            proof {
                assert(hay@.subrange(at as int, at + needle.len())[j as int] != needle@[j as int]);
            }
            return false;
        }
        j = j + 1;
    }
    proof {
        assert(hay@.subrange(at as int, at + needle.len()) =~= needle@);
    }
    true
}

/// The first position at or after `from` at which `needle` occurs.
pub open spec fn find_from(hay: Seq<char>, needle: Seq<char>, from: int) -> Option<int>
    decreases hay.len() - from + 1,
{
    if from < 0 || from > hay.len() {
        None
    } else if occurs_at(hay, needle, from) {
        Some(from)
    } else {
        find_from(hay, needle, from + 1)
    }
}

/// What [`find_from`] finds is the first occurrence, and it finds one where there is one.
pub proof fn lemma_find_from(hay: Seq<char>, needle: Seq<char>, from: int)
    requires
        0 <= from,
    ensures
        match find_from(hay, needle, from) {
            Some(i) => from <= i && occurs_at(hay, needle, i) && forall|k: int|
                from <= k < i ==> !occurs_at(hay, needle, k),
            None => forall|k: int| from <= k ==> !occurs_at(hay, needle, k),
        },
    decreases hay.len() - from + 1,
{
    if from <= hay.len() && !occurs_at(hay, needle, from) {
        lemma_find_from(hay, needle, from + 1);
    }
}

/// Finds the first occurrence of `needle` at or after `from`.
pub fn find_at(hay: &[char], needle: &[char], from: usize) -> (r: Option<usize>)
    requires
        from <= hay.len(),
    ensures
        match r {
            Some(i) => find_from(hay@, needle@, from as int) == Some(i as int) && from <= i
                && occurs_at(hay@, needle@, i as int),
            None => find_from(hay@, needle@, from as int) is None,
        },
{
    let mut i: usize = from;
    while i < hay.len()
        invariant
            from <= i <= hay.len(),
            find_from(hay@, needle@, from as int) == find_from(hay@, needle@, i as int),
        decreases hay.len() - i,
    {
        if match_at(hay, needle, i) {
            return Some(i);
        }
        i = i + 1;
    }
    if match_at(hay, needle, i) {
        return Some(i);
    }
    proof {
        assert(find_from(hay@, needle@, i + 1) is None);
    }
    None
}

/// Whether `needle` occurs in `hay`.
pub fn occurs(hay: &[char], needle: &[char]) -> (r: bool)
    ensures
        r == contains(hay@, needle@),
{
    let f = find_at(hay, needle, 0);
    proof {
        lemma_find_from(hay@, needle@, 0);
    }
    f.is_some()
}

/// Whether string `needle` occurs in string `hay`.
pub fn str_contains(hay: &str, needle: &str) -> (r: bool)
    ensures
        r == contains(hay@, needle@),
{
    occurs(chars_of(hay).as_slice(), chars_of(needle).as_slice())
}

/// Whether string `s` begins with `prefix`.
pub fn str_starts_with(s: &str, prefix: &str) -> (r: bool)
    ensures
        r == starts_with(s@, prefix@),
{
    match_at(chars_of(s).as_slice(), chars_of(prefix).as_slice(), 0)
}

/// `s` without the copies of `suffix` that it ends with.
pub open spec fn trim_end_matches(s: Seq<char>, suffix: Seq<char>) -> Seq<char>
    decreases s.len(),
{
    if suffix.len() > 0 && ends_with(s, suffix) {
        trim_end_matches(s.take(s.len() - suffix.len()), suffix)
    } else {
        s
    }
}

/// Removes every copy of `suffix` from the end of `s`.
pub fn stripped_end<'a>(s: &'a [char], suffix: &[char]) -> (r: &'a [char])
    requires
        suffix@.len() > 0,
    ensures
        r@ == trim_end_matches(s@, suffix@),
{
    let mut b: usize = s.len();
    proof {
        assert(s@.take(b as int) == s@);
    }
    while b >= suffix.len() && match_at(
        vstd::slice::slice_subrange(s, 0, b),
        suffix,
        b - suffix.len(),
    )
        invariant
            b <= s.len(),
            suffix@.len() > 0,
            trim_end_matches(s@, suffix@) == trim_end_matches(s@.take(b as int), suffix@),
        decreases b,
    {
        proof {
            assert(s@.subrange(0, b as int) == s@.take(b as int));
            assert(s@.take(b as int).take(b - suffix@.len()) == s@.take(b - suffix@.len()));
        }
        b = b - suffix.len();
    }
    proof {
        assert(s@.subrange(0, b as int) == s@.take(b as int));
    }
    vstd::slice::slice_subrange(s, 0, b)
}

/// The first position of `c` in `s`.
pub open spec fn index_of_char(s: Seq<char>, c: char) -> Option<int>
    decreases s.len(),
{
    if s.len() == 0 {
        None
    } else if s[0] == c {
        Some(0)
    } else {
        match index_of_char(s.drop_first(), c) {
            Some(i) => Some(i + 1),
            None => None,
        }
    }
}

/// What [`index_of_char`] finds is the first occurrence.
pub proof fn lemma_index_of_char(s: Seq<char>, c: char)
    ensures
        match index_of_char(s, c) {
            Some(i) => 0 <= i < s.len() && s[i] == c && forall|k: int| 0 <= k < i ==> s[k] != c,
            None => !s.contains(c),
        },
    decreases s.len(),
{
    if s.len() > 0 && s[0] != c {
        lemma_index_of_char(s.drop_first(), c);
        assert forall|k: int| 0 < k < s.len() implies s[k] == s.drop_first()[k - 1] by {}
        if index_of_char(s.drop_first(), c) is None && s.contains(c) {
            let k = choose|k: int| 0 <= k < s.len() && s[k] == c;
            assert(s.drop_first()[k - 1] == c);
            assert(s.drop_first().contains(c));
        }
    }
}

/// The only place that [`index_of_char`] can report.
pub proof fn lemma_index_of_char_is(s: Seq<char>, c: char, i: int)
    requires
        0 <= i < s.len(),
        s[i] == c,
        forall|k: int| 0 <= k < i ==> s[k] != c,
    ensures
        index_of_char(s, c) == Some(i),
{
    lemma_index_of_char(s, c);
    assert(s.contains(c));
}

/// Finds the first position of `c`.
pub fn position_of(s: &[char], c: char) -> (r: Option<usize>)
    ensures
        match r {
            Some(i) => index_of_char(s@, c) == Some(i as int) && i < s.len() && s@[i as int] == c,
            None => index_of_char(s@, c) is None && !s@.contains(c),
        },
{
    let mut i: usize = 0;
    while i < s.len()
        invariant
            i <= s.len(),
            forall|k: int| 0 <= k < i ==> s@[k] != c,
        decreases s.len() - i,
    {
        if s[i] == c {
            proof {
                lemma_index_of_char_is(s@, c, i as int);
            }
            return Some(i);
        }
        i = i + 1;
    }
    proof {
        lemma_index_of_char(s@, c);
    }
    None
}

// ---------------------------------------------------------------------------
// Splitting
// ---------------------------------------------------------------------------

/// `s` cut at the first `c`, which belongs to neither part.
pub open spec fn split_once(s: Seq<char>, c: char) -> Option<(Seq<char>, Seq<char>)> {
    match index_of_char(s, c) {
        Some(i) => Some((s.take(i), s.skip(i + 1))),
        None => None,
    }
}

/// The pieces of `s` between the occurrences of `c`.
pub open spec fn split(s: Seq<char>, c: char) -> Seq<Seq<char>>
    decreases s.len(),
{
    match index_of_char(s, c) {
        Some(i) => if 0 <= i < s.len() {
            seq![s.take(i)] + split(s.skip(i + 1), c)
        } else {
            seq![s]
        },
        None => seq![s],
    }
}

/// A line without its trailing carriage return.
pub open spec fn chomp(s: Seq<char>) -> Seq<char> {
    if s.len() > 0 && s.last() == '\r' {
        s.drop_last()
    } else {
        s
    }
}

/// The lines of `s`: each ends at a line feed, of which a preceding carriage
/// return is part, or at the end of the text; a final empty line does not count.
pub open spec fn lines(s: Seq<char>) -> Seq<Seq<char>>
    decreases s.len(),
{
    if s.len() == 0 {
        Seq::empty()
    } else {
        match index_of_char(s, '\n') {
            Some(i) => if 0 <= i < s.len() {
                seq![chomp(s.take(i))] + lines(s.skip(i + 1))
            } else {
                Seq::empty()
            },
            None => seq![s],
        }
    }
}

/// The maximal runs of characters that are not whitespace.
pub open spec fn words(s: Seq<char>) -> Seq<Seq<char>>
    decreases s.len(),
{
    if s.len() == 0 {
        Seq::empty()
    } else if white_space(s.last()) {
        words(s.drop_last())
    } else if s.len() == 1 || white_space(s[s.len() - 2]) {
        words(s.drop_last()).push(seq![s.last()])
    } else {
        let w = words(s.drop_last());
        w.drop_last().push(w.last().push(s.last()))
    }
}

/// The characters of an optional string.
pub open spec fn opt(o: Option<String>) -> Option<Seq<char>> {
    match o {
        Some(s) => Some(s@),
        None => None,
    }
}

/// The characters of an optional string slice.
pub open spec fn opt_str(o: Option<&str>) -> Option<Seq<char>> {
    match o {
        Some(s) => Some(s@),
        None => None,
    }
}

/// Whether two optional strings hold the same characters.
pub fn opt_eq(a: &Option<String>, b: &Option<String>) -> (r: bool)
    ensures
        r == (opt(*a) == opt(*b)),
{
    match (a, b) {
        (Some(x), Some(y)) => str_eq(x.as_str(), y.as_str()),
        (None, None) => true,
        _ => false,
    }
}

/// Copies an optional string.
pub fn clone_opt(o: &Option<String>) -> (r: Option<String>)
    ensures
        r == *o,
{
    match o {
        Some(s) => Some(s.clone()),
        None => None,
    }
}

/// The views of the given strings.
pub open spec fn views(v: Seq<String>) -> Seq<Seq<char>> {
    v.map_values(|s: String| s@)
}

/// Splits text into lines.
pub fn split_lines(s: &[char]) -> (r: Vec<Vec<char>>)
    ensures
        r@.map_values(|l: Vec<char>| l@) == lines(s@),
{
    let mut out: Vec<Vec<char>> = Vec::new();
    let mut start: usize = 0;
    proof {
        assert(s@.skip(0) == s@);
    }
    while start < s.len()
        invariant
            start <= s.len(),
            out@.map_values(|l: Vec<char>| l@) + lines(s@.skip(start as int)) == lines(s@),
        decreases s.len() - start,
    {
        let rest = vstd::slice::slice_subrange(s, start, s.len());
        proof {
            assert(rest@ == s@.skip(start as int));
        }
        let ghost before = out@;
        match position_of(rest, '\n') {
            Some(i) => {
                let mut end: usize = i;
                if i > 0 && rest[i - 1] == '\r' {
                    end = i - 1;
                }
                let line = vstd::slice::slice_to_vec(vstd::slice::slice_subrange(rest, 0, end));
                proof {
                    assert(line@ == chomp(rest@.take(i as int)));
                    assert(rest@.skip(i + 1) == s@.skip(start + i + 1));
                }
                out.push(line);
                start = start + i + 1;
                proof {
                    assert(out@.map_values(|l: Vec<char>| l@) == before.map_values(
                        |l: Vec<char>| l@,
                    ) + seq![line@]);
                    assert(out@.map_values(|l: Vec<char>| l@) + lines(s@.skip(start as int))
                        == before.map_values(|l: Vec<char>| l@) + (seq![line@] + lines(
                        s@.skip(start as int),
                    )));
                }
            },
            None => {
                let line = vstd::slice::slice_to_vec(rest);
                out.push(line);
                start = s.len();
                proof {
                    assert(out@.map_values(|l: Vec<char>| l@) == before.map_values(
                        |l: Vec<char>| l@,
                    ) + seq![rest@]);
                    assert(s@.skip(start as int).len() == 0);
                }
            },
        }
    }
    proof {
        assert(s@.skip(start as int).len() == 0);
    }
    out
}

/// Splits text at every occurrence of `c`.
pub fn split_at_char(s: &[char], c: char) -> (r: Vec<Vec<char>>)
    ensures
        r@.map_values(|l: Vec<char>| l@) == split(s@, c),
        r.len() > 0,
{
    let mut out: Vec<Vec<char>> = Vec::new();
    let mut start: usize = 0;
    proof {
        assert(s@.skip(0) == s@);
    }
    loop
        invariant
            start <= s.len(),
            out@.map_values(|l: Vec<char>| l@) + split(s@.skip(start as int), c) == split(s@, c),
        decreases s.len() - start,
    {
        let rest = vstd::slice::slice_subrange(s, start, s.len());
        proof {
            assert(rest@ == s@.skip(start as int));
        }
        let ghost before = out@;
        match position_of(rest, c) {
            Some(i) => {
                let piece = vstd::slice::slice_to_vec(vstd::slice::slice_subrange(rest, 0, i));
                out.push(piece);
                start = start + i + 1;
                proof {
                    assert(piece@ == rest@.take(i as int));
                    assert(out@.map_values(|l: Vec<char>| l@) == before.map_values(
                        |l: Vec<char>| l@,
                    ) + seq![piece@]);
                    assert(rest@.skip(i + 1) == s@.skip(start as int));
                    assert(out@.map_values(|l: Vec<char>| l@) + split(s@.skip(start as int), c)
                        == before.map_values(|l: Vec<char>| l@) + (seq![piece@] + split(
                        s@.skip(start as int),
                        c,
                    )));
                }
            },
            None => {
                let piece = vstd::slice::slice_to_vec(rest);
                out.push(piece);
                proof {
                    assert(out@.map_values(|l: Vec<char>| l@) == before.map_values(
                        |l: Vec<char>| l@,
                    ) + seq![rest@]);
                }
                return out;
            },
        }
    }
}


/// The characters of each inner vector.
pub open spec fn chars_views(v: Seq<Vec<char>>) -> Seq<Seq<char>> {
    v.map_values(|l: Vec<char>| l@)
}

/// Splits text into its words.
pub fn split_words(s: &[char]) -> (r: Vec<Vec<char>>)
    ensures
        chars_views(r@) == words(s@),
{
    let mut out: Vec<Vec<char>> = Vec::new();
    let mut cur: Vec<char> = Vec::new();
    let mut i: usize = 0;
    proof {
        assert(chars_views(out@) == words(s@.take(0)));
    }
    while i < s.len()
        invariant
            i <= s.len(),
            cur@.len() > 0 <==> (i > 0 && !white_space(s@[i - 1])),
            cur@.len() > 0 ==> words(s@.take(i as int)) == chars_views(out@).push(cur@),
            cur@.len() == 0 ==> words(s@.take(i as int)) == chars_views(out@),
        decreases s.len() - i,
    {
        let c = s[i];
        let ghost p = s@.take(i + 1);
        let ghost before = chars_views(out@);
        let ghost held = cur@;
        proof {
            assert(p.drop_last() == s@.take(i as int));
            assert(p.last() == c);
        }
        if is_white_space(c) {
            if cur.len() > 0 {
                out.push(cur);
                cur = Vec::new();
                proof {
                    assert(chars_views(out@) == before.push(held));
                }
            }
        } else {
            cur.push(c);
            proof {
                if held.len() == 0 {
                    assert(cur@ == seq![c]);
                } else {
                    assert(p[p.len() - 2] == s@[i - 1]);
                    assert(before.push(held).drop_last() == before);
                }
            }
        }
        i = i + 1;
    }
    proof {
        assert(s@.take(s@.len() as int) == s@);
    }
    let ghost before = chars_views(out@);
    let ghost held = cur@;
    if cur.len() > 0 {
        out.push(cur);
        proof {
            assert(chars_views(out@) == before.push(held));
        }
    }
    out
}

// ---------------------------------------------------------------------------
// Letter case
// ---------------------------------------------------------------------------

/// `c`, in lower case if it is an ASCII capital letter.
pub open spec fn ascii_lower_char(c: char) -> char {
    if 'A' <= c && c <= 'Z' {
        (c as u32 + 32) as char
    } else {
        c
    }
}

/// `s` with its ASCII capital letters in lower case.
pub open spec fn ascii_lower(s: Seq<char>) -> Seq<char> {
    s.map_values(|c: char| ascii_lower_char(c))
}

fn lower_char(c: char) -> (r: char)
    ensures
        r == ascii_lower_char(c),
{
    if c >= 'A' && c <= 'Z' {
        (c as u8 + 32) as char
    } else {
        c
    }
}

/// Puts ASCII capital letters in lower case.
pub fn to_ascii_lower(s: &str) -> (r: String)
    ensures
        r@ == ascii_lower(s@),
{
    let v = chars_of(s);
    let mut out = String::new();
    let mut i: usize = 0;
    while i < v.len()
        invariant
            v@ == s@,
            i <= v.len(),
            out@ == ascii_lower(s@).take(i as int),
        decreases v.len() - i,
    {
        out.push(lower_char(v[i]));
        i = i + 1;
    }
    out
}

/// Whether two strings differ at most in the case of ASCII letters.
pub fn eq_ignore_ascii_case(a: &str, b: &str) -> (r: bool)
    ensures
        r == (ascii_lower(a@) == ascii_lower(b@)),
{
    str_eq(to_ascii_lower(a).as_str(), to_ascii_lower(b).as_str())
}

/// What `str::to_lowercase` returns: Unicode's lower-case mapping of the text.
pub uninterp spec fn lowercase(s: Seq<char>) -> Seq<char>;

/// `str::to_lowercase`. The result depends on the text alone; on ASCII text it
/// is the mapping of the capital letters.
#[verifier::external_body]
pub(crate) fn to_lowercase(s: &str) -> (r: String)
    ensures
        r@ == lowercase(s@),
        vstd::utf8::is_ascii_chars(s@) ==> r@ == ascii_lower(s@),
{
    s.to_lowercase()
}

/// What `char::to_uppercase` makes of a character.
pub uninterp spec fn uppercase(c: char) -> Seq<char>;

/// `char::to_uppercase`. The characters depend on the one given alone; of a
/// small ASCII letter there is one, the capital letter.
#[verifier::external_body]
pub(crate) fn to_uppercase(c: char) -> (r: String)
    ensures
        r@ == uppercase(c),
        'a' <= c <= 'z' ==> r@ == seq![(c as u32 - 32) as char],
{
    c.to_uppercase().collect()
}

// ---------------------------------------------------------------------------
// Bytes
// ---------------------------------------------------------------------------

/// What `String::from_utf8_lossy` makes of bytes.
pub uninterp spec fn utf8_lossy(b: Seq<u8>) -> Seq<char>;

/// `String::from_utf8_lossy`. Valid UTF-8 is decoded as it is; elsewhere
/// replacement characters stand for what is not valid, in a way that depends on
/// the bytes alone.
#[verifier::external_body]
pub(crate) fn from_utf8_lossy(b: &[u8]) -> (r: String)
    ensures
        r@ == utf8_lossy(b@),
        valid_utf8(b@) ==> r@ == decode_utf8(b@),
{
    String::from_utf8_lossy(b).into_owned()
}

// ---------------------------------------------------------------------------
// Building
// ---------------------------------------------------------------------------

/// `s` with every occurrence of `from`, taken from the left and without
/// overlap, replaced by `to`.
pub open spec fn replace_from(s: Seq<char>, from: Seq<char>, to: Seq<char>, at: int) -> Seq<char>
    decreases s.len() - at,
{
    if at < 0 || at >= s.len() || from.len() == 0 {
        Seq::empty()
    } else if occurs_at(s, from, at) {
        to + replace_from(s, from, to, at + from.len())
    } else {
        seq![s[at]] + replace_from(s, from, to, at + 1)
    }
}

/// `s` with every occurrence of `from` replaced by `to`.
pub open spec fn replace(s: Seq<char>, from: Seq<char>, to: Seq<char>) -> Seq<char> {
    replace_from(s, from, to, 0)
}

/// Replaces every occurrence of a non-empty `from` by `to`.
pub fn replaced(s: &[char], from: &[char], to: &[char]) -> (r: Vec<char>)
    requires
        from.len() > 0,
    ensures
        r@ == replace(s@, from@, to@),
{
    let mut out: Vec<char> = Vec::new();
    let mut at: usize = 0;
    while at < s.len()
        invariant
            from.len() > 0,
            at <= s.len(),
            out@ + replace_from(s@, from@, to@, at as int) == replace(s@, from@, to@),
        decreases s.len() - at,
    {
        let ghost before = out@;
        if match_at(s, from, at) {
            push_all(&mut out, to);
            proof {
                assert(before + (to@ + replace_from(s@, from@, to@, at + from.len())) == (before
                    + to@) + replace_from(s@, from@, to@, at + from.len()));
            }
            at = at + from.len();
        } else {
            out.push(s[at]);
            proof {
                assert(before + (seq![s@[at as int]] + replace_from(s@, from@, to@, at + 1))
                    == out@ + replace_from(s@, from@, to@, at + 1));
            }
            at = at + 1;
        }
    }
    out
}

/// Appends characters.
pub fn push_all(out: &mut Vec<char>, more: &[char])
    ensures
        final(out)@ == old(out)@ + more@,
{
    let mut i: usize = 0;
    while i < more.len()
        invariant
            i <= more.len(),
            out@ == old(out)@ + more@.take(i as int),
        decreases more.len() - i,
    {
        out.push(more[i]);
        i = i + 1;
        proof {
            assert(out@ == old(out)@ + more@.take(i as int));
        }
    }
    proof {
        assert(more@.take(more@.len() as int) == more@);
    }
}

/// The text of `a` followed by that of `b`.
pub fn concat2(a: &str, b: &str) -> (r: String)
    ensures
        r@ == a@ + b@,
{
    let mut s = a.to_owned();
    s.push_str(b);
    s
}

// ---------------------------------------------------------------------------
// Laws
// ---------------------------------------------------------------------------

/// A text starts with what it has at its front and ends with what it has at its
/// end.
pub proof fn law_places_of_a_text(hay: Seq<char>, needle: Seq<char>)
    ensures
        starts_with(hay, needle) <==> needle.is_prefix_of(hay),
        ends_with(hay, needle) <==> needle.is_suffix_of(hay),
{
    if needle.is_prefix_of(hay) {
        assert(hay.subrange(0, needle.len() as int) =~= needle);
    }
    if starts_with(hay, needle) {
        assert(needle =~= hay.subrange(0, needle.len() as int));
    }
    let m = hay.len() - needle.len();
    if needle.is_suffix_of(hay) {
        assert(hay.subrange(m, m + needle.len()) =~= needle);
    }
    if ends_with(hay, needle) {
        assert(needle =~= hay.subrange(m, hay.len() as int));
    }
}

/// A text contains what stands between two parts of it.
pub proof fn law_contained_text(hay: Seq<char>, needle: Seq<char>)
    ensures
        contains(hay, needle) <==> exists|a: Seq<char>, b: Seq<char>| hay == #[trigger] (a + needle
            + b),
{
    if contains(hay, needle) {
        let i = choose|i: int| occurs_at(hay, needle, i);
        let a = hay.take(i);
        let b = hay.skip(i + needle.len());
        assert forall|k: int| 0 <= k < needle.len() implies hay[i + k] == needle[k] by {
            assert(hay.subrange(i, i + needle.len())[k] == hay[i + k]);
        }
        assert(hay =~= a + needle + b);
    }
    if exists|a: Seq<char>, b: Seq<char>| hay == #[trigger] (a + needle + b) {
        let (a, b) = choose|a: Seq<char>, b: Seq<char>| hay == #[trigger] (a + needle + b);
        assert(hay.subrange(a.len() as int, a.len() as int + needle.len()) =~= needle);
        assert(occurs_at(hay, needle, a.len() as int));
    }
}

proof fn lemma_trim_start(s: Seq<char>) -> (i: int)
    ensures
        0 <= i <= s.len(),
        trim_start(s) == s.skip(i),
        forall|k: int| 0 <= k < i ==> white_space(#[trigger] s[k]),
        i < s.len() ==> !white_space(s[i]),
    decreases s.len(),
{
    if s.len() > 0 && white_space(s[0]) {
        let t = s.drop_first();
        let j = lemma_trim_start(t);
        assert(t.skip(j) =~= s.skip(j + 1));
        assert forall|k: int| 0 <= k < j + 1 implies white_space(#[trigger] s[k]) by {
            if k > 0 {
                assert(white_space(t[k - 1]));
            }
        }
        j + 1
    } else {
        assert(s.skip(0) =~= s);
        0
    }
}

proof fn lemma_trim_end(s: Seq<char>) -> (j: int)
    ensures
        0 <= j <= s.len(),
        trim_end(s) == s.take(j),
        forall|k: int| j <= k < s.len() ==> white_space(#[trigger] s[k]),
        j > 0 ==> !white_space(s[j - 1]),
    decreases s.len(),
{
    if s.len() > 0 && white_space(s.last()) {
        let t = s.drop_last();
        let j = lemma_trim_end(t);
        assert(t.take(j) =~= s.take(j));
        assert forall|k: int| j <= k < s.len() implies white_space(#[trigger] s[k]) by {
            if k < t.len() {
                assert(white_space(t[k]));
            }
        }
        j
    } else {
        assert(s.take(s.len() as int) =~= s);
        s.len() as int
    }
}

/// Trimming takes off exactly the white space at the two ends: what is left is
/// a piece of the text that neither begins nor ends with white space, with
/// nothing but white space round it.
pub proof fn law_trim_takes_off_white_space(s: Seq<char>)
    ensures
        exists|i: int, j: int|
            {
                &&& 0 <= i <= j <= s.len()
                &&& trim(s) == #[trigger] s.subrange(i, j)
                &&& forall|k: int| 0 <= k < i ==> white_space(#[trigger] s[k])
                &&& forall|k: int| j <= k < s.len() ==> white_space(#[trigger] s[k])
            },
        trim(s).len() > 0 ==> !white_space(trim(s)[0]) && !white_space(trim(s).last()),
        white_space(' ') && white_space('\t') && white_space('\n') && white_space('\r'),
        forall|c: char| 0x21 <= c as u32 <= 0x7e ==> !#[trigger] white_space(c),
{
    let i = lemma_trim_start(s);
    let t = s.skip(i);
    let n = lemma_trim_end(t);
    assert(t.take(n) =~= s.subrange(i, i + n));
    assert forall|k: int| i + n <= k < s.len() implies white_space(#[trigger] s[k]) by {
        assert(white_space(t[k - i]));
    }
    if n > 0 {
        assert(trim(s)[0] == s[i]);
        assert(trim(s).last() == t[n - 1]);
    }
}

/// A text is parted at the first separator, and only if it has one.
pub proof fn law_parted_at_the_first(a: Seq<char>, c: char, b: Seq<char>)
    requires
        !a.contains(c),
    ensures
        split_once(a, c) is None,
        split_once(a.push(c) + b, c) == Some((a, b)),
        split(a, c) == seq![a],
        split(a.push(c) + b, c) == seq![a] + split(b, c),
{
    lemma_index_of_char(a, c);
    let s = a.push(c) + b;
    assert forall|k: int| 0 <= k < a.len() implies s[k] != c by {
        assert(a[k] == s[k]);
        assert(a.contains(a[k]));
    }
    lemma_index_of_char_is(s, c, a.len() as int);
    assert(s.take(a.len() as int) =~= a);
    assert(s.skip(a.len() as int + 1) =~= b);
}

/// A line ends at the first line break, without the break and without a
/// carriage return right before it; the last line needs no break, and nothing
/// after a last break is no line.
pub proof fn law_lines_end_at_breaks(a: Seq<char>, b: Seq<char>)
    requires
        !a.contains('\n'),
    ensures
        lines(Seq::empty()) == Seq::<Seq<char>>::empty(),
        a.len() > 0 ==> lines(a) == seq![a],
        a.len() == 0 || a.last() != '\r' ==> lines(a.push('\n') + b) == seq![a] + lines(b),
        lines(a.push('\r').push('\n') + b) == seq![a] + lines(b),
{
    lemma_index_of_char(a, '\n');
    let s = a.push('\n') + b;
    assert forall|k: int| 0 <= k < a.len() implies a[k] != '\n' by {
        assert(a.contains(a[k]));
    }
    assert(forall|k: int| 0 <= k < a.len() ==> s[k] == a[k]);
    lemma_index_of_char_is(s, '\n', a.len() as int);
    assert(s.take(a.len() as int) =~= a);
    assert(s.skip(a.len() as int + 1) =~= b);
    let r = a.push('\r');
    let t = r.push('\n') + b;
    assert(forall|k: int| 0 <= k < a.len() ==> t[k] == a[k]);
    assert(t[a.len() as int] == '\r');
    lemma_index_of_char_is(t, '\n', r.len() as int);
    assert(t.take(r.len() as int) =~= r);
    assert(t.skip(r.len() as int + 1) =~= b);
    assert(r.drop_last() =~= a);
}

/// White space parts words: the words of two texts with white space between
/// them are the words of the first and those of the second, and a text without
/// white space is one word.
pub proof fn law_words_are_parted_by_white_space(a: Seq<char>, c: char, b: Seq<char>)
    requires
        white_space(c),
    ensures
        words(a.push(c) + b) == words(a) + words(b),
        words(Seq::empty()) == Seq::<Seq<char>>::empty(),
        a.len() > 0 && (forall|k: int| 0 <= k < a.len() ==> !white_space(#[trigger] a[k]))
            ==> words(a) == seq![a],
    decreases b.len(),
{
    let s = a.push(c) + b;
    if b.len() == 0 {
        assert(s =~= a.push(c));
        assert(s.drop_last() =~= a);
        assert(words(a) + words(b) =~= words(a));
    } else {
        let t = b.drop_last();
        law_words_are_parted_by_white_space(a, c, t);
        assert(s.drop_last() =~= a.push(c) + t);
        assert(s.last() == b.last());
        if white_space(b.last()) {
        } else if b.len() == 1 {
            assert(s[s.len() - 2] == c);
            assert(t =~= Seq::empty());
            assert(words(b) =~= seq![seq![b.last()]]);
            assert(words(s) =~= words(a) + words(b));
        } else {
            assert(s[s.len() - 2] == b[b.len() - 2]);
            if white_space(b[b.len() - 2]) {
                assert(words(s) =~= words(a) + words(b));
            } else {
                lemma_has_words(t);
                let w = words(t);
                assert((words(a) + w).last() == w.last());
                assert((words(a) + w).drop_last() =~= words(a) + w.drop_last());
                assert(words(s) =~= words(a) + words(b));
            }
        }
    }
    if a.len() > 0 && (forall|k: int| 0 <= k < a.len() ==> !white_space(#[trigger] a[k])) {
        lemma_one_word(a);
    }
}

proof fn lemma_has_words(s: Seq<char>)
    requires
        s.len() > 0,
        !white_space(s.last()),
    ensures
        words(s).len() > 0,
{
}

proof fn lemma_one_word(a: Seq<char>)
    requires
        a.len() > 0,
        forall|k: int| 0 <= k < a.len() ==> !white_space(#[trigger] a[k]),
    ensures
        words(a) == seq![a],
    decreases a.len(),
{
    assert(!white_space(a[a.len() - 1]));
    if a.len() == 1 {
        assert(words(a.drop_last()) =~= Seq::empty());
        assert(words(a) =~= seq![seq![a.last()]]);
        assert(seq![a.last()] =~= a);
    } else {
        let t = a.drop_last();
        assert forall|k: int| 0 <= k < t.len() implies !white_space(#[trigger] t[k]) by {
            assert(t[k] == a[k]);
        }
        lemma_one_word(t);
        assert(!white_space(a[a.len() - 2]));
        assert(t.push(a.last()) =~= a);
        assert(words(a) =~= seq![a]);
    }
}

/// Lower case by ASCII is the same text with each of the letters `A` to `Z` in
/// the place of its small one, 32 further on, and nothing else changed.
pub proof fn law_ascii_lower(s: Seq<char>)
    ensures
        ascii_lower(s).len() == s.len(),
        forall|k: int|
            0 <= k < s.len() ==> {
                let c = #[trigger] ascii_lower(s)[k];
                if 0x41 <= s[k] as u32 <= 0x5a {
                    c as u32 == s[k] as u32 + 32
                } else {
                    c == s[k]
                }
            },
{
}

proof fn lemma_replace_shifts(s: Seq<char>, from: Seq<char>, to: Seq<char>, i: int, at: int)
    requires
        0 <= i <= at <= s.len(),
    ensures
        replace_from(s, from, to, at) == replace_from(s.skip(i), from, to, at - i),
    decreases s.len() - at,
{
    let t = s.skip(i);
    if at < s.len() && from.len() > 0 {
        assert(occurs_at(s, from, at) == occurs_at(t, from, at - i)) by {
            if at + from.len() <= s.len() {
                assert(s.subrange(at, at + from.len()) =~= t.subrange(
                    at - i,
                    at - i + from.len(),
                ));
            }
        }
        if occurs_at(s, from, at) {
            lemma_replace_shifts(s, from, to, i, at + from.len());
        } else {
            lemma_replace_shifts(s, from, to, i, at + 1);
        }
    }
}

proof fn lemma_replace_first(s: Seq<char>, from: Seq<char>, to: Seq<char>, at: int, i: int)
    requires
        from.len() > 0,
        0 <= at <= i <= s.len(),
        forall|k: int| at <= k < i ==> !occurs_at(s, from, k),
    ensures
        replace_from(s, from, to, at) == s.subrange(at, i) + replace_from(s, from, to, i),
    decreases i - at,
{
    if at < i {
        lemma_replace_first(s, from, to, at + 1, i);
        assert(seq![s[at]] + s.subrange(at + 1, i) =~= s.subrange(at, i));
        assert(replace_from(s, from, to, at) =~= s.subrange(at, i) + replace_from(
            s,
            from,
            to,
            i,
        ));
    } else {
        assert(s.subrange(at, i) =~= Seq::empty());
        assert(replace_from(s, from, to, at) =~= s.subrange(at, i) + replace_from(
            s,
            from,
            to,
            i,
        ));
    }
}

/// Replacing puts the new piece in the place of the first occurrence and goes
/// on behind it; a text without an occurrence stays as it is.
pub proof fn law_replaced_from_the_front(s: Seq<char>, from: Seq<char>, to: Seq<char>, i: int)
    requires
        from.len() > 0,
    ensures
        !contains(s, from) ==> replace(s, from, to) == s,
        occurs_at(s, from, i) && (forall|k: int| 0 <= k < i ==> !occurs_at(s, from, k)) ==> replace(
            s,
            from,
            to,
        ) == s.take(i) + to + replace(s.skip(i + from.len()), from, to),
{
    if !contains(s, from) {
        assert(forall|k: int| !occurs_at(s, from, k));
        lemma_replace_first(s, from, to, 0, s.len() as int);
        assert(s.subrange(0, s.len() as int) =~= s);
        assert(replace(s, from, to) =~= s);
    }
    if occurs_at(s, from, i) && (forall|k: int| 0 <= k < i ==> !occurs_at(s, from, k)) {
        lemma_replace_first(s, from, to, 0, i);
        lemma_replace_shifts(s, from, to, i + from.len(), i + from.len());
        assert(s.subrange(0, i) =~= s.take(i));
        assert(replace(s, from, to) =~= s.take(i) + to + replace(
            s.skip(i + from.len()),
            from,
            to,
        ));
    }
}

/// An ending is taken off as often as it is there, and nothing else is.
pub proof fn law_endings_are_taken_off(s: Seq<char>, suffix: Seq<char>)
    requires
        suffix.len() > 0,
    ensures
        trim_end_matches(s + suffix, suffix) == trim_end_matches(s, suffix),
        !suffix.is_suffix_of(s) ==> trim_end_matches(s, suffix) == s,
{
    law_places_of_a_text(s, suffix);
    let t = s + suffix;
    assert(t.subrange(s.len() as int, t.len() as int) =~= suffix);
    assert(t.take(t.len() - suffix.len()) =~= s);
}

} // verus!
