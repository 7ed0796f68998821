//! The beginning of a text, for a list row.

use vstd::prelude::*;
use vstd::string::*;

use crate::text;

verus! {

/// The most bytes of text that a preview shows.
pub const MAX_BYTES: usize = 180;

/// How many bytes a character takes in UTF-8.
pub open spec fn width(c: char) -> nat {
    if (c as u32) < 0x80 {
        1
    } else if (c as u32) < 0x800 {
        2
    } else if (c as u32) < 0x10000 {
        3
    } else {
        4
    }
}

/// How many bytes a text takes in UTF-8.
pub open spec fn byte_len(s: Seq<char>) -> nat
    decreases s.len(),
{
    if s.len() == 0 {
        0
    } else {
        byte_len(s.drop_last()) + width(s.last())
    }
}

/// The longest beginning of `s` that takes at most `max` bytes.
pub open spec fn clipped(s: Seq<char>, max: nat) -> Seq<char>
    decreases s.len(),
{
    if byte_len(s) <= max || s.len() == 0 {
        s
    } else {
        clipped(s.drop_last(), max)
    }
}

/// The first line that is not blank, or an empty text.
pub open spec fn first_line(lines: Seq<Seq<char>>) -> Seq<char>
    decreases lines.len(),
{
    if lines.len() == 0 {
        Seq::empty()
    } else if text::trim(lines[0]).len() > 0 {
        lines[0]
    } else {
        first_line(lines.skip(1))
    }
}

/// The preview of `s`: its first line that is not blank, trimmed, and cut off
/// with an ellipsis where it is too long.
pub open spec fn preview_of(s: Seq<char>) -> Seq<char> {
    let t = text::trim(first_line(text::lines(s)));
    if byte_len(t) <= MAX_BYTES {
        t
    } else {
        clipped(t, MAX_BYTES as nat).push('\u{2026}')
    }
}

fn char_width(c: char) -> (r: usize)
    ensures
        r == width(c),
{
    let u = c as u32;
    if u < 0x80 {
        1
    } else if u < 0x800 {
        2
    } else if u < 0x10000 {
        3
    } else {
        4
    }
}

proof fn lemma_byte_len_grows(s: Seq<char>, n: int)
    requires
        0 <= n <= s.len(),
    ensures
        byte_len(s.take(n)) <= byte_len(s),
    decreases s.len() - n,
{
    if n < s.len() {
        assert(s.take(n + 1).drop_last() == s.take(n));
        lemma_byte_len_grows(s, n + 1);
    } else {
        assert(s.take(n) == s);
    }
}

proof fn lemma_clipped(s: Seq<char>, n: int, max: nat)
    requires
        0 <= n < s.len(),
        byte_len(s.take(n)) <= max,
        byte_len(s.take(n + 1)) > max,
    ensures
        byte_len(s) > max,
        clipped(s, max) == s.take(n),
    decreases s.len(),
{
    lemma_byte_len_grows(s, n + 1);
    if n + 1 == s.len() {
        assert(s.take(n + 1) == s);
        assert(s.drop_last() == s.take(n));
        assert(clipped(s.drop_last(), max) == s.drop_last());
    } else {
        assert(s.drop_last().take(n) == s.take(n));
        assert(s.drop_last().take(n + 1) == s.take(n + 1));
        lemma_clipped(s.drop_last(), n, max);
    }
}

/// Builds a preview.
pub fn build(s: &str) -> (r: String)
    ensures
        r@ == preview_of(s@),
{
    let rows = text::split_lines(text::chars_of(s).as_slice());
    let ghost all = text::lines(s@);
    let empty: Vec<char> = Vec::new();
    let mut line: &[char] = empty.as_slice();
    let mut i: usize = 0;
    proof {
        assert(all.skip(0) == all);
    }
    while i < rows.len()
        invariant_except_break
            first_line(all) == first_line(all.skip(i as int)),
            line@ == Seq::<char>::empty(),
        invariant
            text::chars_views(rows@) == all,
            i <= rows@.len(),
        ensures
            line@ == first_line(all),
        decreases rows.len() - i,
    {
        proof {
            assert(all[i as int] == rows@[i as int]@);
            assert(all.skip(i as int)[0] == all[i as int]);
            assert(all.skip(i as int).skip(1) == all.skip(i + 1));
        }
        if text::trimmed(rows[i].as_slice()).len() > 0 {
            line = rows[i].as_slice();
            break;
        }
        i = i + 1;
    }
    let t = text::trimmed(line);
    let mut out = String::new();
    let mut bytes: usize = 0;
    let mut n: usize = 0;
    proof {
        assert(t@.take(0) == Seq::<char>::empty());
    }
    while n < t.len()
        invariant
            n <= t.len(),
            bytes <= MAX_BYTES,
            bytes == byte_len(t@.take(n as int)),
            out@ == t@.take(n as int),
            t@ == text::trim(first_line(text::lines(s@))),
        decreases t.len() - n,
    {
        let w = char_width(t[n]);
        proof {
            assert(t@.take(n + 1).drop_last() == t@.take(n as int));
        }
        if bytes + w > MAX_BYTES {
            proof {
                lemma_clipped(t@, n as int, MAX_BYTES as nat);
            }
            out.push('\u{2026}');
            return out;
        }
        out.push(t[n]);
        bytes = bytes + w;
        n = n + 1;
        proof {
            assert(out@ =~= t@.take(n as int));
        }
    }
    proof {
        assert(t@.take(n as int) == t@);
    }
    out
}

/// Builds a preview of what may be text; what is not UTF-8 is shown replaced.
pub fn build_from_bytes(bytes: &[u8]) -> (r: String)
    ensures
        r@ == preview_of(text::utf8_lossy(bytes@)),
{
    let s = text::from_utf8_lossy(bytes);
    build(s.as_str())
}

/// A preview never takes more bytes than its limit and an ellipsis.
pub proof fn law_preview_is_short(s: Seq<char>)
    ensures
        byte_len(preview_of(s)) <= MAX_BYTES + 3,
{
    let t = text::trim(first_line(text::lines(s)));
    if byte_len(t) > MAX_BYTES {
        lemma_clipped_fits(t, MAX_BYTES as nat);
        let c = clipped(t, MAX_BYTES as nat);
        assert(c.push('\u{2026}').drop_last() == c);
    }
}

proof fn lemma_clipped_fits(s: Seq<char>, max: nat)
    ensures
        byte_len(clipped(s, max)) <= max,
    decreases s.len(),
{
    if byte_len(s) > max && s.len() > 0 {
        lemma_clipped_fits(s.drop_last(), max);
    }
}

/// The line that is shown is the first that is not blank.
pub proof fn law_first_line_with_text(lines: Seq<Seq<char>>, k: int)
    ensures
        0 <= k < lines.len() && text::trim(lines[k]).len() > 0 && (forall|j: int|
            0 <= j < k ==> text::trim(#[trigger] lines[j]).len() == 0) ==> first_line(lines)
            == lines[k],
        (forall|j: int| 0 <= j < lines.len() ==> text::trim(#[trigger] lines[j]).len() == 0)
            ==> first_line(lines).len() == 0,
    decreases lines.len(),
{
    if lines.len() > 0 && text::trim(lines[0]).len() == 0 {
        let t = lines.skip(1);
        law_first_line_with_text(t, k - 1);
        assert forall|j: int| 0 <= j < t.len() implies #[trigger] t[j] == lines[j + 1] by {}
    }
}

/// A text that is too long is cut to the longest beginning that fits.
pub proof fn law_clipped_to_what_fits(s: Seq<char>, max: nat)
    ensures
        clipped(s, max).is_prefix_of(s),
        byte_len(s) <= max ==> clipped(s, max) == s,
        byte_len(clipped(s, max)) <= max,
        clipped(s, max).len() < s.len() ==> byte_len(s.take(clipped(s, max).len() as int + 1)) > max,
    decreases s.len(),
{
    if byte_len(s) > max && s.len() > 0 {
        let t = s.drop_last();
        law_clipped_to_what_fits(t, max);
        let n = clipped(t, max).len() as int;
        if n < t.len() {
            assert(t.take(n + 1) =~= s.take(n + 1));
        } else {
            assert(clipped(t, max) =~= t);
            assert(s.take(n + 1) =~= s);
        }
    }
}

/// A preview is the first line with text in it, without the white space round
/// it; if it is longer than 180 bytes, its longest beginning that fits, and an
/// ellipsis.
pub proof fn law_preview(s: Seq<char>)
    ensures
        ({
            let t = text::trim(first_line(text::lines(s)));
            &&& byte_len(t) <= 180 ==> preview_of(s) == t
            &&& byte_len(t) > 180 ==> preview_of(s).last() == '\u{2026}' && preview_of(
                s,
            ).drop_last() == clipped(t, 180)
        }),
{
    let t = text::trim(first_line(text::lines(s)));
    if byte_len(t) > 180 {
        assert(preview_of(s).drop_last() =~= clipped(t, 180));
    }
}

} // verus!
