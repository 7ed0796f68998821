//! What the bar's pills have in common.

use vstd::prelude::*;

use crate::numeral;
use crate::ztheme;
use crate::ztheme::Color;
use crate::ztheme::Theme;

verus! {

/// A colour of the theme, by the part it plays.
#[derive(Clone, Copy, Debug, PartialEq, Eq, Structural)]
pub enum Tone {
    Fg,
    FgDim,
    Accent,
    AccentSoft,
    Urgent,
    Warning,
    Success,
    Transparent,
}

/// A percentage as the bar shows it: right-aligned in three columns.
pub open spec fn pct_text(value: nat) -> Seq<char> {
    let digits = numeral::decimal(value);
    let pad = if digits.len() < 3 {
        (3 - digits.len()) as nat
    } else {
        0
    };
    (Seq::new(pad, |i: int| ' ') + digits).push('%')
}

proof fn lemma_decimal_len(n: nat)
    ensures
        n < 10 ==> numeral::decimal(n).len() == 1,
        10 <= n < 100 ==> numeral::decimal(n).len() == 2,
        100 <= n ==> numeral::decimal(n).len() >= 3,
    decreases n,
{
    if n >= 10 {
        lemma_decimal_len(n / 10);
    }
}

/// Writes a percentage.
pub fn pct_label(value: u32) -> (r: String)
    ensures
        r@ == pct_text(value as nat),
{
    let mut s = String::new();
    proof {
        lemma_decimal_len(value as nat);
    }
    if value < 100 {
        s.push(' ');
    }
    if value < 10 {
        s.push(' ');
    }
    numeral::push_decimal(&mut s, value as u64);
    s.push('%');
    proof {
        assert(s@ =~= pct_text(value as nat));
    }
    s
}

/// The background of the active workspace under the pointer: the soft accent
/// colour, a tenth more opaque.
pub fn accent_dim_hover(t: &Theme) -> (r: Color)
    ensures
        r == ztheme::sheer(
            t.accent_soft.hex,
            if t.accent_soft.percent < 90 {
                (t.accent_soft.percent + 10) as u8
            } else {
                100
            },
        ),
{
    let percent: u8 = if t.accent_soft.percent < 90 {
        t.accent_soft.percent + 10
    } else {
        100
    };
    Color::rgb_alpha(t.accent_soft.hex, percent)
}

} // verus!
