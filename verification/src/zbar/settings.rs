//! The settings popup.

use vstd::prelude::*;
use vstd::string::*;

use crate::text;
use crate::zbar::theme::Tone;

verus! {

/// How a theme's row is drawn.
#[derive(Clone, Copy, Debug, PartialEq, Eq, Structural)]
pub struct ThemeRow {
    pub background: Tone,
    pub text: Tone,
    pub mark: char,
}

/// The row of the theme `name` while `active` is the name of the theme in use.
pub fn theme_row(name: &str, active: Option<&str>) -> (r: ThemeRow)
    ensures
        r == (if text::opt_str(active) == Some(name@) {
            ThemeRow { background: Tone::AccentSoft, text: Tone::Accent, mark: '\u{2713}' }
        } else {
            ThemeRow { background: Tone::Transparent, text: Tone::Fg, mark: ' ' }
        }),
{
    let is_selected = match active {
        Some(a) => text::str_eq(a, name),
        None => false,
    };
    if is_selected {
        ThemeRow { background: Tone::AccentSoft, text: Tone::Accent, mark: '\u{2713}' }
    } else {
        ThemeRow { background: Tone::Transparent, text: Tone::Fg, mark: ' ' }
    }
}

} // verus!
