//! Sizes and colours of the launcher.

use vstd::prelude::*;
use vstd::string::*;

use crate::text;
use crate::ztheme;
use crate::ztheme::Color;
use crate::ztheme::Theme;

verus! {

/// The panel without a preview.
pub const PANEL_W: u32 = 640;

pub const PANEL_H: u32 = 380;

/// The panel with a preview.
pub const SPLIT_LIST_W: u32 = 360;

pub const SPLIT_PREVIEW_W: u32 = 720;

pub const SPLIT_PANEL_H: u32 = 540;

/// The largest image in the preview.
pub const PREVIEW_IMG_MAX_W: u32 = 680;

pub const PREVIEW_IMG_MAX_H: u32 = 508;

pub const PANEL_RADIUS: u32 = 10;

pub const ICON_SIZE: u32 = 24;

pub const ITEM_HEIGHT: u32 = 44;

pub const ITEM_RADIUS: u32 = 6;

pub const INPUT_HEIGHT: u32 = 36;

pub const FONT_SIZE: u32 = 13;

pub const PREVIEW_FONT_SIZE: u32 = 14;

pub const PAD_X: u32 = 12;

pub const GAP: u32 = 8;

/// One of two colours, by how light the theme is.
pub open spec fn chosen(t: Theme, light: Color, dark: Color) -> Color {
    if ztheme::light(t) {
        light
    } else {
        dark
    }
}

fn choose_color(t: &Theme, light: Color, dark: Color) -> (r: Color)
    ensures
        r == chosen(*t, light, dark),
{
    if ztheme::is_light(t) {
        light
    } else {
        dark
    }
}

/// The text of a clipboard entry's kind, where that is text.
pub fn kind_text_fg(t: &Theme) -> (r: Color)
    ensures
        r == chosen(*t, ztheme::solid(0x1e66f5), ztheme::solid(0x7fb8ff)),
{
    choose_color(t, Color::rgb(0x1e66f5), Color::rgb(0x7fb8ff))
}

pub fn kind_text_bg(t: &Theme) -> (r: Color)
    ensures
        r == chosen(*t, ztheme::sheer(0x7287fd, 18), ztheme::sheer(0x3a5a85, 35)),
{
    choose_color(t, Color::rgb_alpha(0x7287fd, 18), Color::rgb_alpha(0x3a5a85, 35))
}

/// The text of a clipboard entry's kind, where that is an image.
pub fn kind_image_fg(t: &Theme) -> (r: Color)
    ensures
        r == chosen(*t, ztheme::solid(0xfe640b), ztheme::solid(0xffb56e)),
{
    choose_color(t, Color::rgb(0xfe640b), Color::rgb(0xffb56e))
}

pub fn kind_image_bg(t: &Theme) -> (r: Color)
    ensures
        r == chosen(*t, ztheme::sheer(0xfe640b, 14), ztheme::sheer(0x7a4a26, 35)),
{
    choose_color(t, Color::rgb_alpha(0xfe640b, 14), Color::rgb_alpha(0x7a4a26, 35))
}

/// The line above the bottom bar.
pub fn bar_border() -> (r: Color)
    ensures
        r == ztheme::sheer(0x4e4e60, 25),
{
    Color::rgb_alpha(0x4e4e60, 25)
}

/// The keys in the bottom bar.
pub fn kbd_bg(t: &Theme) -> (r: Color)
    ensures
        r == chosen(*t, ztheme::sheer(0xccd0da, 70), ztheme::solid(0x30353f)),
{
    choose_color(t, Color::rgb_alpha(0xccd0da, 70), Color::rgb(0x30353f))
}

pub fn kbd_fg(t: &Theme) -> (r: Color)
    ensures
        r == chosen(*t, ztheme::solid(0x4c4f69), ztheme::solid(0xaab1bc)),
{
    choose_color(t, Color::rgb(0x4c4f69), Color::rgb(0xaab1bc))
}

pub fn kbd_border(t: &Theme) -> (r: Color)
    ensures
        r == chosen(*t, ztheme::sheer(0xacb0be, 70), ztheme::solid(0x3d4350)),
{
    choose_color(t, Color::rgb_alpha(0xacb0be, 70), Color::rgb_alpha(0x3d4350, 100))
}

/// The keys of the dominant action.
pub fn kbd_accent_bg(t: &Theme) -> (r: Color)
    ensures
        r == chosen(*t, ztheme::sheer(t.accent.hex, 18), ztheme::sheer(t.accent.hex, 25)),
{
    choose_color(t, Color::rgb_alpha(t.accent.hex, 18), Color::rgb_alpha(t.accent.hex, 25))
}

pub fn kbd_accent_fg(t: &Theme) -> (r: Color)
    ensures
        r == chosen(*t, ztheme::solid(0x1e66f5), ztheme::solid(0xe5edff)),
{
    choose_color(t, Color::rgb(0x1e66f5), Color::rgb(0xe5edff))
}

pub fn kbd_accent_border(t: &Theme) -> (r: Color)
    ensures
        r == chosen(*t, ztheme::sheer(t.accent.hex, 40), ztheme::sheer(t.accent.hex, 45)),
{
    choose_color(t, Color::rgb_alpha(t.accent.hex, 40), Color::rgb_alpha(t.accent.hex, 45))
}

/// A badge in the header of a preview that says what goes on now.
pub fn pill_active_fg(t: &Theme) -> (r: Color)
    ensures
        r == chosen(*t, ztheme::solid(0x40a02b), ztheme::solid(0x5ecf8a)),
{
    choose_color(t, Color::rgb(0x40a02b), Color::rgb(0x5ecf8a))
}

pub fn pill_active_bg(t: &Theme) -> (r: Color)
    ensures
        r == chosen(*t, ztheme::sheer(0x40a02b, 15), ztheme::sheer(0x5ecf8a, 15)),
{
    choose_color(t, Color::rgb_alpha(0x40a02b, 15), Color::rgb_alpha(0x5ecf8a, 15))
}

/// The tint of a source, by its name; an unknown one has the accent colour.
pub open spec fn tint(name: Seq<char>, t: Theme) -> Color {
    if name == "windows"@ {
        chosen(t, ztheme::solid(0x1e66f5), ztheme::solid(0x4aa8ff))
    } else if name == "apps"@ {
        chosen(t, ztheme::solid(0xfe640b), ztheme::solid(0xff9933))
    } else if name == "files"@ {
        chosen(t, ztheme::solid(0x40a02b), ztheme::solid(0x33cc66))
    } else if name == "clipboard"@ {
        chosen(t, ztheme::solid(0x8839ef), ztheme::solid(0xc466ff))
    } else {
        t.accent
    }
}

/// The tint of a source.
pub fn category(name: &str, t: &Theme) -> (r: Color)
    ensures
        r == tint(name@, *t),
{
    if text::str_eq(name, "windows") {
        choose_color(t, Color::rgb(0x1e66f5), Color::rgb(0x4aa8ff))
    } else if text::str_eq(name, "apps") {
        choose_color(t, Color::rgb(0xfe640b), Color::rgb(0xff9933))
    } else if text::str_eq(name, "files") {
        choose_color(t, Color::rgb(0x40a02b), Color::rgb(0x33cc66))
    } else if text::str_eq(name, "clipboard") {
        choose_color(t, Color::rgb(0x8839ef), Color::rgb(0xc466ff))
    } else {
        t.accent
    }
}

/// Each kind of source has a tint of its own in either theme; a source of another
/// name has the theme's accent.
pub proof fn law_tints(name: Seq<char>, t: Theme)
    ensures
        name == "windows"@ ==> tint(name, t) == (if ztheme::light(t) {
            ztheme::solid(0x1e66f5)
        } else {
            ztheme::solid(0x4aa8ff)
        }),
        name != "windows"@ && name != "apps"@ && name != "files"@ && name != "clipboard"@ ==> tint(
            name,
            t,
        ) == t.accent,
        tint("windows"@, t) != tint("apps"@, t),
        tint("apps"@, t) != tint("files"@, t),
        tint("files"@, t) != tint("clipboard"@, t),
{
    reveal_strlit("windows");
    reveal_strlit("apps");
    reveal_strlit("files");
    reveal_strlit("clipboard");
    assert("windows"@.len() == 7);
    assert("apps"@.len() == 4);
    assert("files"@.len() == 5);
    assert("clipboard"@.len() == 9);
}

} // verus!
