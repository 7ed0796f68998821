//! Themes: their colours, and the file that says which one is in use.

use vstd::prelude::*;
use vstd::string::*;

use crate::pathname;
use crate::text;

pub mod document;
pub mod watcher;

verus! {

// ---------------------------------------------------------------------------
// Colours
// ---------------------------------------------------------------------------

/// A colour: red, green and blue in a byte each, and how opaque it is.
#[derive(Clone, Copy, Debug, PartialEq, Eq, Structural)]
pub struct Color {
    pub hex: u32,
    pub percent: u8,
}

/// An opaque colour.
pub open spec fn solid(hex: u32) -> Color {
    Color { hex, percent: 100 }
}

/// A colour that shows some of what lies below it.
pub open spec fn sheer(hex: u32, percent: u8) -> Color {
    Color { hex, percent }
}

impl Color {
    /// An opaque colour.
    pub fn rgb(hex: u32) -> (r: Self)
        ensures
            r == solid(hex),
    {
        Color { hex, percent: 100 }
    }

    /// A colour that shows some of what lies below it.
    pub fn rgb_alpha(hex: u32, percent: u8) -> (r: Self)
        ensures
            r == sheer(hex, percent),
    {
        Color { hex, percent }
    }

    pub open spec fn red(self) -> int {
        (self.hex / 0x10000) as int % 0x100
    }

    pub open spec fn green(self) -> int {
        (self.hex / 0x100) as int % 0x100
    }

    pub open spec fn blue(self) -> int {
        self.hex as int % 0x100
    }
}

/// The largest of three numbers.
pub open spec fn largest(a: int, b: int, c: int) -> int {
    if a >= b && a >= c {
        a
    } else if b >= c {
        b
    } else {
        c
    }
}

/// The smallest of three numbers.
pub open spec fn smallest(a: int, b: int, c: int) -> int {
    if a <= b && a <= c {
        a
    } else if b <= c {
        b
    } else {
        c
    }
}

// ---------------------------------------------------------------------------
// Themes
// ---------------------------------------------------------------------------

/// The colours of the shell, by the parts they play.
#[derive(Clone, Copy, Debug, PartialEq, Eq, Structural)]
pub struct Theme {
    pub bg: Color,
    pub surface: Color,
    pub surface_hover: Color,
    pub surface_alt: Color,
    pub fg: Color,
    pub fg_dim: Color,
    pub fg_accent: Color,
    pub accent: Color,
    pub accent_soft: Color,
    pub urgent: Color,
    pub warning: Color,
    pub success: Color,
    pub border: Color,
    pub separator: Color,
    pub selected_bg: Color,
    pub hover_bg: Color,
}

/// The dark theme.
pub open spec fn mocha() -> Theme {
    Theme {
        bg: sheer(0x1e1e2e, 70),
        surface: sheer(0x313244, 50),
        surface_hover: sheer(0x45475a, 60),
        surface_alt: solid(0x181825),
        fg: solid(0xcdd6f4),
        fg_dim: solid(0xa6adc8),
        fg_accent: solid(0xbac2de),
        accent: solid(0x89b4fa),
        accent_soft: sheer(0x89b4fa, 22),
        urgent: solid(0xf38ba8),
        warning: solid(0xfab387),
        success: solid(0xa6e3a1),
        border: sheer(0x6c7086, 20),
        separator: sheer(0x6c7086, 15),
        selected_bg: sheer(0x45475a, 60),
        hover_bg: sheer(0x313244, 50),
    }
}

/// The light theme.
pub open spec fn latte() -> Theme {
    Theme {
        bg: sheer(0xeff1f5, 85),
        surface: sheer(0xccd0da, 40),
        surface_hover: sheer(0xbcc0cc, 55),
        surface_alt: solid(0xe6e9ef),
        fg: solid(0x4c4f69),
        fg_dim: solid(0x6c6f85),
        fg_accent: solid(0x5c5f77),
        accent: solid(0x1e66f5),
        accent_soft: sheer(0x1e66f5, 18),
        urgent: solid(0xd20f39),
        warning: solid(0xfe640b),
        success: solid(0x40a02b),
        border: sheer(0x9ca0b0, 35),
        separator: sheer(0x9ca0b0, 25),
        selected_bg: sheer(0xacb0be, 70),
        hover_bg: sheer(0xbcc0cc, 50),
    }
}

impl Theme {
    /// The dark theme.
    pub fn catppuccin_mocha() -> (r: Self)
        ensures
            r == mocha(),
    {
        Theme {
            bg: Color::rgb_alpha(0x1e1e2e, 70),
            surface: Color::rgb_alpha(0x313244, 50),
            surface_hover: Color::rgb_alpha(0x45475a, 60),
            surface_alt: Color::rgb(0x181825),
            fg: Color::rgb(0xcdd6f4),
            fg_dim: Color::rgb(0xa6adc8),
            fg_accent: Color::rgb(0xbac2de),
            accent: Color::rgb(0x89b4fa),
            accent_soft: Color::rgb_alpha(0x89b4fa, 22),
            urgent: Color::rgb(0xf38ba8),
            warning: Color::rgb(0xfab387),
            success: Color::rgb(0xa6e3a1),
            border: Color::rgb_alpha(0x6c7086, 20),
            separator: Color::rgb_alpha(0x6c7086, 15),
            selected_bg: Color::rgb_alpha(0x45475a, 60),
            hover_bg: Color::rgb_alpha(0x313244, 50),
        }
    }

    /// The light theme.
    pub fn catppuccin_latte() -> (r: Self)
        ensures
            r == latte(),
    {
        Theme {
            bg: Color::rgb_alpha(0xeff1f5, 85),
            surface: Color::rgb_alpha(0xccd0da, 40),
            surface_hover: Color::rgb_alpha(0xbcc0cc, 55),
            surface_alt: Color::rgb(0xe6e9ef),
            fg: Color::rgb(0x4c4f69),
            fg_dim: Color::rgb(0x6c6f85),
            fg_accent: Color::rgb(0x5c5f77),
            accent: Color::rgb(0x1e66f5),
            accent_soft: Color::rgb_alpha(0x1e66f5, 18),
            urgent: Color::rgb(0xd20f39),
            warning: Color::rgb(0xfe640b),
            success: Color::rgb(0x40a02b),
            border: Color::rgb_alpha(0x9ca0b0, 35),
            separator: Color::rgb_alpha(0x9ca0b0, 25),
            selected_bg: Color::rgb_alpha(0xacb0be, 70),
            hover_bg: Color::rgb_alpha(0xbcc0cc, 50),
        }
    }
}

impl Default for Theme {
    fn default() -> (r: Self)
        ensures
            r == mocha(),
    {
        Theme::catppuccin_mocha()
    }
}

/// Whether a theme's background is in the lighter half: halfway between its
/// strongest and its weakest part lies more than half of what a part can be.
pub open spec fn light(t: Theme) -> bool {
    let (r, g, b) = (t.bg.red(), t.bg.green(), t.bg.blue());
    largest(r, g, b) + smallest(r, g, b) > 0xff
}

/// Whether a theme is a light one.
pub fn is_light(theme: &Theme) -> (r: bool)
    ensures
        r == light(*theme),
{
    let red: u32 = (theme.bg.hex / 0x10000) % 0x100;
    let green: u32 = (theme.bg.hex / 0x100) % 0x100;
    let blue: u32 = theme.bg.hex % 0x100;
    let most: u32 = if red >= green && red >= blue {
        red
    } else if green >= blue {
        green
    } else {
        blue
    };
    let least: u32 = if red <= green && red <= blue {
        red
    } else if green <= blue {
        green
    } else {
        blue
    };
    most + least > 0xff
}

/// The dark theme is not light, and the light one is.
pub proof fn law_themes_differ_in_light()
    ensures
        !light(mocha()),
        light(latte()),
        mocha() != latte(),
{
}

/// The foreground of a theme, as it is written in an image.
pub fn fg_hex(theme: &Theme) -> (r: &'static str)
    ensures
        r@ == (if light(*theme) {
            "#4c4f69"@
        } else {
            "#cdd6f4"@
        }),
{
    if is_light(theme) {
        "#4c4f69"
    } else {
        "#cdd6f4"
    }
}

// ---------------------------------------------------------------------------
// Names
// ---------------------------------------------------------------------------

/// The name of a theme in the configuration.
pub open spec fn name_of(t: Theme) -> Option<Seq<char>> {
    if t == mocha() {
        Some("catppuccin-mocha"@)
    } else if t == latte() {
        Some("catppuccin-latte"@)
    } else {
        None
    }
}

/// The theme that a name stands for; unknown names stand for the dark one.
pub open spec fn named(name: Seq<char>) -> Theme {
    if name == "catppuccin-latte"@ {
        latte()
    } else {
        mocha()
    }
}

/// The name of a theme in the configuration, if it is a known one.
pub fn name_for(theme: &Theme) -> (r: Option<&'static str>)
    ensures
        text::opt_str(r) == name_of(*theme),
{
    if *theme == Theme::catppuccin_mocha() {
        Some("catppuccin-mocha")
    } else if *theme == Theme::catppuccin_latte() {
        Some("catppuccin-latte")
    } else {
        None
    }
}

/// The theme that a name stands for.
pub fn theme_from_name(name: &str) -> (r: Theme)
    ensures
        r == named(name@),
{
    if text::str_eq(name, "catppuccin-latte") {
        Theme::catppuccin_latte()
    } else {
        Theme::catppuccin_mocha()
    }
}

/// A theme that has a name is the one that the name stands for.
pub proof fn law_names_round_trip(t: Theme)
    requires
        name_of(t) is Some,
    ensures
        named(name_of(t)->0) == t,
{
    reveal_strlit("catppuccin-mocha");
    reveal_strlit("catppuccin-latte");
    assert("catppuccin-mocha"@[11] != "catppuccin-latte"@[11]);
}

/// Whether a configured name stands for no theme of its own.
pub fn is_unknown(name: &str) -> (r: bool)
    ensures
        r == (name_of(named(name@)) != Some(name@)),
{
    match name_for(&theme_from_name(name)) {
        Some(known) => !text::str_eq(known, name),
        None => false,
    }
}

// ---------------------------------------------------------------------------
// Configuration
// ---------------------------------------------------------------------------

/// Why the configuration could not be used.
#[derive(Debug)]
pub enum ThemeError {
    Io(String),
    Toml(String),
    Notify(String),
}

impl ThemeError {
    /// The error in words.
    pub fn message(&self) -> (r: String)
        ensures
            r@ == (match self {
                ThemeError::Io(why) => "io: "@ + why@,
                ThemeError::Toml(why) => "toml: "@ + why@,
                ThemeError::Notify(why) => "notify: "@ + why@,
            }),
    {
        match self {
            ThemeError::Io(why) => text::concat2("io: ", why.as_str()),
            ThemeError::Toml(why) => text::concat2("toml: ", why.as_str()),
            ThemeError::Notify(why) => text::concat2("notify: ", why.as_str()),
        }
    }
}

/// Where the configuration is: below `$XDG_CONFIG_HOME`, below `.config` in
/// the home directory, or below the configuration directory that the system
/// knows of.
pub open spec fn config_file(
    xdg: Option<Seq<char>>,
    home: Option<Seq<char>>,
    system: Option<Seq<char>>,
) -> Seq<char> {
    let below = |base: Seq<char>|
        pathname::join(pathname::join(base, "zskins"@), "config.toml"@);
    match (xdg, home, system) {
        (Some(d), _, _) => below(d),
        (None, Some(h), _) => below(pathname::join(h, ".config"@)),
        (None, None, Some(d)) => below(d),
        (None, None, None) => "zskins-config.toml"@,
    }
}

/// Where the configuration is.
pub fn config_path(xdg: Option<&str>, home: Option<&str>, system: Option<&str>) -> (r: String)
    ensures
        r@ == config_file(text::opt_str(xdg), text::opt_str(home), text::opt_str(system)),
{
    let base = match (xdg, home, system) {
        (Some(d), _, _) => d.to_owned(),
        (None, Some(h), _) => pathname::join_path(h, ".config"),
        (None, None, Some(d)) => d.to_owned(),
        (None, None, None) => {
            return "zskins-config.toml".to_owned();
        },
    };
    let dir = pathname::join_path(base.as_str(), "zskins");
    pathname::join_path(dir.as_str(), "config.toml")
}

/// The theme that a configured name stands for; without one it is the dark
/// one.
pub open spec fn configured(name: Option<Seq<char>>) -> Theme {
    match name {
        Some(n) => named(n),
        None => mocha(),
    }
}

/// The theme that a configured name stands for.
pub fn theme_configured(name: Option<&str>) -> (r: Theme)
    ensures
        r == configured(text::opt_str(name)),
{
    match name {
        Some(n) => theme_from_name(n),
        None => Theme::catppuccin_mocha(),
    }
}

/// The theme that the configuration asks for. The dark one takes the place of
/// a configuration that cannot be read, is malformed or names no theme.
pub fn load(content: Option<&str>) -> (r: Theme)
    ensures
        r == (match content {
            Some(content) => configured(document::text_in(content@, "theme"@, "name"@)),
            None => mocha(),
        }),
{
    match content {
        Some(content) => match document::read_text(content, "theme", "name") {
            Some(name) => theme_configured(Some(name.as_str())),
            None => theme_configured(None),
        },
        None => Theme::catppuccin_mocha(),
    }
}

/// What saving a configuration takes: the content goes to the temporary file,
/// which then takes the place of the configuration.
#[derive(Debug)]
pub struct SavePlan {
    pub path: String,
    pub temporary: String,
    pub content: String,
}

/// The configuration that asks for a theme, to be written beside `path` first.
/// Loading it gives the theme of that name.
pub fn save_to(path: &str, name: &str) -> (r: Result<SavePlan, ThemeError>)
    requires
        document::few_quotes(name@),
    ensures
        r matches Ok(plan) && {
            &&& plan.path@ == path@
            &&& plan.temporary@ == pathname::with_extension(path@, "toml.tmp"@)
            &&& document::toml_document("theme"@, "name"@, name@) == Ok::<Seq<char>, Seq<char>>(
                plan.content@,
            )
            &&& document::text_in(plan.content@, "theme"@, "name"@) == Some(name@)
            &&& configured(document::text_in(plan.content@, "theme"@, "name"@)) == named(name@)
        },
{
    proof {
        reveal_strlit("theme");
        reveal_strlit("name");
    }
    match document::write_text("theme", "name", name) {
        Ok(content) => Ok(
            SavePlan {
                path: path.to_owned(),
                temporary: pathname::replace_extension(path, "toml.tmp"),
                content,
            },
        ),
        Err(why) => Err(ThemeError::Toml(why)),
    }
}

/// Saves the name of a theme where the configuration is. Loading it gives the
/// theme of that name; the file that is written first is another one, so that
/// the configuration stays as it was until it is replaced.
pub fn save(
    name: &str,
    xdg: Option<&str>,
    home: Option<&str>,
    system: Option<&str>,
) -> (r: Result<SavePlan, ThemeError>)
    requires
        document::few_quotes(name@),
    ensures
        r matches Ok(plan) && {
            &&& plan.path@ == config_file(
                text::opt_str(xdg),
                text::opt_str(home),
                text::opt_str(system),
            )
            &&& plan.temporary@ == pathname::with_extension(plan.path@, "toml.tmp"@)
            &&& plan.temporary@ != plan.path@
            &&& document::toml_document("theme"@, "name"@, name@) == Ok::<Seq<char>, Seq<char>>(
                plan.content@,
            )
            &&& document::text_in(plan.content@, "theme"@, "name"@) == Some(name@)
            &&& configured(document::text_in(plan.content@, "theme"@, "name"@)) == named(name@)
        },
{
    let path = config_path(xdg, home, system);
    proof {
        reveal_strlit("config.toml");
        reveal_strlit("zskins-config.toml");
        reveal_strlit("toml.tmp");
        assert(path@.last() == 'l');
        assert("toml.tmp"@.last() == 'p');
        pathname::law_another_extension_makes_another_path(path@, "toml.tmp"@);
    }
    save_to(path.as_str(), name)
}

/// The configuration lies below the directory that is given for it, else below
/// `.config` of the home directory, else below the system's.
pub proof fn law_config_place(xdg: Option<Seq<char>>, home: Option<Seq<char>>, system: Option<Seq<char>>)
    ensures
        xdg is Some ==> config_file(xdg, home, system) == pathname::join(
            pathname::join(xdg->0, "zskins"@),
            "config.toml"@,
        ),
        xdg is None && home is Some ==> config_file(xdg, home, system) == pathname::join(
            pathname::join(pathname::join(home->0, ".config"@), "zskins"@),
            "config.toml"@,
        ),
        xdg is None && home is None && system is Some ==> config_file(xdg, home, system)
            == pathname::join(pathname::join(system->0, "zskins"@), "config.toml"@),
        xdg is None && home is None && system is None ==> config_file(xdg, home, system)
            == "zskins-config.toml"@,
{
}

/// A theme is light if the lightest and the darkest of its background's three
/// components together are above the middle.
pub proof fn law_light(t: Theme, hi: int, lo: int)
    requires
        hi == t.bg.red() || hi == t.bg.green() || hi == t.bg.blue(),
        lo == t.bg.red() || lo == t.bg.green() || lo == t.bg.blue(),
        lo <= t.bg.red() <= hi,
        lo <= t.bg.green() <= hi,
        lo <= t.bg.blue() <= hi,
    ensures
        light(t) <==> hi + lo > 255,
{
}

/// An unknown name, and none, mean the dark theme.
pub proof fn law_configured_theme(name: Seq<char>)
    ensures
        configured(None) == mocha(),
        configured(Some("catppuccin-latte"@)) == latte(),
        name != "catppuccin-latte"@ ==> configured(Some(name)) == mocha(),
{
}

} // verus!
