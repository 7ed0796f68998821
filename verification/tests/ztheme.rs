use zskins::zofi::theme::bar_border;
use zskins::zofi::theme::category;
use zskins::zofi::theme::kbd_accent_border;
use zskins::zofi::theme::kbd_accent_fg;
use zskins::zofi::theme::kbd_bg;
use zskins::zofi::theme::kbd_border;
use zskins::zofi::theme::kbd_fg;
use zskins::zofi::theme::kind_image_bg;
use zskins::zofi::theme::kind_image_fg;
use zskins::zofi::theme::kind_text_bg;
use zskins::zofi::theme::pill_active_bg;
use zskins::zofi::theme::pill_active_fg;
use zskins::zofi::theme::kbd_accent_bg;
use zskins::zofi::theme::kind_text_fg;
use zskins::pathname::replace_extension;
use zskins::ztheme::config_path;
use zskins::ztheme::document::can_be_written;
use zskins::ztheme::document::find_text;
use zskins::ztheme::document::read_text;
use zskins::ztheme::document::Section;
use zskins::ztheme::fg_hex;
use zskins::ztheme::is_light;
use zskins::ztheme::is_unknown;
use zskins::ztheme::load;
use zskins::ztheme::name_for;
use zskins::ztheme::save;
use zskins::ztheme::save_to;
use zskins::ztheme::theme_from_name;
use zskins::ztheme::watcher::react;
use zskins::ztheme::watcher::EventKind;
use zskins::ztheme::watcher::Heard;
use zskins::ztheme::watcher::ModifyKind;
use zskins::ztheme::watcher::Reaction;
use zskins::ztheme::Color;
use zskins::ztheme::Theme;
use zskins::ztheme::ThemeError;

const MOCHA_NAME: &str = "catppuccin-mocha";
const LATTE_NAME: &str = "catppuccin-latte";

#[test]
fn mocha_and_latte_are_distinct() {
    assert_ne!(Theme::catppuccin_mocha(), Theme::catppuccin_latte());
}

#[test]
fn name_for_round_trips() {
    assert_eq!(name_for(&Theme::catppuccin_mocha()), Some(MOCHA_NAME));
    assert_eq!(name_for(&Theme::catppuccin_latte()), Some(LATTE_NAME));
}

#[test]
fn a_theme_of_ones_own_has_no_name() {
    let mut t = Theme::catppuccin_mocha();
    t.accent = Color::rgb(0);
    assert_eq!(name_for(&t), None);
}

#[test]
fn theme_from_name_handles_known_and_unknown() {
    assert_eq!(theme_from_name(MOCHA_NAME), Theme::catppuccin_mocha());
    assert_eq!(theme_from_name(LATTE_NAME), Theme::catppuccin_latte());
    assert_eq!(theme_from_name("does-not-exist"), Theme::catppuccin_mocha());
}

#[test]
fn load_missing_file_falls_back_to_mocha() {
    assert_eq!(load(None), Theme::catppuccin_mocha());
}

#[test]
fn load_malformed_falls_back_to_mocha() {
    assert_eq!(load(Some("this is not toml = =")), Theme::catppuccin_mocha());
}

#[test]
fn load_unknown_name_falls_back_to_mocha() {
    assert_eq!(
        load(Some("[theme]\nname = \"solarized\"\n")),
        Theme::catppuccin_mocha()
    );
}

#[test]
fn load_reads_the_name() {
    assert_eq!(
        load(Some("[theme]\nname = \"catppuccin-latte\"\nother = 3\n")),
        Theme::catppuccin_latte()
    );
    assert_eq!(
        load(Some("[other]\nname = \"catppuccin-latte\"\n")),
        Theme::catppuccin_mocha()
    );
    assert_eq!(load(Some("[theme]\nname = 3\n")), Theme::catppuccin_mocha());
}

#[test]
fn save_then_load_round_trips_latte() {
    let plan = save_to("/c/config.toml", LATTE_NAME).unwrap();
    assert_eq!(load(Some(&plan.content)), Theme::catppuccin_latte());
}

#[test]
fn save_then_load_round_trips_mocha() {
    let plan = save_to("/c/config.toml", MOCHA_NAME).unwrap();
    assert_eq!(load(Some(&plan.content)), Theme::catppuccin_mocha());
}

#[test]
fn saving_goes_through_a_temporary_file() {
    let plan = save(LATTE_NAME, Some("/x"), None, None).unwrap();
    assert_eq!(plan.path, "/x/zskins/config.toml");
    assert_eq!(plan.temporary, "/x/zskins/config.toml.tmp");
    assert_eq!(plan.content, "[theme]\nname = \"catppuccin-latte\"\n");
}

#[test]
fn is_light_distinguishes_presets() {
    assert!(!is_light(&Theme::catppuccin_mocha()));
    assert!(is_light(&Theme::catppuccin_latte()));
}

#[test]
fn fg_hex_returns_preset_specific_literal() {
    assert_eq!(fg_hex(&Theme::catppuccin_mocha()), "#cdd6f4");
    assert_eq!(fg_hex(&Theme::catppuccin_latte()), "#4c4f69");
}

#[test]
fn the_dark_theme_is_the_default() {
    assert_eq!(Theme::default(), Theme::catppuccin_mocha());
}

#[test]
fn unknown_names_are_noticed() {
    assert!(is_unknown("solarized"));
    assert!(!is_unknown(MOCHA_NAME));
    assert!(!is_unknown(LATTE_NAME));
}

#[test]
fn configuration_has_its_place() {
    assert_eq!(config_path(Some("/x"), Some("/h"), None), "/x/zskins/config.toml");
    assert_eq!(config_path(None, Some("/h"), None), "/h/.config/zskins/config.toml");
    assert_eq!(config_path(None, None, Some("/s")), "/s/zskins/config.toml");
    assert_eq!(config_path(None, None, None), "zskins-config.toml");
}

#[test]
fn errors_say_where_they_come_from() {
    assert_eq!(ThemeError::Io("a".into()).message(), "io: a");
    assert_eq!(ThemeError::Toml("b".into()).message(), "toml: b");
    assert_eq!(ThemeError::Notify("c".into()).message(), "notify: c");
}

#[test]
fn tints_follow_the_theme() {
    let dark = Theme::catppuccin_mocha();
    let light = Theme::catppuccin_latte();
    assert_eq!(category("windows", &dark), Color::rgb(0x4aa8ff));
    assert_eq!(category("windows", &light), Color::rgb(0x1e66f5));
    assert_eq!(category("other", &dark), dark.accent);
    assert_eq!(kind_text_fg(&light), Color::rgb(0x1e66f5));
    assert_eq!(kbd_accent_bg(&dark), Color::rgb_alpha(0x89b4fa, 25));
}

fn event(kind: EventKind, name: &str) -> Heard {
    Heard::Event {
        kind,
        names: vec![None, Some(name.to_string())],
    }
}

#[test]
fn a_write_leads_to_a_reload() {
    let write = event(EventKind::Modify(ModifyKind::Data), "config.toml");
    assert_eq!(react(false, &write, "config.toml"), Reaction::StartWait);
    assert_eq!(react(true, &write, "config.toml"), Reaction::KeepWaiting);
    assert_eq!(react(true, &Heard::Quiet, "config.toml"), Reaction::Reload);
    assert_eq!(react(true, &Heard::Closed, "config.toml"), Reaction::ReloadAndStop);
}

#[test]
fn other_changes_are_passed_over() {
    let other = event(EventKind::Create, "else.toml");
    assert_eq!(react(false, &other, "config.toml"), Reaction::Listen);
    let touch = event(EventKind::Modify(ModifyKind::Metadata), "config.toml");
    assert_eq!(react(false, &touch, "config.toml"), Reaction::Listen);
    let read = event(EventKind::Access, "config.toml");
    assert_eq!(react(false, &read, "config.toml"), Reaction::Listen);
    assert_eq!(react(false, &Heard::Failure, "config.toml"), Reaction::Listen);
    assert_eq!(react(false, &Heard::Closed, "config.toml"), Reaction::Stop);
}

#[test]
fn product_colours_follow_the_theme() {
    let dark = Theme::catppuccin_mocha();
    let light = Theme::catppuccin_latte();
    assert_eq!(kind_text_bg(&light), Color::rgb_alpha(0x7287fd, 18));
    assert_eq!(kind_image_fg(&dark), Color::rgb(0xffb56e));
    assert_eq!(kind_image_bg(&dark), Color::rgb_alpha(0x7a4a26, 35));
    assert_eq!(bar_border(), Color::rgb_alpha(0x4e4e60, 25));
    assert_eq!(kbd_bg(&light), Color::rgb_alpha(0xccd0da, 70));
    assert_eq!(kbd_fg(&dark), Color::rgb(0xaab1bc));
    assert_eq!(kbd_border(&dark), Color::rgb(0x3d4350));
    assert_eq!(kbd_accent_fg(&dark), Color::rgb(0xe5edff));
    assert_eq!(kbd_accent_border(&light), Color::rgb_alpha(0x1e66f5, 40));
    assert_eq!(pill_active_fg(&light), Color::rgb(0x40a02b));
    assert_eq!(pill_active_bg(&dark), Color::rgb_alpha(0x5ecf8a, 15));
}

#[test]
fn every_name_is_read_back_as_it_was_saved() {
    let names = [
        "solarized",
        "",
        "with \"quotes\"",
        "it's",
        "it's \"both\"",
        "back\\slash",
        "back\\slash and 'quotes'",
        "tab\tand\nline\r\nends",
        "\n",
        "\r",
        "'''",
        "\"\"\"",
        "''' and \"\"\" and \\",
        "\n\"\"\"\"'''\\ \u{1}\u{7f}\u{8}\u{c}",
        "ends in \"\"",
        "\nends in \"\"",
        "\nends in '' \\''",
        "[theme]\nname = \"x\"",
        "\u{feff}é漢\u{10ffff}\u{85}",
        "2024-01-01",
        "# no comment",
    ];
    for name in names {
        let plan = save_to("/c/config.toml", name).unwrap();
        assert_eq!(read_text(&plan.content, "theme", "name").as_deref(), Some(name));
        assert_eq!(load(Some(&plan.content)), theme_from_name(name));
    }
}

#[test]
fn texts_are_found_in_sections() {
    let sections = vec![
        ("a".to_string(), Section::Scalar),
        (
            "b".to_string(),
            Section::Table(vec![
                ("x".to_string(), None),
                ("y".to_string(), Some("1".to_string())),
                ("y".to_string(), Some("2".to_string())),
            ]),
        ),
        ("c".to_string(), Section::Array(vec![Some("3".to_string()), None])),
        ("d".to_string(), Section::Array(vec![])),
        ("e".to_string(), Section::Array(vec![None, Some("4".to_string())])),
    ];
    assert_eq!(find_text(&sections, "a", "x"), None);
    assert_eq!(find_text(&sections, "b", "x"), None);
    assert_eq!(find_text(&sections, "b", "y").as_deref(), Some("1"));
    assert_eq!(find_text(&sections, "b", "z"), None);
    assert_eq!(find_text(&sections, "c", "x").as_deref(), Some("3"));
    assert_eq!(find_text(&sections, "d", "x"), None);
    assert_eq!(find_text(&sections, "e", "x"), None);
    assert_eq!(find_text(&sections, "f", "x"), None);
}

#[test]
fn documents_hold_texts_in_sections() {
    let document = "top = \"t\"\nlist = [\"l\", 1]\n[theme]\nname = \"n\"\nsize = 3\n[theme.sub]\nname = \"s\"\n";
    assert_eq!(read_text(document, "theme", "name").as_deref(), Some("n"));
    assert_eq!(read_text(document, "theme", "size"), None);
    assert_eq!(read_text(document, "theme", "sub"), None);
    assert_eq!(read_text(document, "list", "name").as_deref(), Some("l"));
    assert_eq!(read_text(document, "top", "name"), None);
    assert_eq!(read_text("[theme", "theme", "name"), None);
    assert_eq!(load(Some("theme = [\"catppuccin-latte\"]")), Theme::catppuccin_latte());
}

#[test]
fn long_runs_of_quotes_cannot_be_written() {
    assert!(can_be_written(&"'".repeat(255)));
    assert!(!can_be_written(&"'".repeat(256)));
    assert!(!can_be_written(&format!("a{}b", "\"".repeat(300))));
    assert!(can_be_written(&"'\"".repeat(400)));
    let plan = save_to("c.toml", &"\"".repeat(255)).unwrap();
    assert_eq!(read_text(&plan.content, "theme", "name"), Some("\"".repeat(255)));
}

#[test]
fn extensions_are_replaced() {
    let paths = [
        "config.toml",
        "/c/config.toml",
        "/c/config",
        "/c/config.",
        "/c/.config",
        "/c/.config.ini",
        "/c/a.b.c",
        "/c.d/e",
        "/c/d.e/",
        "/c/d.e//.",
        "/c/d/./.",
        "..",
        "/c/..",
        ".",
        "./",
        "/",
        "/.",
        "",
        "...",
        "a/...",
        "./a",
    ];
    for path in paths {
        let expected = std::path::Path::new(path).with_extension("toml.tmp");
        assert_eq!(replace_extension(path, "toml.tmp"), expected.to_str().unwrap(), "{path}");
    }
    let plan = save_to("/c/theme.conf", LATTE_NAME).unwrap();
    assert_eq!(plan.temporary, "/c/theme.toml.tmp");
}
