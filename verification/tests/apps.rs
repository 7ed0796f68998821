use std::cell::RefCell;
use std::rc::Rc;
use std::sync::Arc;

use zskins::zofi::source::ActivateOutcome;
use zskins::zofi::source::Image;
use zskins::zofi::source::ImageFormat;
use zskins::zofi::source::Source;
use zskins::zofi::sources::apps::desktop::application_dirs;
use zskins::zofi::sources::apps::desktop::is_desktop_file;
use zskins::zofi::sources::apps::desktop::launch_parts;
use zskins::zofi::sources::apps::desktop::merge_entries;
use zskins::zofi::sources::apps::desktop::parse_desktop_file;
use zskins::zofi::sources::apps::desktop::strip_field_codes;
use zskins::zofi::sources::apps::desktop::DesktopEntry;
use zskins::zofi::sources::apps::AppsSource;
use zskins::zofi::sources::apps::Runner;
use zskins::zofi::usage::UsageStore;
use zskins::zofi::usage::UsageTracker;

struct Counts(RefCell<Vec<(String, String)>>);

impl UsageStore for Counts {
    fn record(&self, source: &str, key: &str) {
        self.0.borrow_mut().push((source.to_string(), key.to_string()));
    }
    fn frecency_bonus(&self, source: &str, key: &str) -> i32 {
        self.0
            .borrow()
            .iter()
            .filter(|(s, k)| s == source && k == key)
            .count() as i32
    }
}

struct Log(Rc<RefCell<Vec<(String, Vec<String>)>>>);

impl Runner for Log {
    fn run(&self, name: &str, parts: &Vec<String>) {
        self.0.borrow_mut().push((name.to_string(), parts.clone()));
    }
}

fn tracker() -> Arc<UsageTracker> {
    Arc::new(UsageTracker::new(Box::new(Counts(RefCell::new(Vec::new())))))
}

fn entry(name: &str, stem: &str) -> DesktopEntry {
    DesktopEntry {
        name: name.to_string(),
        exec_line: String::new(),
        icon_name: None,
        icon_path: None,
        icon_data: None,
        search_key: name.to_lowercase(),
        file_stem: stem.to_string(),
        desktop_path: String::new(),
        startup_wm_class: None,
    }
}

fn source_with(entries: Vec<DesktopEntry>, tracker: Arc<UsageTracker>) -> AppsSource {
    AppsSource::new(entries, tracker, Box::new(Log(Rc::new(RefCell::new(Vec::new())))))
}

#[test]
fn strip_codes() {
    assert_eq!(
        strip_field_codes("/usr/bin/chromium %U"),
        "/usr/bin/chromium"
    );
    assert_eq!(strip_field_codes("app %f --flag"), "app --flag");
    assert_eq!(strip_field_codes("app %%escaped"), "app %escaped");
}

#[test]
fn item_key_returns_file_stem() {
    let s = source_with(vec![entry("Firefox", "firefox")], tracker());
    assert_eq!(s.item_key(0).as_deref(), Some("firefox"));
}

#[test]
fn item_key_is_none_when_file_stem_is_empty() {
    let s = source_with(vec![entry("NoStem", "")], tracker());
    assert_eq!(s.item_key(0), None);
}

#[test]
fn weight_is_zero_by_default() {
    let s = source_with(vec![entry("Firefox", "firefox")], tracker());
    assert_eq!(s.weight(0), 0);
}

#[test]
fn weight_reflects_tracker_bonus_after_record() {
    let tracker = tracker();
    for _ in 0..5 {
        tracker.record("apps", "firefox");
    }
    let s = source_with(vec![entry("Firefox", "firefox")], tracker);
    assert!(s.weight(0) > 0);
}

#[test]
fn activation_runs_the_command() {
    let log = Rc::new(RefCell::new(Vec::new()));
    let mut e = entry("Chromium", "chromium");
    e.exec_line = "/usr/bin/chromium --new %U".to_string();
    let s = AppsSource::new(vec![e], tracker(), Box::new(Log(log.clone())));
    assert_eq!(s.activate(0), ActivateOutcome::Quit);
    assert_eq!(
        log.borrow().as_slice(),
        &[(
            "Chromium".to_string(),
            vec!["/usr/bin/chromium".to_string(), "--new".to_string()]
        )]
    );
}

#[test]
fn command_parts_are_words() {
    assert_eq!(launch_parts("foot -e  vim %F"), vec!["foot", "-e", "vim"]);
}

#[test]
fn desktop_file_is_read() {
    let text = "[Desktop Entry]\nType=Application\nName=Foo\nExec=foo %u\nIcon=foo-icon\nStartupWMClass=Foo\n\n[Desktop Action x]\nName=Other\n";
    let e = parse_desktop_file(text, "foo", "/usr/share/applications/foo.desktop").unwrap();
    assert_eq!(e.name, "Foo");
    assert_eq!(e.exec_line, "foo %u");
    assert_eq!(e.icon_name.as_deref(), Some("foo-icon"));
    assert_eq!(e.search_key, "foo");
    assert_eq!(e.startup_wm_class.as_deref(), Some("Foo"));
    assert_eq!(e.file_stem, "foo");
}

#[test]
fn hidden_desktop_files_are_left_out() {
    let hidden = "[Desktop Entry]\nType=Application\nName=A\nExec=a\nNoDisplay=true\n";
    assert!(parse_desktop_file(hidden, "a", "a").is_none());
    let link = "[Desktop Entry]\nType=Link\nName=A\nExec=a\n";
    assert!(parse_desktop_file(link, "a", "a").is_none());
    let nameless = "[Desktop Entry]\nType=Application\nExec=a\n";
    assert!(parse_desktop_file(nameless, "a", "a").is_none());
}

#[test]
fn user_files_take_the_place_of_the_systems() {
    let merged = merge_entries(vec![
        ("b.desktop".to_string(), entry("Beta", "b")),
        ("a.desktop".to_string(), entry("alpha", "a")),
        ("b.desktop".to_string(), entry("Beta Own", "b")),
    ]);
    let names: Vec<String> = merged.iter().map(|e| e.name.clone()).collect();
    assert_eq!(names, vec!["alpha".to_string(), "Beta Own".to_string()]);
}

#[test]
fn application_directories() {
    assert_eq!(
        application_dirs(None, Some("/home/u")),
        (
            "/usr/share/applications".to_string(),
            "/home/u/.local/share/applications".to_string()
        )
    );
    assert_eq!(application_dirs(Some("/d"), None).1, "/d/applications");
    assert_eq!(application_dirs(None, None).1, "/tmp/applications");
    assert!(is_desktop_file(Some("desktop")));
    assert!(!is_desktop_file(Some("txt")));
    assert!(!is_desktop_file(None));
}

#[test]
fn an_image_makes_its_path_superfluous() {
    let image = Arc::new(Image {
        format: ImageFormat::Png,
        bytes: vec![1],
        id: 1,
    });
    let e = entry("A", "a").with_icon(Some("/a.png".to_string()), Some(image));
    assert!(e.icon_path.is_none());
    assert!(e.icon_data.is_some());
    let e = entry("A", "a").with_icon(Some("/a.png".to_string()), None);
    assert_eq!(e.icon_path.as_deref(), Some("/a.png"));
}
