use std::cell::RefCell;
use std::rc::Rc;
use std::sync::Arc;

use zskins::textmap::TextMap;
use zskins::zofi::source::Image;
use zskins::zofi::source::ImageFormat;
use zskins::zofi::sources::apps::desktop::DesktopEntry;
use zskins::zofi::sources::icon::compose_resolver;
use zskins::zofi::sources::icon::format_from_ext;
use zskins::zofi::sources::icon::icon_query;
use zskins::zofi::sources::icon::index_apps_by_app_id;
use zskins::zofi::sources::icon::name_candidates;
use zskins::zofi::sources::icon::IconQuery;
use zskins::zofi::sources::icon::IconResolver;

#[test]
fn verbatim_first() {
    assert_eq!(name_candidates("foot")[0], "foot");
}

#[test]
fn lowercases_capitalized() {
    let c = name_candidates("Feishu");
    assert!(c.contains(&"Feishu".into()));
    assert!(c.contains(&"feishu".into()));
}

#[test]
fn unwraps_reverse_dns() {
    let c = name_candidates("com.bytedance.Feishu");
    assert!(c.contains(&"Feishu".into()));
    assert!(c.contains(&"feishu".into()));
}

#[test]
fn strips_version_suffix() {
    let c = name_candidates("firefox-esr");
    assert!(c.contains(&"firefox".into()));
}

#[test]
fn deduplicates() {
    let c = name_candidates("foot");
    assert_eq!(c.iter().filter(|s| s.as_str() == "foot").count(), 1);
}

#[test]
fn handles_empty() {
    assert!(name_candidates("").is_empty());
}

#[test]
fn candidates_come_in_order() {
    assert_eq!(
        name_candidates("org.Foo-Bar"),
        vec!["org.Foo-Bar", "org.foo-bar", "Foo-Bar", "foo-bar", "org.Foo", "org.foo", "Foo", "foo"]
    );
}

fn stub_icon() -> Arc<Image> {
    Arc::new(Image {
        format: ImageFormat::Png,
        bytes: Vec::new(),
        id: 0,
    })
}

fn entry(
    name: &str,
    icon_name: Option<&str>,
    file_stem: &str,
    wm_class: Option<&str>,
    with_icon: bool,
) -> DesktopEntry {
    DesktopEntry {
        name: name.to_string(),
        exec_line: String::new(),
        icon_name: icon_name.map(str::to_string),
        icon_path: None,
        icon_data: if with_icon { Some(stub_icon()) } else { None },
        search_key: name.to_lowercase(),
        file_stem: file_stem.to_string(),
        desktop_path: String::new(),
        startup_wm_class: wm_class.map(str::to_string),
    }
}

#[test]
fn index_apps_by_name() {
    let entries = vec![entry("Feishu", None, "", None, true)];
    let map = index_apps_by_app_id(&entries);
    assert!(map.contains_key("feishu"));
}

#[test]
fn index_apps_by_icon_name() {
    let entries = vec![entry("Visual Studio Code", Some("code"), "", None, true)];
    let map = index_apps_by_app_id(&entries);
    assert!(map.contains_key("code"));
}

#[test]
fn index_apps_by_file_stem() {
    let entries = vec![entry("Feishu", None, "org.feishu.client", None, true)];
    let map = index_apps_by_app_id(&entries);
    assert!(map.contains_key("org.feishu.client"));
}

#[test]
fn index_apps_by_wm_class() {
    let entries = vec![entry("Feishu Thing", None, "", Some("Feishu"), true)];
    let map = index_apps_by_app_id(&entries);
    assert!(map.contains_key("feishu"));
}

#[test]
fn index_skips_entries_without_icon_data() {
    let entries = vec![entry("Ghost", Some("ghost"), "ghost", None, false)];
    let map = index_apps_by_app_id(&entries);
    assert_eq!(map.len(), 0);
}

#[test]
fn first_application_keeps_its_name() {
    let entries = vec![
        entry("Term", None, "one", None, true),
        entry("Term", None, "two", None, true),
    ];
    let map = index_apps_by_app_id(&entries);
    let got = map.get("term").unwrap();
    assert!(Arc::ptr_eq(got, entries[0].icon_data.as_ref().unwrap()));
}

struct Logging {
    calls: Rc<RefCell<Vec<String>>>,
    answer: Option<Arc<Image>>,
}

impl IconResolver for Logging {
    fn resolve(&self, app_id: &str) -> Option<Arc<Image>> {
        self.calls.borrow_mut().push(app_id.to_string());
        self.answer.clone()
    }
}

#[test]
fn composite_resolver_hits_apps_before_theme() {
    let icon = stub_icon();
    let mut app_map: TextMap<Arc<Image>> = TextMap::new();
    app_map.insert("feishu".into(), icon.clone());
    let calls = Rc::new(RefCell::new(Vec::new()));
    let fallback = Logging {
        calls: calls.clone(),
        answer: None,
    };
    let resolver = compose_resolver(app_map, fallback);

    let got = resolver.resolve("Feishu").expect("app_map should hit");
    assert!(Arc::ptr_eq(&got, &icon));
    assert_eq!(
        calls.borrow().len(),
        0,
        "fallback must not be called on hit"
    );
}

#[test]
fn composite_resolver_falls_back_to_theme_on_miss() {
    let fallback_icon = stub_icon();
    let calls = Rc::new(RefCell::new(Vec::new()));
    let fallback = Logging {
        calls: calls.clone(),
        answer: Some(fallback_icon.clone()),
    };
    let resolver = compose_resolver(TextMap::new(), fallback);

    let got = resolver.resolve("unknown-app").expect("fallback should hit");
    assert!(Arc::ptr_eq(&got, &fallback_icon));
    assert_eq!(calls.borrow().as_slice(), &["unknown-app".to_string()]);
}

#[test]
fn icon_names_may_be_paths() {
    assert!(matches!(icon_query("/usr/share/a.png"), IconQuery::File(p) if p == "/usr/share/a.png"));
    assert!(matches!(icon_query("foot"), IconQuery::Names(v) if v == vec!["foot".to_string()]));
}

#[test]
fn icon_formats_go_by_extension() {
    assert_eq!(format_from_ext(Some("png")), Some(ImageFormat::Png));
    assert_eq!(format_from_ext(Some("svg")), Some(ImageFormat::Svg));
    assert_eq!(format_from_ext(Some("xpm")), None);
    assert_eq!(format_from_ext(None), None);
}
