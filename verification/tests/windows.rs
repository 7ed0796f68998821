use std::cell::RefCell;
use std::rc::Rc;
use std::sync::Arc;

use zskins::textmap::TextMap;
use zskins::zofi::source::RowIcon;
use zskins::zofi::source::ActivateOutcome;
use zskins::zofi::source::Image;
use zskins::zofi::source::ImageFormat;
use zskins::zofi::source::Preview;
use zskins::zofi::source::Source;
use zskins::zofi::sources::icon::IconResolver;
use zskins::zofi::sources::windows::apply_event;
use zskins::zofi::sources::windows::encode_capture;
use zskins::zofi::sources::windows::ActivateWindow;
use zskins::zofi::sources::windows::ThumbnailMap;
use zskins::zofi::sources::windows::WindowRow;
use zskins::zofi::sources::windows::WindowsSource;
use zskins::zofi::usage::UsageStore;
use zskins::zofi::usage::UsageTracker;
use zskins::zwindows::screencopy::RgbaBuffer;
use zskins::zwindows::Toplevel;
use zskins::zwindows::ToplevelEvent;

type Ids = Rc<RefCell<Vec<u64>>>;

struct Send(Ids);

impl ActivateWindow for Send {
    fn activate(&self, id: u64) {
        self.0.borrow_mut().push(id);
    }
}

struct Counts(RefCell<Vec<(String, String)>>);

impl UsageStore for Counts {
    fn record(&self, source: &str, key: &str) {
        self.0.borrow_mut().push((source.to_string(), key.to_string()));
    }
    fn frecency_bonus(&self, source: &str, key: &str) -> i32 {
        self.0
            .borrow()
            .iter()
            .filter(|(s, k)| s == source && k == key)
            .count() as i32
    }
}

fn row(id: u64, app: &str, title: &str, activated: bool) -> WindowRow {
    WindowRow::build(id, app.to_string(), title.to_string(), activated)
}

fn fixture() -> (WindowsSource, Ids) {
    let ids: Ids = Rc::new(RefCell::new(Vec::new()));
    let rows = vec![
        row(1, "firefox", "Issues · zskins", false),
        row(2, "kitty", "~/src/zskins", true),
        row(3, "Code", "main.rs — zofi", false),
    ];
    (
        WindowsSource::from_snapshot(rows, Box::new(Send(ids.clone()))),
        ids,
    )
}

#[test]
fn name_icon_placeholder_and_empty_text() {
    let (src, _) = fixture();
    assert_eq!(src.name(), "windows");
    assert_eq!(src.icon(), "◱");
    assert_eq!(src.placeholder(), "Search windows...");
    assert_eq!(src.empty_text(), "No windows");
}

#[test]
fn filter_empty_query_returns_all() {
    let (src, _) = fixture();
    assert_eq!(src.filter(""), vec![0, 1, 2]);
}

#[test]
fn filter_substring_matches_app_id() {
    let (src, _) = fixture();
    assert_eq!(src.filter("fire"), vec![0]);
    assert_eq!(src.filter("FIRE"), vec![0]);
}

#[test]
fn filter_substring_matches_title_across_rows() {
    let (src, _) = fixture();
    assert_eq!(src.filter("zskins"), vec![0, 1]);
}

#[test]
fn filter_case_insensitive_on_mixed_case_app_id() {
    let (src, _) = fixture();
    assert_eq!(src.filter("code"), vec![2]);
}

#[test]
fn filter_scored_prefix_beats_substring() {
    let (src, _) = fixture();
    let prefix = src.filter_scored("fire");
    let substring = src.filter_scored("ire");
    assert_eq!(prefix, vec![(0, 30)]);
    assert_eq!(substring, vec![(0, 15)]);
}

#[test]
fn filter_scored_title_prefix_beats_title_substring() {
    let (src, _) = fixture();
    let prefix = src.filter_scored("Issues");
    assert_eq!(prefix, vec![(0, 20)]);
    let substr = src.filter_scored("ues");
    assert_eq!(substr, vec![(0, 10)]);
}

#[test]
fn filter_scored_empty_query_gives_zero_scores() {
    let (src, _) = fixture();
    assert_eq!(src.filter_scored(""), vec![(0, 0), (1, 0), (2, 0)]);
}

#[test]
fn weight_base_is_100_for_inactive_window() {
    let (src, _) = fixture();
    assert_eq!(src.weight(0), 100);
    assert_eq!(src.weight(2), 100);
}

#[test]
fn weight_includes_activated_bonus() {
    let (src, _) = fixture();
    assert_eq!(src.weight(1), 110);
}

#[test]
fn weight_folds_tracker_frecency_bonus() {
    let (src, _) = fixture();
    let base = src.weight(0);
    let tracker: Arc<UsageTracker> = Arc::new(UsageTracker::new(Box::new(Counts(RefCell::new(Vec::new())))));
    for _ in 0..10 {
        tracker.record("windows", "firefox");
    }
    let src = src.with_tracker(tracker);
    assert!(
        src.weight(0) > base,
        "firefox weight with tracker should exceed baseline {base}"
    );
    assert_eq!(src.weight(2), base);
}

#[test]
fn item_key_returns_app_id() {
    let (src, _) = fixture();
    assert_eq!(src.item_key(0).as_deref(), Some("firefox"));
    assert_eq!(src.item_key(2).as_deref(), Some("Code"));
}

#[test]
fn item_key_none_for_empty_app_id() {
    let rows = vec![row(1, "", "no app", false)];
    let src = WindowsSource::from_snapshot(
        rows,
        Box::new(Send(Rc::new(RefCell::new(Vec::new())))),
    );
    assert_eq!(src.item_key(0), None);
}

#[test]
fn activate_invokes_callback_with_correct_id() {
    let (src, ids) = fixture();
    let outcome = src.activate(1);
    assert!(matches!(outcome, ActivateOutcome::Quit));
    assert_eq!(ids.borrow().as_slice(), &[2]);
}

#[test]
fn activate_out_of_range_does_not_panic_or_log() {
    let (src, ids) = fixture();
    let outcome = src.activate(99);
    assert!(matches!(outcome, ActivateOutcome::Quit));
    assert!(ids.borrow().is_empty(), "no id should have been logged");
}

#[test]
fn window_row_build_assembles_search_key_lowercased() {
    let r = row(42, "Firefox", "My Title", false);
    assert_eq!(r.search_key, "firefox my title");
    assert_eq!(r.display_label, "My Title");
}

#[test]
fn window_row_build_handles_empty_title() {
    let r = row(1, "kitty", "", false);
    assert_eq!(r.display_label, "kitty");
}

type Memo = TextMap<Option<Arc<Image>>>;

fn null_memo() -> Memo {
    TextMap::new()
}

struct Resolver {
    calls: RefCell<Vec<String>>,
    answer: Option<Arc<Image>>,
}

impl IconResolver for Resolver {
    fn resolve(&self, app_id: &str) -> Option<Arc<Image>> {
        self.calls.borrow_mut().push(app_id.to_string());
        self.answer.clone()
    }
}

fn null_resolver() -> Resolver {
    Resolver {
        calls: RefCell::new(Vec::new()),
        answer: None,
    }
}

fn toplevel(id: u64, app_id: &str, title: &str) -> Toplevel {
    Toplevel {
        id,
        app_id: Some(app_id.into()),
        title: Some(title.into()),
        activated: false,
        minimized: false,
    }
}

fn stub_icon() -> Arc<Image> {
    Arc::new(Image {
        format: ImageFormat::Png,
        bytes: Vec::new(),
        id: 0,
    })
}

#[test]
fn apply_event_added_appends_new_row() {
    let mut items: Vec<WindowRow> = Vec::new();
    apply_event(
        &mut items,
        ToplevelEvent::Added(toplevel(1, "firefox", "t")),
        &null_resolver(),
        &mut null_memo(),
        &mut 0,
    );
    assert_eq!(items.len(), 1);
    assert_eq!(items[0].id, 1);
}

#[test]
fn apply_event_updated_replaces_same_id_row() {
    let mut items = vec![row(1, "firefox", "old", false)];
    apply_event(
        &mut items,
        ToplevelEvent::Updated(Toplevel {
            id: 1,
            app_id: Some("firefox".into()),
            title: Some("new".into()),
            activated: true,
            minimized: false,
        }),
        &null_resolver(),
        &mut null_memo(),
        &mut 0,
    );
    assert_eq!(items.len(), 1, "update must not duplicate");
    assert_eq!(items[0].title, "new");
    assert!(items[0].activated);
}

#[test]
fn apply_event_removed_drops_the_row() {
    let mut items = vec![row(1, "a", "", false), row(2, "b", "", false)];
    apply_event(
        &mut items,
        ToplevelEvent::Removed(1),
        &null_resolver(),
        &mut null_memo(),
        &mut 0,
    );
    assert_eq!(items.len(), 1);
    assert_eq!(items[0].id, 2);
}

#[test]
fn icon_resolver_called_with_app_id() {
    let resolver = null_resolver();
    let mut items: Vec<WindowRow> = Vec::new();
    apply_event(
        &mut items,
        ToplevelEvent::Added(toplevel(1, "Firefox", "t")),
        &resolver,
        &mut null_memo(),
        &mut 0,
    );
    assert_eq!(resolver.calls.borrow().as_slice(), &["Firefox".to_string()]);
}

#[test]
fn icon_data_populated_from_resolver() {
    let icon = stub_icon();
    let resolver = Resolver {
        calls: RefCell::new(Vec::new()),
        answer: Some(icon.clone()),
    };
    let mut items: Vec<WindowRow> = Vec::new();
    apply_event(
        &mut items,
        ToplevelEvent::Added(toplevel(1, "firefox", "t")),
        &resolver,
        &mut null_memo(),
        &mut 0,
    );
    let got = items[0]
        .icon_data
        .as_ref()
        .expect("icon_data should be Some");
    assert!(
        Arc::ptr_eq(got, &icon),
        "row must carry the Arc returned by the resolver"
    );
}

#[test]
fn icon_data_none_when_resolver_returns_none() {
    let mut items: Vec<WindowRow> = Vec::new();
    apply_event(
        &mut items,
        ToplevelEvent::Added(toplevel(1, "nonexistent-app", "t")),
        &null_resolver(),
        &mut null_memo(),
        &mut 0,
    );
    assert!(items[0].icon_data.is_none());
}

#[test]
fn icon_cache_hits_on_repeat_app_id() {
    let resolver = Resolver {
        calls: RefCell::new(Vec::new()),
        answer: Some(stub_icon()),
    };
    let mut items: Vec<WindowRow> = Vec::new();
    let mut memo = null_memo();
    apply_event(
        &mut items,
        ToplevelEvent::Added(toplevel(1, "firefox", "a")),
        &resolver,
        &mut memo,
        &mut 0,
    );
    apply_event(
        &mut items,
        ToplevelEvent::Added(toplevel(2, "firefox", "b")),
        &resolver,
        &mut memo,
        &mut 0,
    );
    assert_eq!(resolver.calls.borrow().len(), 1);
}

#[test]
fn icon_cache_misses_differ_by_app_id() {
    let resolver = null_resolver();
    let mut items: Vec<WindowRow> = Vec::new();
    let mut memo = null_memo();
    apply_event(
        &mut items,
        ToplevelEvent::Added(toplevel(1, "firefox", "a")),
        &resolver,
        &mut memo,
        &mut 0,
    );
    apply_event(
        &mut items,
        ToplevelEvent::Added(toplevel(2, "kitty", "b")),
        &resolver,
        &mut memo,
        &mut 0,
    );
    let got = resolver.calls.borrow().clone();
    assert_eq!(got, vec!["firefox".to_string(), "kitty".to_string()]);
}

#[test]
fn icon_cache_memoises_none_results() {
    let resolver = null_resolver();
    let mut items: Vec<WindowRow> = Vec::new();
    let mut memo = null_memo();
    apply_event(
        &mut items,
        ToplevelEvent::Added(toplevel(1, "ghost", "a")),
        &resolver,
        &mut memo,
        &mut 0,
    );
    apply_event(
        &mut items,
        ToplevelEvent::Updated(toplevel(1, "ghost", "b")),
        &resolver,
        &mut memo,
        &mut 0,
    );
    assert_eq!(resolver.calls.borrow().len(), 1);
}

#[test]
fn preview_returns_text_when_no_thumbnail_present() {
    let (src, _) = fixture();
    match src.preview(0) {
        Some(Preview::Text(t)) => {
            assert!(t.contains("firefox"), "text preview should mention app_id");
        }
        _ => panic!("expected textual fallback"),
    }
}

#[test]
fn preview_text_says_what_is_known() {
    let (src, _) = fixture();
    match src.preview(1) {
        Some(Preview::Text(t)) => assert_eq!(
            t,
            "~/src/zskins\n\nApp ID\nkitty\n\nState\nactive\n\nWindow ID\n2\n"
        ),
        _ => panic!("expected textual fallback"),
    }
}

fn thumbs(app: &str, title: &str, img: Arc<Image>) -> ThumbnailMap {
    let mut map = ThumbnailMap::new();
    map.insert(app.to_string(), title.to_string(), img);
    map
}

#[test]
fn preview_returns_image_when_thumbnail_seeded() {
    let (src, _) = fixture();
    let img = stub_icon();
    let src = src.with_thumbnails(thumbs("firefox", "Issues · zskins", img.clone()));
    match src.preview(0) {
        Some(Preview::Image(got)) => assert!(Arc::ptr_eq(&got, &img)),
        _ => panic!("expected image preview"),
    }
}

#[test]
fn preview_falls_back_to_text_when_thumbnail_key_misses() {
    let (src, _) = fixture();
    let src = src.with_thumbnails(thumbs("other-app", "other-title", stub_icon()));
    assert!(matches!(src.preview(0), Some(Preview::Text(_))));
}

fn full_stub_image(bytes: Vec<u8>) -> Arc<Image> {
    Arc::new(Image {
        format: ImageFormat::Png,
        bytes,
        id: 42,
    })
}

#[test]
fn can_peek_and_can_copy_image_are_true() {
    let (src, _) = fixture();
    assert!(src.can_peek());
    assert!(src.can_copy_image());
}

#[test]
fn peek_image_none_when_full_thumbs_empty() {
    let (src, _) = fixture();
    assert!(src.peek_image(0).is_none());
}

#[test]
fn peek_image_some_when_full_thumbs_seeded() {
    let (src, _) = fixture();
    let img = full_stub_image(vec![1, 2, 3]);
    let src = src.with_full_thumbnails(thumbs("firefox", "Issues · zskins", img.clone()));
    let got = src.peek_image(0).expect("row 0 should hit full_thumbs");
    assert!(Arc::ptr_eq(&got, &img));
}

#[test]
fn peek_image_none_for_out_of_range_row() {
    let (src, _) = fixture();
    let src = src.with_full_thumbnails(thumbs(
        "firefox",
        "Issues · zskins",
        full_stub_image(vec![1]),
    ));
    assert!(src.peek_image(99).is_none());
}

#[test]
fn copy_image_bytes_returns_png_bytes_when_present() {
    let (src, _) = fixture();
    let png = vec![137, 80, 78, 71, 13, 10, 26, 10];
    let src = src.with_full_thumbnails(thumbs(
        "firefox",
        "Issues · zskins",
        full_stub_image(png.clone()),
    ));
    let got = src
        .copy_image_bytes(0)
        .expect("row 0 should have copyable bytes");
    assert_eq!(&*got, &png);
}

#[test]
fn copy_image_bytes_none_when_full_thumbs_miss() {
    let (src, _) = fixture();
    let src = src.with_full_thumbnails(thumbs("other", "other", full_stub_image(vec![0])));
    assert!(src.copy_image_bytes(0).is_none());
}

#[test]
fn icon_resolver_skipped_for_empty_app_id() {
    let resolver = null_resolver();
    let mut items: Vec<WindowRow> = Vec::new();
    apply_event(
        &mut items,
        ToplevelEvent::Added(toplevel(1, "", "unknown")),
        &resolver,
        &mut null_memo(),
        &mut 0,
    );
    assert_eq!(resolver.calls.borrow().len(), 0);
}

#[test]
fn active_window_is_marked() {
    let (src, _) = fixture();
    let src = src.with_pre_focus(Some(("Code".to_string(), "main.rs — zofi".to_string())));
    let chrome = src.preview_chrome(2).unwrap();
    assert_eq!(chrome.title, "main.rs — zofi");
    assert_eq!(chrome.pills.len(), 1);
    assert_eq!(chrome.pills[0].text, "active");
    assert!(chrome.pills[0].active);
    assert_eq!(
        chrome.metadata,
        vec![
            ("App".to_string(), "Code".to_string()),
            ("ID".to_string(), "0x3".to_string())
        ]
    );
    assert!(src.preview_chrome(0).unwrap().pills.is_empty());
}

#[test]
fn last_active_window_stays_marked() {
    let (mut src, _) = fixture();
    let mut t = toplevel(10, "foot", "sh");
    t.activated = true;
    src.merge(ToplevelEvent::Added(t), None);
    src.merge(ToplevelEvent::Updated(toplevel(10, "foot", "sh")), None);
    assert_eq!(src.target(3), Some(10));
    assert_eq!(src.preview_chrome(3).unwrap().pills.len(), 1);
    src.merge(ToplevelEvent::Removed(10), None);
    assert_eq!(src.target(3), None);
}

#[test]
fn earlier_focus_counts_only_without_an_active_window() {
    let (src, _) = fixture();
    let mut src = src.with_pre_focus(Some(("Code".to_string(), "main.rs — zofi".to_string())));
    assert_eq!(src.preview_chrome(2).unwrap().pills.len(), 1);
    let mut t = toplevel(10, "foot", "sh");
    t.activated = true;
    src.merge(ToplevelEvent::Added(t), None);
    assert!(src.preview_chrome(2).unwrap().pills.is_empty());
    assert_eq!(src.preview_chrome(3).unwrap().pills.len(), 1);
}

#[test]
fn capture_is_encoded_twice() {
    let buf = RgbaBuffer {
        width: 1360,
        height: 2,
        data: vec![9; 1360 * 2 * 4],
    };
    let (full, thumb) = encode_capture(&buf);
    let full = full.unwrap();
    let thumb = thumb.unwrap();
    let full = png::Decoder::new(full.as_slice()).read_info().unwrap();
    let thumb = png::Decoder::new(thumb.as_slice()).read_info().unwrap();
    assert_eq!((full.info().width, full.info().height), (1360, 2));
    assert!(thumb.info().width <= 680);
}

#[test]
fn a_row_without_a_window_is_empty() {
    let (src, _) = fixture();
    let row = src.render_item(9, true);
    assert!(row.gutter.is_none());
    assert!(row.selected);
    assert_eq!((row.title.as_str(), row.subtitle.as_str()), ("", ""));
    assert!(matches!(row.icon, RowIcon::Tile(s) if s.is_empty()));
}
