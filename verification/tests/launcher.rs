use std::cell::RefCell;
use std::rc::Rc;
use std::sync::Arc;

use zskins::clipd::daemon::Request;
use zskins::zofi::bar::build_bar_slots;
use zskins::zofi::bar::build_prefix_map;
use zskins::zofi::bar::next_slot;
use zskins::zofi::bar::prefix_hints;
use zskins::zofi::bar::short_label;
use zskins::zofi::bar::BarSlot;
use zskins::zofi::launcher::drawing::has_footer;
use zskins::zofi::launcher::drawing::head;
use zskins::zofi::launcher::drawing::key_hints;
use zskins::zofi::launcher::drawing::panel_size;
use zskins::zofi::launcher::drawing::ListContent;
use zskins::zofi::launcher::drawing::PreviewBody;
use zskins::zofi::launcher::CopyReply;
use zskins::zofi::launcher::CopyStep;
use zskins::zofi::launcher::DismissEffect;
use zskins::zofi::launcher::InputEffect;
use zskins::zofi::launcher::Launcher;
use zskins::zofi::launcher::LeftPane;
use zskins::zofi::registry::SourceEntry;
use zskins::zofi::registry::SourceRegistry;
use zskins::zofi::source::ActivateOutcome;
use zskins::zofi::source::InspectorCard;
use zskins::zofi::source::Layout;
use zskins::zofi::source::Preview;
use zskins::zofi::source::PreviewChrome;
use zskins::zofi::source::Row;
use zskins::zofi::source::RowIcon;
use zskins::zofi::source::Source;
use zskins::zofi::source::SourceMeta;
use zskins::zofi::usage::UsageStore;
use zskins::zofi::usage::UsageTracker;

struct Stub {
    name: &'static str,
    children: Vec<SourceMeta>,
    prefix_ch: Option<char>,
}

impl Stub {
    fn plain(name: &'static str) -> Self {
        Self {
            name,
            children: Vec::new(),
            prefix_ch: None,
        }
    }
    fn with_children(name: &'static str, children: Vec<SourceMeta>) -> Self {
        Self {
            name,
            children,
            prefix_ch: None,
        }
    }
    fn with_prefix(mut self, ch: char) -> Self {
        self.prefix_ch = Some(ch);
        self
    }
}

impl Source for Stub {
    fn name(&self) -> &'static str {
        self.name
    }
    fn icon(&self) -> &'static str {
        "x"
    }
    fn prefix(&self) -> Option<char> {
        self.prefix_ch
    }
    fn placeholder(&self) -> &'static str {
        ""
    }
    fn empty_text(&self) -> &'static str {
        ""
    }
    fn filter(&self, _: &str) -> Vec<usize> {
        Vec::new()
    }
    fn render_item(&self, _: usize, _: bool) -> Row {
        unreachable!("not used in slot tests")
    }
    fn activate(&self, _: usize) -> ActivateOutcome {
        ActivateOutcome::Quit
    }
    fn sub_sources(&self) -> Vec<SourceMeta> {
        self.children.clone()
    }
}

fn meta(name: &'static str) -> SourceMeta {
    SourceMeta {
        name,
        icon: "?",
        prefix: None,
    }
}

fn meta_with_prefix(name: &'static str, ch: char) -> SourceMeta {
    SourceMeta {
        name,
        icon: "?",
        prefix: Some(ch),
    }
}

fn refs(v: &[Box<dyn Source>]) -> Vec<&dyn Source> {
    v.iter().map(|b| b.as_ref()).collect()
}

#[test]
fn build_bar_slots_flat_registry_yields_one_slot_per_entry() {
    let sources: Vec<Box<dyn Source>> = vec![
        Box::new(Stub::plain("apps")),
        Box::new(Stub::plain("files")),
        Box::new(Stub::plain("clipboard")),
    ];
    let slots = build_bar_slots(&refs(&sources));
    assert_eq!(
        slots,
        vec![
            BarSlot::Registry(0),
            BarSlot::Registry(1),
            BarSlot::Registry(2),
        ]
    );
}

#[test]
fn build_bar_slots_expands_union_into_all_plus_children() {
    let sources: Vec<Box<dyn Source>> = vec![
        Box::new(Stub::with_children(
            "launch",
            vec![meta("windows"), meta("apps")],
        )),
        Box::new(Stub::plain("files")),
        Box::new(Stub::plain("clipboard")),
    ];
    let slots = build_bar_slots(&refs(&sources));
    assert_eq!(
        slots,
        vec![
            BarSlot::UnionAll(0),
            BarSlot::UnionChild(0, 0),
            BarSlot::UnionChild(0, 1),
            BarSlot::Registry(1),
            BarSlot::Registry(2),
        ]
    );
}

#[test]
fn build_bar_slots_empty_registry_yields_no_slots() {
    let sources: Vec<Box<dyn Source>> = vec![];
    let slots = build_bar_slots(&refs(&sources));
    assert!(slots.is_empty());
}

#[test]
fn next_slot_wraps_at_end() {
    let slots = vec![
        BarSlot::Registry(0),
        BarSlot::Registry(1),
        BarSlot::Registry(2),
    ];
    assert_eq!(next_slot(&slots, 3), 0);
    assert_eq!(next_slot(&slots, 2), 2);
    assert_eq!(next_slot(&slots, 2), 2);
}

#[test]
fn next_slot_handles_empty_input_without_panic() {
    let slots: Vec<BarSlot> = Vec::new();
    assert_eq!(next_slot(&slots, 0), 0);
    assert_eq!(next_slot(&slots, 99), 0);
}

#[test]
fn bar_slot_registry_idx_and_sub_filter_round_trip() {
    assert_eq!(BarSlot::Registry(2).registry_idx(), 2);
    assert_eq!(BarSlot::Registry(2).sub_filter(), None);
    assert_eq!(BarSlot::UnionAll(0).registry_idx(), 0);
    assert_eq!(BarSlot::UnionAll(0).sub_filter(), None);
    assert_eq!(BarSlot::UnionChild(0, 1).registry_idx(), 0);
    assert_eq!(BarSlot::UnionChild(0, 1).sub_filter(), Some(1));
}

#[test]
fn prefix_map_maps_plain_source_prefix_to_registry_slot() {
    let sources: Vec<Box<dyn Source>> = vec![
        Box::new(Stub::plain("apps")),
        Box::new(Stub::plain("files").with_prefix('/')),
    ];
    let r = refs(&sources);
    let slots = build_bar_slots(&r);
    let map = build_prefix_map(&r, &slots);
    assert_eq!(map.get('/'), Some(1));
    assert!(!map.contains_key('>'));
}

#[test]
fn prefix_map_maps_union_child_prefix_to_child_slot() {
    let sources: Vec<Box<dyn Source>> = vec![
        Box::new(Stub::with_children(
            "launch",
            vec![
                meta_with_prefix("windows", '@'),
                meta_with_prefix("apps", '>'),
            ],
        )),
        Box::new(Stub::plain("files").with_prefix('/')),
    ];
    let r = refs(&sources);
    let slots = build_bar_slots(&r);
    let map = build_prefix_map(&r, &slots);
    assert_eq!(map.get('@'), Some(1));
    assert_eq!(map.get('>'), Some(2));
    assert_eq!(map.get('/'), Some(3));
}

#[test]
fn prefix_map_empty_when_no_prefixes() {
    let sources: Vec<Box<dyn Source>> = vec![
        Box::new(Stub::plain("apps")),
        Box::new(Stub::plain("files")),
    ];
    let r = refs(&sources);
    let slots = build_bar_slots(&r);
    let map = build_prefix_map(&r, &slots);
    assert!(map.is_empty());
}

#[test]
fn labels_are_short_and_capitalised() {
    assert_eq!(short_label("clipboard"), "Clip");
    assert_eq!(short_label("apps"), "Apps");
    assert_eq!(short_label(""), "");
}

struct Words {
    name: &'static str,
    prefix_ch: char,
    words: Vec<&'static str>,
    log: Rc<RefCell<Vec<String>>>,
    image: Option<Vec<u8>>,
}

impl Source for Words {
    fn name(&self) -> &'static str {
        self.name
    }
    fn icon(&self) -> &'static str {
        "w"
    }
    fn prefix(&self) -> Option<char> {
        Some(self.prefix_ch)
    }
    fn placeholder(&self) -> &'static str {
        "find"
    }
    fn empty_text(&self) -> &'static str {
        "nothing"
    }
    fn filter(&self, q: &str) -> Vec<usize> {
        (0..self.words.len())
            .filter(|i| self.words[*i].contains(q))
            .collect()
    }
    fn render_item(&self, ix: usize, selected: bool) -> Row {
        Row {
            gutter: None,
            icon: RowIcon::Glyph('w'),
            title: self.words[ix].to_string(),
            subtitle: String::new(),
            selected,
        }
    }
    fn activate(&self, ix: usize) -> ActivateOutcome {
        self.log.borrow_mut().push(self.words[ix].to_string());
        if self.words[ix] == "stay" {
            ActivateOutcome::Refresh
        } else {
            ActivateOutcome::Quit
        }
    }
    fn activate_with_mime(&self, ix: usize, mime: &str) -> ActivateOutcome {
        self.log
            .borrow_mut()
            .push(format!("{} as {mime}", self.words[ix]));
        ActivateOutcome::Quit
    }
    fn mimes(&self, ix: usize) -> Vec<String> {
        if ix == 0 {
            vec!["text/html".to_string(), "text/plain".to_string()]
        } else {
            vec!["text/plain".to_string()]
        }
    }
    fn primary_mime(&self, _: usize) -> Option<String> {
        Some("text/plain".to_string())
    }
    fn item_key(&self, ix: usize) -> Option<String> {
        Some(self.words[ix].to_string())
    }
    fn preview(&self, ix: usize) -> Option<Preview> {
        Some(Preview::Text(self.words[ix].to_string()))
    }
    fn preview_for_mime(&self, _: usize, mime: &str) -> Option<Preview> {
        Some(Preview::Text(mime.to_string()))
    }
    fn can_peek(&self) -> bool {
        true
    }
    fn can_copy_image(&self) -> bool {
        true
    }
    fn copy_image_bytes(&self, _: usize) -> Option<Arc<Vec<u8>>> {
        self.image.clone().map(Arc::new)
    }
}

type Log = Rc<RefCell<Vec<String>>>;

struct Store(Log);

impl UsageStore for Store {
    fn record(&self, source: &str, key: &str) {
        self.0.borrow_mut().push(format!("{source}/{key}"));
    }
    fn frecency_bonus(&self, _: &str, _: &str) -> i32 {
        0
    }
}

fn words(
    name: &'static str,
    prefix_ch: char,
    words: Vec<&'static str>,
    log: &Log,
    image: Option<Vec<u8>>,
) -> SourceEntry {
    SourceEntry::from_source(Box::new(Words {
        name,
        prefix_ch,
        words,
        log: log.clone(),
        image,
    }) as Box<dyn Source>)
}

fn launcher(log: &Log) -> Launcher {
    let registry = SourceRegistry::new(vec![
        words("apps", '>', vec!["alpha", "beta", "stay"], log, None),
        words("files", '/', vec!["one", "two"], log, Some(vec![1, 2])),
    ])
    .with_tracker(Arc::new(UsageTracker::new(Box::new(Store(log.clone())))));
    Launcher::new(registry, 0)
}

fn titles(l: &Launcher) -> Vec<String> {
    match l.list_content() {
        ListContent::Entries(n) => (0..n).map(|i| l.row(i).title).collect(),
        _ => Vec::new(),
    }
}

#[test]
fn everything_is_listed_at_first() {
    let log: Log = Rc::new(RefCell::new(Vec::new()));
    let l = launcher(&log);
    assert_eq!(titles(&l), vec!["alpha", "beta", "stay"]);
    assert_eq!(l.position(), "1/3");
    assert!(l.row(0).selected);
    assert!(!l.row(1).selected);
    assert_eq!(l.slot_label(BarSlot::Registry(1)), "Files");
    assert_eq!(l.slot_icon(BarSlot::Registry(1)), "w");
    assert_eq!(l.slot_tint(BarSlot::Registry(1)), Some("files"));
}

#[test]
fn initial_source_is_clamped() {
    let log: Log = Rc::new(RefCell::new(Vec::new()));
    let registry = SourceRegistry::new(vec![words("apps", '>', vec!["a"], &log, None)]);
    let l: Launcher = Launcher::new(registry, 9);
    assert_eq!(l.position(), "1/1");
}

#[test]
fn typing_narrows_the_list() {
    let log: Log = Rc::new(RefCell::new(Vec::new()));
    let mut l = launcher(&log);
    l.move_down();
    assert_eq!(l.on_input_change("ta"), InputEffect::Filtered);
    assert_eq!(titles(&l), vec!["beta", "stay"]);
    assert_eq!(l.position(), "1/2");
    assert_eq!(l.on_input_change("ta"), InputEffect::Ignored);
    assert_eq!(l.on_input_change("zzz"), InputEffect::Filtered);
    assert_eq!(l.position(), "0/0");
    assert!(matches!(l.list_content(), ListContent::Empty("nothing")));
}

#[test]
fn a_prefix_switches_the_view() {
    let log: Log = Rc::new(RefCell::new(Vec::new()));
    let mut l = launcher(&log);
    assert_eq!(l.on_input_change("/"), InputEffect::Switched);
    assert_eq!(titles(&l), vec!["one", "two"]);
    assert_eq!(l.finish_slot_switch(), "find");
    assert_eq!(l.on_input_change("/"), InputEffect::Consumed);
    assert!(l.on_empty_backspace());
    assert_eq!(titles(&l), vec!["alpha", "beta", "stay"]);
    assert!(!l.on_empty_backspace());
}

#[test]
fn slots_go_round() {
    let log: Log = Rc::new(RefCell::new(Vec::new()));
    let mut l = launcher(&log);
    assert_eq!(l.next_source(), 1);
    assert_eq!(l.prev_source(), 1);
    assert_eq!(l.apply_slot(1, "x"), Some("find"));
    assert_eq!(l.next_source(), 0);
    assert_eq!(l.prev_source(), 0);
    assert_eq!(l.apply_slot(1, "x"), None);
    assert_eq!(l.apply_slot(7, "x"), None);
}

#[test]
fn cursor_stays_in_the_list() {
    let log: Log = Rc::new(RefCell::new(Vec::new()));
    let mut l = launcher(&log);
    l.move_up();
    assert_eq!(l.position(), "1/3");
    for _ in 0..5 {
        l.move_down();
    }
    assert_eq!(l.position(), "3/3");
    l.refilter("be");
    assert_eq!(l.position(), "1/1");
}

#[test]
fn confirming_records_the_use() {
    let log: Log = Rc::new(RefCell::new(Vec::new()));
    let mut l = launcher(&log);
    l.move_down();
    assert_eq!(l.confirm(), ActivateOutcome::Quit);
    assert_eq!(
        log.borrow().as_slice(),
        &["beta".to_string(), "apps/beta".to_string()]
    );
}

#[test]
fn refreshing_lists_everything_again() {
    let log: Log = Rc::new(RefCell::new(Vec::new()));
    let mut l = launcher(&log);
    l.on_input_change("stay");
    assert_eq!(l.confirm(), ActivateOutcome::Refresh);
    assert_eq!(l.position(), "1/3");
}

#[test]
fn confirming_nothing_leaves() {
    let log: Log = Rc::new(RefCell::new(Vec::new()));
    let mut l = launcher(&log);
    l.on_input_change("zzz");
    assert_eq!(l.confirm(), ActivateOutcome::Quit);
    assert!(log.borrow().is_empty());
}

#[test]
fn representations_have_a_pane() {
    let log: Log = Rc::new(RefCell::new(Vec::new()));
    let mut l = launcher(&log);
    assert!(l.toggle_mime_pane());
    assert!(matches!(l.list_content(), ListContent::Mimes(2)));
    assert_eq!(l.mime_row(0).label, "  text/html");
    assert!(l.mime_row(0).selected);
    assert_eq!(l.mime_row(1).label, "● text/plain");
    assert!(l.preview_pane().unwrap().chrome.is_none());
    match l.preview_pane().unwrap().body {
        PreviewBody::Text(t) => assert_eq!(t, "text/html"),
        _ => panic!("expected a text"),
    }
    l.move_down();
    assert_eq!(l.confirm(), ActivateOutcome::Quit);
    assert_eq!(log.borrow()[0], "alpha as text/plain");
    assert_eq!(l.dismiss(), DismissEffect::Repaint);
    assert_eq!(l.dismiss(), DismissEffect::Quit);
}

#[test]
fn one_representation_needs_no_pane() {
    let log: Log = Rc::new(RefCell::new(Vec::new()));
    let mut l = launcher(&log);
    l.move_down();
    assert!(!l.toggle_mime_pane());
    assert!(matches!(l.list_content(), ListContent::Entries(3)));
}

#[test]
fn clicks_select() {
    let log: Log = Rc::new(RefCell::new(Vec::new()));
    let mut l = launcher(&log);
    l.click_row(1);
    assert_eq!(l.position(), "2/3");
    assert!(!l.toggle_mime_pane());
    l.click_row(0);
    assert!(l.toggle_mime_pane());
    l.click_mime(1);
    assert!(l.mime_row(1).selected);
}

#[test]
fn peeking_goes_first_when_leaving() {
    let log: Log = Rc::new(RefCell::new(Vec::new()));
    let mut l = launcher(&log);
    assert!(l.toggle_peek());
    assert!(l.is_peeking());
    assert_eq!(l.peek().status, "alpha");
    assert_eq!(l.dismiss(), DismissEffect::Repaint);
    assert_eq!(l.dismiss(), DismissEffect::Quit);
    l.on_input_change("zzz");
    assert!(!l.toggle_peek());
    assert_eq!(l.peek().status, "");
}

#[test]
fn copying_asks_the_daemon() {
    let log: Log = Rc::new(RefCell::new(Vec::new()));
    let mut l = launcher(&log);
    assert!(matches!(l.copy_image(), CopyStep::NoImage));
    l.apply_slot(1, "");
    match l.copy_image() {
        CopyStep::Send(Request::SetSelection { mime, bytes }) => {
            assert_eq!(mime, "image/png");
            assert_eq!(bytes, vec![1, 2]);
        }
        _ => panic!("expected a request"),
    }
    assert!(l.after_copy(CopyReply::Taken));
    assert!(!l.after_copy(CopyReply::Refused("no".to_string())));
    assert!(!l.after_copy(CopyReply::Unreachable("gone".to_string())));
    assert_eq!(
        l.message(),
        Some("Copy failed: gone (is `zofi clipd` running?)")
    );
    l.on_input_change("zzz");
    assert!(matches!(l.copy_image(), CopyStep::Ignored));
}

#[test]
fn preview_text_is_cut() {
    assert_eq!(head("a\nb\r\nc\n", 2), "a\nb");
    assert_eq!(head("a\n\n", 200), "a\n");
    assert_eq!(head("", 3), "");
}

#[test]
fn panel_has_room_for_a_preview() {
    assert_eq!(panel_size(Layout::List), (640, 380));
    assert_eq!(panel_size(Layout::ListAndPreview), (1080, 540));
}

#[test]
fn key_hints_follow_the_source() {
    let all = key_hints(LeftPane::Items, true, true);
    let labels: Vec<&str> = all.iter().map(|h| h.label).collect();
    assert_eq!(
        labels,
        vec!["Mimes", "Source", "Peek", "Copy", "Close", "Activate"]
    );
    assert_eq!(all[1].keys, vec!["ctrl", "tab"]);
    assert!(all[5].primary);
    let few = key_hints(LeftPane::Mimes, false, false);
    let labels: Vec<&str> = few.iter().map(|h| h.label).collect();
    assert_eq!(labels, vec!["Items", "Source", "Close", "Activate"]);
}

#[test]
fn hints_name_each_prefix_once() {
    let entries = vec![
        SourceEntry::from_source(Box::new(Stub::with_children(
            "launch",
            vec![
                meta_with_prefix("windows", '@'),
                meta_with_prefix("clipboard", '>'),
            ],
        )) as Box<dyn Source>),
        SourceEntry::from_source(Box::new(Stub::plain("files").with_prefix('@'))),
        SourceEntry::from_source(Box::new(Stub::plain("notes").with_prefix('#'))),
    ];
    let hints = prefix_hints(&SourceRegistry::new(entries));
    assert_eq!(
        hints,
        vec![
            ('@', "windows".to_string()),
            ('>', "clip".to_string()),
            ('#', "notes".to_string())
        ]
    );
}

#[test]
fn footers_need_something_to_say() {
    assert!(!has_footer(&None));
    let mut chrome = PreviewChrome {
        title: "t".to_string(),
        pills: Vec::new(),
        metadata: Vec::new(),
    };
    chrome.metadata.push(("a".to_string(), "b".to_string()));
    assert!(has_footer(&Some(chrome)));
}

struct Tabs {
    log: Log,
}

impl Source for Tabs {
    fn name(&self) -> &'static str {
        "launch"
    }
    fn icon(&self) -> &'static str {
        "t"
    }
    fn placeholder(&self) -> &'static str {
        "tabs"
    }
    fn empty_text(&self) -> &'static str {
        ""
    }
    fn filter(&self, q: &str) -> Vec<usize> {
        self.log.borrow_mut().push(format!("filter {q}"));
        vec![0]
    }
    fn render_item(&self, _: usize, _: bool) -> Row {
        unreachable!("not drawn here")
    }
    fn activate(&self, _: usize) -> ActivateOutcome {
        ActivateOutcome::Quit
    }
    fn sub_sources(&self) -> Vec<SourceMeta> {
        vec![meta_with_prefix("windows", '@'), meta_with_prefix("apps", '>')]
    }
    fn set_sub_filter(&self, child: Option<usize>) {
        self.log.borrow_mut().push(format!("only {child:?}"));
    }
    fn preview(&self, _: usize) -> Option<Preview> {
        Some(Preview::Inspector(InspectorCard {
            icon: None,
            title: "card".to_string(),
            subtitle: None,
            rows: Vec::new(),
        }))
    }
    fn preview_chrome(&self, _: usize) -> Option<PreviewChrome> {
        Some(PreviewChrome {
            title: "chrome".to_string(),
            pills: Vec::new(),
            metadata: Vec::new(),
        })
    }
}

#[test]
fn views_restrict_their_source() {
    let log: Log = Rc::new(RefCell::new(Vec::new()));
    let entries = vec![
        SourceEntry::from_source(Box::new(Tabs { log: log.clone() }) as Box<dyn Source>),
        SourceEntry::from_source(Box::new(Stub::plain("files").with_prefix('/'))),
    ];
    let mut l: Launcher = Launcher::new(SourceRegistry::new(entries), 0);
    log.borrow_mut().clear();
    assert!(l.switch_to_slot(2, "q"));
    assert_eq!(log.borrow().as_slice(), &["only Some(1)", "filter q"]);
    log.borrow_mut().clear();
    assert_eq!(l.on_input_change("@"), InputEffect::Switched);
    assert_eq!(log.borrow().as_slice(), &["only Some(0)", "filter "]);
    log.borrow_mut().clear();
    assert!(l.on_empty_backspace());
    assert_eq!(log.borrow().as_slice(), &["only None", "filter "]);
    l.on_input_change("/");
    log.borrow_mut().clear();
    assert_eq!(l.apply_slot(1, "q"), Some("tabs"));
    assert_eq!(log.borrow().as_slice(), &["only Some(0)", "filter "]);
}

#[test]
fn cards_have_no_chrome() {
    let log: Log = Rc::new(RefCell::new(Vec::new()));
    let entries = vec![SourceEntry::from_source(Box::new(Tabs { log }) as Box<dyn Source>)];
    let l: Launcher = Launcher::new(SourceRegistry::new(entries), 0);
    let pane = l.preview_pane().unwrap();
    assert!(matches!(pane.body, PreviewBody::Inspector(_)));
    assert!(pane.chrome.is_none());
}

#[test]
fn messages_go_with_the_next_action() {
    let log: Log = Rc::new(RefCell::new(Vec::new()));
    let mut l = launcher(&log);
    assert!(matches!(l.copy_image(), CopyStep::NoImage));
    assert_eq!(l.message(), Some("No image"));
    l.on_input_change("b");
    assert_eq!(l.message(), None);
    assert!(matches!(l.copy_image(), CopyStep::NoImage));
    assert_eq!(l.on_input_change(">"), InputEffect::Consumed);
    assert_eq!(l.message(), None);
    assert!(matches!(l.copy_image(), CopyStep::NoImage));
    l.update_filter("");
    assert_eq!(l.message(), None);
    assert!(matches!(l.copy_image(), CopyStep::NoImage));
    assert!(l.switch_to_slot(1, ""));
    assert_eq!(l.message(), None);
    assert!(l.switch_to_slot(0, ""));
    assert!(matches!(l.copy_image(), CopyStep::NoImage));
    l.click_row(1);
    assert_eq!(l.message(), None);
}

#[test]
fn representations_are_forgotten_with_their_pane() {
    let log: Log = Rc::new(RefCell::new(Vec::new()));
    let mut l = launcher(&log);
    assert!(l.toggle_mime_pane());
    assert_eq!(l.dismiss(), DismissEffect::Repaint);
    l.click_mime(0);
    assert!(matches!(l.list_content(), ListContent::Mimes(0)));
    l.click_row(0);
    assert!(l.toggle_mime_pane());
    l.click_row(0);
    l.click_mime(0);
    assert!(matches!(l.list_content(), ListContent::Mimes(0)));
}
