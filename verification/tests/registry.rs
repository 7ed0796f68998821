use std::cell::RefCell;
use std::sync::Arc;

use zskins::zofi::registry::SourceEntry;
use zskins::zofi::registry::SourceRegistry;
use zskins::zofi::source::ActivateOutcome;
use zskins::zofi::source::Row;
use zskins::zofi::source::Source;
use zskins::zofi::usage::UsageStore;
use zskins::zofi::usage::UsageTracker;

struct StubSource(&'static str);

impl Source for StubSource {
    fn name(&self) -> &'static str {
        self.0
    }
    fn icon(&self) -> &'static str {
        "x"
    }
    fn placeholder(&self) -> &'static str {
        ""
    }
    fn empty_text(&self) -> &'static str {
        ""
    }
    fn filter(&self, _: &str) -> Vec<usize> {
        Vec::new()
    }
    fn render_item(&self, _: usize, _: bool) -> Row {
        unreachable!()
    }
    fn activate(&self, _: usize) -> ActivateOutcome {
        ActivateOutcome::Quit
    }
}

struct Counts(RefCell<Vec<(String, String)>>);

impl UsageStore for Counts {
    fn record(&self, source: &str, key: &str) {
        self.0.borrow_mut().push((source.to_string(), key.to_string()));
    }
    fn frecency_bonus(&self, source: &str, key: &str) -> i32 {
        self.0
            .borrow()
            .iter()
            .filter(|(s, k)| s == source && k == key)
            .count() as i32
    }
}

fn entry(name: &'static str) -> SourceEntry {
    SourceEntry::from_source(Box::new(StubSource(name)) as Box<dyn Source>)
}

#[test]
fn position_finds_registered_name() {
    let r = SourceRegistry::new(vec![entry("apps"), entry("files")]);
    assert_eq!(r.position("files"), Some(1));
    assert_eq!(r.position("apps"), Some(0));
    assert_eq!(r.position("missing"), None);
}

#[test]
fn names_joined_lists_in_order() {
    let r = SourceRegistry::new(vec![entry("apps"), entry("clipboard"), entry("files")]);
    assert_eq!(r.names_joined(), "apps, clipboard, files");
}

#[test]
fn len_and_is_empty_match_entries() {
    let empty: SourceRegistry = SourceRegistry::new(vec![]);
    assert_eq!(empty.len(), 0);
    assert!(empty.is_empty());

    let r = SourceRegistry::new(vec![entry("a")]);
    assert_eq!(r.len(), 1);
    assert!(!r.is_empty());
}

#[test]
fn registry_without_tracker_returns_none() {
    let r = SourceRegistry::new(vec![entry("a")]);
    assert!(r.tracker().is_none());
}

#[test]
fn registry_with_tracker_exposes_it() {
    let tracker: Arc<UsageTracker> = Arc::new(UsageTracker::new(Box::new(Counts(RefCell::new(Vec::new())))));
    let r = SourceRegistry::new(vec![entry("a")]).with_tracker(tracker.clone());
    let got = r.tracker().expect("tracker should round-trip");
    assert!(Arc::ptr_eq(got, &tracker));

    got.record("apps", "x");
    assert!(got.frecency_bonus("apps", "x") > 0);
}

#[test]
fn entries_carry_name_and_glyph() {
    let r = SourceRegistry::new(vec![entry("apps")]);
    assert_eq!(r.get(0).name(), "apps");
    assert_eq!(r.entries()[0].icon(), "x");
}
