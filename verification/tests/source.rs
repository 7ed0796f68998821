use zskins::zofi::source::ActivateOutcome;
use zskins::zofi::source::Row;
use zskins::zofi::source::Source;

struct Stub {
    items: Vec<&'static str>,
}

impl Source for Stub {
    fn name(&self) -> &'static str {
        "stub"
    }
    fn icon(&self) -> &'static str {
        "?"
    }
    fn placeholder(&self) -> &'static str {
        ""
    }
    fn empty_text(&self) -> &'static str {
        ""
    }
    fn filter(&self, _query: &str) -> Vec<usize> {
        (0..self.items.len()).collect()
    }
    fn render_item(&self, _ix: usize, _selected: bool) -> Row {
        unreachable!("not exercised in unit tests")
    }
    fn activate(&self, _ix: usize) -> ActivateOutcome {
        ActivateOutcome::Quit
    }
}

#[test]
fn default_weight_is_zero() {
    let s = Stub {
        items: vec!["a", "b", "c"],
    };
    assert_eq!(s.weight(0), 0);
    assert_eq!(s.weight(1), 0);
    assert_eq!(s.weight(2), 0);
}

struct PickTwo;

impl Source for PickTwo {
    fn name(&self) -> &'static str {
        "pick2"
    }
    fn icon(&self) -> &'static str {
        "?"
    }
    fn placeholder(&self) -> &'static str {
        ""
    }
    fn empty_text(&self) -> &'static str {
        ""
    }
    fn filter(&self, _query: &str) -> Vec<usize> {
        vec![0, 2]
    }
    fn render_item(&self, _ix: usize, _selected: bool) -> Row {
        unreachable!()
    }
    fn activate(&self, _ix: usize) -> ActivateOutcome {
        ActivateOutcome::Quit
    }
}

#[test]
fn default_filter_scored_forwards_filter_with_zero_scores() {
    let s = PickTwo;
    assert_eq!(s.filter_scored(""), vec![(0, 0), (2, 0)]);
}

struct Weighted;

impl Source for Weighted {
    fn name(&self) -> &'static str {
        "weighted"
    }
    fn icon(&self) -> &'static str {
        "?"
    }
    fn placeholder(&self) -> &'static str {
        ""
    }
    fn empty_text(&self) -> &'static str {
        ""
    }
    fn filter(&self, _query: &str) -> Vec<usize> {
        Vec::new()
    }
    fn render_item(&self, _ix: usize, _selected: bool) -> Row {
        unreachable!()
    }
    fn activate(&self, _ix: usize) -> ActivateOutcome {
        ActivateOutcome::Quit
    }
    fn weight(&self, ix: usize) -> i32 {
        (ix as i32) * 10 - 5
    }
}

#[test]
fn overridden_weight_is_used() {
    let s = Weighted;
    assert_eq!(s.weight(0), -5);
    assert_eq!(s.weight(1), 5);
    assert_eq!(s.weight(3), 25);
}

struct Scored;

impl Source for Scored {
    fn name(&self) -> &'static str {
        "scored"
    }
    fn icon(&self) -> &'static str {
        "?"
    }
    fn placeholder(&self) -> &'static str {
        ""
    }
    fn empty_text(&self) -> &'static str {
        ""
    }
    fn filter(&self, _query: &str) -> Vec<usize> {
        vec![0]
    }
    fn render_item(&self, _ix: usize, _selected: bool) -> Row {
        unreachable!()
    }
    fn activate(&self, _ix: usize) -> ActivateOutcome {
        ActivateOutcome::Quit
    }
    fn filter_scored(&self, _query: &str) -> Vec<(usize, i32)> {
        vec![(1, 100), (4, 50), (7, 10)]
    }
}

#[test]
fn overridden_filter_scored_returns_custom_scores() {
    let s = Scored;
    assert_eq!(s.filter_scored(""), vec![(1, 100), (4, 50), (7, 10)]);
}

#[test]
fn non_union_source_returns_empty_sub_sources() {
    let s = Stub { items: vec![] };
    assert!(s.sub_sources().is_empty());
    s.set_sub_filter(Some(0));
    s.set_sub_filter(None);
}

#[test]
fn a_source_without_representations_has_no_default_one() {
    let s = Stub { items: vec!["a"] };
    assert!(s.mimes(0).is_empty());
    assert_eq!(s.primary_mime_index(0), None);
    assert!(s.preview_for_mime(0, "text/plain").is_none());
    assert_eq!(s.activate_with_mime(0, "text/plain"), ActivateOutcome::Quit);
    assert_eq!(s.source_name(0), "stub");
}
