use std::cell::RefCell;
use std::rc::Rc;

use zskins::zofi::source::ActivateOutcome;
use zskins::zofi::source::Layout;
use zskins::zofi::source::Row;
use zskins::zofi::source::RowIcon;
use zskins::zofi::source::Source;
use zskins::zofi::sources::union::saturating_total;
use zskins::zofi::sources::union::UnionSource;

struct StubSource {
    name: &'static str,
    items: Vec<(&'static str, i32, i32)>,
    activate_log: RefCell<Vec<(&'static str, usize)>>,
    layout: Layout,
    banner_text: Option<&'static str>,
}

impl StubSource {
    fn new(name: &'static str, items: Vec<(&'static str, i32, i32)>) -> Self {
        Self {
            name,
            items,
            activate_log: RefCell::new(Vec::new()),
            layout: Layout::List,
            banner_text: None,
        }
    }

    fn with_layout(mut self, layout: Layout) -> Self {
        self.layout = layout;
        self
    }

    fn with_banner(mut self, text: &'static str) -> Self {
        self.banner_text = Some(text);
        self
    }
}

impl Source for StubSource {
    fn name(&self) -> &'static str {
        self.name
    }
    fn icon(&self) -> &'static str {
        "x"
    }
    fn placeholder(&self) -> &'static str {
        ""
    }
    fn empty_text(&self) -> &'static str {
        ""
    }
    fn filter(&self, q: &str) -> Vec<usize> {
        self.items
            .iter()
            .enumerate()
            .filter(|(_, (label, _, _))| q.is_empty() || label.contains(q))
            .map(|(i, _)| i)
            .collect()
    }
    fn filter_scored(&self, q: &str) -> Vec<(usize, i32)> {
        self.filter(q)
            .into_iter()
            .map(|i| (i, self.items[i].2))
            .collect()
    }
    fn weight(&self, ix: usize) -> i32 {
        self.items[ix].1
    }
    fn render_item(&self, ix: usize, selected: bool) -> Row {
        Row {
            gutter: None,
            icon: RowIcon::Glyph('o'),
            title: self.items[ix].0.to_string(),
            subtitle: String::new(),
            selected,
        }
    }
    fn activate(&self, ix: usize) -> ActivateOutcome {
        self.activate_log.borrow_mut().push((self.name, ix));
        ActivateOutcome::Quit
    }
    fn layout(&self) -> Layout {
        self.layout
    }
    fn banner(&self) -> Option<String> {
        self.banner_text.map(|t| t.to_string())
    }
}

fn union(children: Vec<StubSource>) -> UnionSource {
    UnionSource::new(
        children
            .into_iter()
            .map(|c| Box::new(c) as Box<dyn Source>)
            .collect(),
    )
}

fn trace(u: &UnionSource, ix: usize) -> (&'static str, usize) {
    (u.source_name(ix), u.route(ix).inner_ix)
}

#[test]
fn empty_children_returns_no_results() {
    let mut u = union(vec![]);
    assert!(u.filter("").is_empty());
}

#[test]
fn combines_entries_from_all_children() {
    let a = StubSource::new("a", vec![("apple", 0, 0), ("ant", 0, 0)]);
    let b = StubSource::new("b", vec![("bee", 0, 0), ("bat", 0, 0)]);
    let mut u = union(vec![a, b]);
    assert_eq!(u.filter("").len(), 4);
}

#[test]
fn higher_weight_ranks_first() {
    let a = StubSource::new("a", vec![("apple", 0, 0)]);
    let b = StubSource::new("b", vec![("banana", 100, 0)]);
    let mut u = union(vec![a, b]);
    let out = u.filter("");
    assert_eq!(out.len(), 2);
    assert_eq!(trace(&u, 0), ("b", 0));
    assert_eq!(trace(&u, 1), ("a", 0));
}

#[test]
fn match_score_tiebreaks_weight() {
    let a = StubSource::new("a", vec![("alpha", 0, 10)]);
    let b = StubSource::new("b", vec![("beta", 0, 90)]);
    let mut u = union(vec![a, b]);
    u.filter("");
    assert_eq!(trace(&u, 0), ("b", 0));
    assert_eq!(trace(&u, 1), ("a", 0));
}

#[test]
fn weight_plus_score_combined() {
    let a = StubSource::new("a", vec![("a0", 50, 0)]);
    let b = StubSource::new("b", vec![("b0", 0, 60)]);
    let mut u = union(vec![a, b]);
    u.filter("");
    assert_eq!(trace(&u, 0), ("b", 0));
    assert_eq!(trace(&u, 1), ("a", 0));
}

#[test]
fn same_total_respects_child_registration_order() {
    let a = StubSource::new("a", vec![("a0", 10, 0)]);
    let b = StubSource::new("b", vec![("b0", 10, 0)]);
    let mut u = union(vec![a, b]);
    u.filter("");
    assert_eq!(trace(&u, 0), ("a", 0));
    assert_eq!(trace(&u, 1), ("b", 0));
}

#[test]
fn same_total_same_child_uses_inner_order() {
    let a = StubSource::new("a", vec![("x", 5, 0), ("y", 5, 0), ("z", 5, 0)]);
    let mut u = union(vec![a]);
    u.filter("");
    assert_eq!(trace(&u, 0), ("a", 0));
    assert_eq!(trace(&u, 1), ("a", 1));
    assert_eq!(trace(&u, 2), ("a", 2));
}

#[test]
fn filter_query_filters_children() {
    let a = StubSource::new("a", vec![("apple", 0, 0), ("ant", 0, 0)]);
    let b = StubSource::new("b", vec![("app", 0, 0), ("bee", 0, 0)]);
    let mut u = union(vec![a, b]);
    let out = u.filter("app");
    assert_eq!(out.len(), 2);
    assert_eq!(trace(&u, 0), ("a", 0));
    assert_eq!(trace(&u, 1), ("b", 0));
}

struct RcWrap(Rc<StubSource>);

impl Source for RcWrap {
    fn name(&self) -> &'static str {
        self.0.name()
    }
    fn icon(&self) -> &'static str {
        self.0.icon()
    }
    fn placeholder(&self) -> &'static str {
        self.0.placeholder()
    }
    fn empty_text(&self) -> &'static str {
        self.0.empty_text()
    }
    fn filter(&self, q: &str) -> Vec<usize> {
        self.0.filter(q)
    }
    fn filter_scored(&self, q: &str) -> Vec<(usize, i32)> {
        self.0.filter_scored(q)
    }
    fn weight(&self, ix: usize) -> i32 {
        self.0.weight(ix)
    }
    fn render_item(&self, ix: usize, sel: bool) -> Row {
        self.0.render_item(ix, sel)
    }
    fn activate(&self, ix: usize) -> ActivateOutcome {
        self.0.activate(ix)
    }
}

#[test]
fn activate_routes_to_correct_child() {
    let a = Rc::new(StubSource::new("a", vec![("apple", 0, 0)]));
    let b = Rc::new(StubSource::new("b", vec![("bee", 100, 0)]));
    let children: Vec<Box<dyn Source>> =
        vec![Box::new(RcWrap(a.clone())), Box::new(RcWrap(b.clone()))];
    let mut u: UnionSource = UnionSource::new(children);
    u.filter("");
    u.activate(0);
    assert_eq!(a.activate_log.borrow().as_slice(), &[]);
    assert_eq!(b.activate_log.borrow().as_slice(), &[("b", 0)]);
    u.activate(1);
    assert_eq!(a.activate_log.borrow().as_slice(), &[("a", 0)]);
}

#[test]
fn weight_method_routes_to_child() {
    let a = StubSource::new("a", vec![("x", 7, 0)]);
    let b = StubSource::new("b", vec![("y", 42, 0)]);
    let mut u = union(vec![a, b]);
    u.filter("");
    assert_eq!(u.weight(0), 42);
    assert_eq!(u.weight(1), 7);
}

#[test]
fn layout_is_list_unless_any_child_needs_preview() {
    let a = StubSource::new("a", vec![("x", 0, 0)]);
    let b = StubSource::new("b", vec![("y", 0, 0)]);
    let u = union(vec![a, b]);
    assert!(matches!(u.layout(), Layout::List));

    let a = StubSource::new("a", vec![("x", 0, 0)]);
    let b = StubSource::new("b", vec![("y", 0, 0)]).with_layout(Layout::ListAndPreview);
    let u = union(vec![a, b]);
    assert!(matches!(u.layout(), Layout::ListAndPreview));
}

#[test]
fn filter_scored_exposes_combined_totals_in_sorted_order() {
    let a = StubSource::new("a", vec![("x", 10, 5)]);
    let b = StubSource::new("b", vec![("y", 100, 0)]);
    let mut u = union(vec![a, b]);
    let out = u.filter_scored("");
    assert_eq!(out, vec![(0, 100), (1, 15)]);
    assert_eq!(trace(&u, 0), ("b", 0));
    assert_eq!(trace(&u, 1), ("a", 0));
}

#[test]
fn banner_returns_first_some_from_children() {
    let a = StubSource::new("a", vec![("x", 0, 0)]);
    let b = StubSource::new("b", vec![("y", 0, 0)]).with_banner("second");
    let c = StubSource::new("c", vec![("z", 0, 0)]).with_banner("third");
    let u = union(vec![a, b, c]);
    assert_eq!(u.banner().as_deref(), Some("second"));
}

#[test]
fn union_reports_sub_sources_from_children() {
    let a = StubSource::new("apps", vec![("x", 0, 0)]);
    let b = StubSource::new("files", vec![("y", 0, 0)]);
    let u = union(vec![a, b]);
    let subs = u.sub_sources();
    assert_eq!(subs.len(), 2);
    assert_eq!(subs[0].name, "apps");
    assert_eq!(subs[1].name, "files");
    assert_eq!(subs[0].icon, "x");
    assert_eq!(subs[1].icon, "x");
}

#[test]
fn union_filter_respects_sub_filter_all() {
    let a = StubSource::new("a", vec![("apple", 0, 0)]);
    let b = StubSource::new("b", vec![("bee", 0, 0)]);
    let mut u = union(vec![a, b]);
    u.set_sub_filter(None);
    assert_eq!(u.filter("").len(), 2);

    u.set_sub_filter(Some(0));
    u.set_sub_filter(None);
    assert_eq!(u.filter("").len(), 2);
}

#[test]
fn union_filter_respects_sub_filter_single() {
    let a = StubSource::new("a", vec![("apple", 0, 0), ("ant", 0, 0)]);
    let b = StubSource::new("b", vec![("bee", 0, 0)]);
    let mut u = union(vec![a, b]);

    u.set_sub_filter(Some(1));
    let out = u.filter("");
    assert_eq!(out.len(), 1);
    assert_eq!(trace(&u, 0), ("b", 0));

    u.set_sub_filter(Some(0));
    let out = u.filter("");
    assert_eq!(out.len(), 2);
    assert_eq!(trace(&u, 0), ("a", 0));
    assert_eq!(trace(&u, 1), ("a", 1));
}

#[test]
fn union_sub_filter_out_of_range_falls_back_to_all() {
    let a = StubSource::new("a", vec![("apple", 0, 0)]);
    let b = StubSource::new("b", vec![("bee", 0, 0)]);
    let mut u = union(vec![a, b]);
    u.set_sub_filter(Some(99));
    assert_eq!(u.filter("").len(), 2);
}

struct Keyed {
    name: &'static str,
    key: &'static str,
}

impl Source for Keyed {
    fn name(&self) -> &'static str {
        self.name
    }
    fn icon(&self) -> &'static str {
        "?"
    }
    fn placeholder(&self) -> &'static str {
        ""
    }
    fn empty_text(&self) -> &'static str {
        ""
    }
    fn filter(&self, _: &str) -> Vec<usize> {
        vec![0]
    }
    fn filter_scored(&self, _: &str) -> Vec<(usize, i32)> {
        vec![(0, 0)]
    }
    fn render_item(&self, _: usize, _: bool) -> Row {
        unreachable!()
    }
    fn activate(&self, _: usize) -> ActivateOutcome {
        ActivateOutcome::Quit
    }
    fn item_key(&self, _: usize) -> Option<String> {
        Some(self.key.to_string())
    }
}

#[test]
fn item_key_and_source_name_route_to_child() {
    let children: Vec<Box<dyn Source>> = vec![
        Box::new(Keyed {
            name: "windows",
            key: "firefox",
        }),
        Box::new(Keyed {
            name: "apps",
            key: "firefox",
        }),
    ];
    let mut u: UnionSource = UnionSource::new(children).with_name("launch");

    u.filter("");
    assert_eq!(u.item_key(0).as_deref(), Some("firefox"));
    assert_eq!(u.source_name(0), "windows");
    assert_eq!(u.source_name(1), "apps");
    assert_eq!(u.name(), "launch");
}

#[test]
fn builder_methods_override_defaults() {
    let u = union(vec![])
        .with_name("mixed")
        .with_icon("*")
        .with_placeholder("Find anything")
        .with_empty_text("nothing here");
    assert_eq!(u.name(), "mixed");
    assert_eq!(u.icon(), "*");
    assert_eq!(u.placeholder(), "Find anything");
    assert_eq!(u.empty_text(), "nothing here");
}

#[test]
fn totals_stay_within_range() {
    assert_eq!(saturating_total(i32::MAX, 1), i32::MAX);
    assert_eq!(saturating_total(i32::MIN, -1), i32::MIN);
    assert_eq!(saturating_total(2, 3), 5);
}

#[test]
fn rows_of_several_sources_are_marked() {
    let a = StubSource::new("a", vec![("apple", 0, 0)]);
    let b = StubSource::new("b", vec![("bee", 0, 0)]);
    let mut u = union(vec![a, b]);
    u.filter("");
    let row = u.render_item(1, true);
    assert_eq!(row.gutter, Some(("x", "b")));
    assert_eq!(row.title, "bee");
    assert!(row.selected);
    u.set_sub_filter(Some(0));
    u.filter("");
    assert_eq!(u.render_item(0, false).gutter, None);
}
