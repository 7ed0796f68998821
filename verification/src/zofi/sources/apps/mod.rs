//! Applications to launch.

pub mod desktop;

use vstd::prelude::*;
use vstd::string::*;

use std::sync::Arc;

use crate::sorting;
use crate::text;
use crate::zofi::source;
use crate::zofi::source::ActivateOutcome;
use crate::zofi::source::InspectorCard;
use crate::zofi::source::InspectorRow;
use crate::zofi::source::Layout;
use crate::zofi::source::Preview;
use crate::zofi::source::Row;
use crate::zofi::source::RowIcon;
use crate::zofi::source::Source;
use crate::zofi::usage::UsageTracker;

pub use desktop::DesktopEntry;

verus! {

/// The name under which the use of applications is recorded.
pub const SOURCE_NAME: &'static str = "apps";

/// Something that runs a program.
pub trait Runner {
    /// Runs the first of `parts` with the others as arguments; `name` is what
    /// the application is called.
    fn run(&self, name: &str, parts: &Vec<String>);
}

/// The installed applications.
pub struct AppsSource<R: Runner + ?Sized = dyn Runner> {
    entries: Vec<DesktopEntry>,
    tracker: Arc<UsageTracker>,
    runner: Box<R>,
}

/// The keys that applications are found by.
pub open spec fn search_keys(v: Seq<desktop::EntryView>) -> Seq<Seq<char>> {
    v.map_values(|e: desktop::EntryView| e.search_key)
}

/// The rows that describe an application.
pub open spec fn inspector_rows(e: desktop::EntryView) -> Seq<(Seq<char>, Seq<char>, bool)> {
    let none = Seq::<(Seq<char>, Seq<char>, bool)>::empty();
    let icon_name = match e.icon_name {
        Some(n) => seq![("Icon name"@, n, true)],
        None => none,
    };
    let icon_path = match e.icon_path {
        Some(p) => seq![("Icon path"@, p, true)],
        None => none,
    };
    let file = if e.desktop_path.len() > 0 {
        seq![("Desktop file"@, e.desktop_path, true)]
    } else {
        none
    };
    let class = match e.startup_wm_class {
        Some(c) => seq![("WM Class"@, c, true)],
        None => none,
    };
    icon_name + icon_path + file + seq![("Exec"@, e.exec_line, true)] + class
}

fn push_row(out: &mut Vec<InspectorRow>, label: &str, value: &str)
    ensures
        sorting::views(final(out)@) == sorting::views(old(out)@).push((label@, value@, true)),
{
    let ghost had = sorting::views(out@);
    let row = InspectorRow { label: label.to_owned(), value: value.to_owned(), mono: true };
    out.push(row);
    proof {
        assert(sorting::views(out@) =~= had.push(row@));
    }
}

impl<R: Runner + ?Sized> AppsSource<R> {
    /// The applications listed.
    pub closed spec fn listed(&self) -> Seq<desktop::EntryView> {
        sorting::views(self.entries@)
    }

    /// Where uses are counted.
    pub closed spec fn uses(&self) -> Arc<UsageTracker> {
        self.tracker
    }

    /// What runs the programs.
    pub closed spec fn runs_by(&self) -> &R {
        &*self.runner
    }

    /// The program to run for an application, with its arguments.
    pub open spec fn program(&self, ix: int) -> Seq<Seq<char>> {
        text::words(desktop::command_of(self.listed()[ix].exec_line))
    }

    /// The source for some applications.
    pub fn new(entries: Vec<DesktopEntry>, tracker: Arc<UsageTracker>, runner: Box<R>) -> (r: Self)
        ensures
            r.listed() == sorting::views(entries@),
            r.uses() == tracker,
            r.runs_by() == &*runner,
    {
        AppsSource { entries, tracker, runner }
    }

    /// The applications.
    pub fn entries(&self) -> (r: &[DesktopEntry])
        ensures
            sorting::views(r@) == self.listed(),
    {
        self.entries.as_slice()
    }

    /// The program to run for an application, with its arguments.
    pub fn launch_parts(&self, ix: usize) -> (r: Vec<String>)
        requires
            ix < self.listed().len(),
        ensures
            text::views(r@) == self.program(ix as int),
    {
        desktop::launch_parts(self.entries[ix].exec_line.as_str())
    }
}

impl<R: Runner + ?Sized> Source for AppsSource<R> {
    fn name(&self) -> (r: &'static str)
        ensures
            r@ == "apps"@,
    {
        "apps"
    }

    fn icon(&self) -> (r: &'static str)
        ensures
            r@ == "\u{25a3}"@,
    {
        "\u{25a3}"
    }

    fn prefix(&self) -> (r: Option<char>)
        ensures
            r == Some('>'),
    {
        Some('>')
    }

    fn placeholder(&self) -> (r: &'static str)
        ensures
            r@ == "Search applications..."@,
    {
        "Search applications..."
    }

    fn empty_text(&self) -> (r: &'static str)
        ensures
            r@ == "No matching applications"@,
    {
        "No matching applications"
    }

    fn filter(&self, query: &str) -> (r: Vec<usize>)
        ensures
            r@ == source::matching(
                search_keys(self.listed()),
                text::lowercase(query@),
                self.listed().len() as int,
            ),
    {
        let q = text::to_lowercase(query);
        let needle = text::chars_of(q.as_str());
        let ghost keys = search_keys(self.listed());
        let mut out: Vec<usize> = Vec::new();
        let mut i: usize = 0;
        while i < self.entries.len()
            invariant
                i <= self.entries@.len(),
                keys == search_keys(sorting::views(self.entries@)),
                needle@ == text::lowercase(query@),
                out@ == source::matching(keys, needle@, i as int),
            decreases self.entries.len() - i,
        {
            let key = text::chars_of(self.entries[i].search_key.as_str());
            proof {
                assert(keys[i as int] == key@);
            }
            if text::occurs(key.as_slice(), needle.as_slice()) {
                out.push(i);
            }
            i = i + 1;
        }
        out
    }

    fn render_item(&self, ix: usize, selected: bool) -> (r: Row)
        ensures
            ix < self.listed().len() ==> {
                let e = self.listed()[ix as int];
                &&& r.gutter is None
                &&& r.title@ == e.name
                &&& r.subtitle@ == e.file_stem
                &&& r.selected == selected
                &&& match e.icon_data {
                    Some(img) => r.icon == RowIcon::Image(img),
                    None => match e.icon_path {
                        Some(p) => r.icon matches RowIcon::Path(q) && q@ == p,
                        None => r.icon == RowIcon::Glyph('\u{25cb}'),
                    },
                }
            },
    {
        if ix >= self.entries.len() {
            return Row {
                gutter: None,
                icon: RowIcon::Glyph('\u{25cb}'),
                title: String::new(),
                subtitle: String::new(),
                selected,
            };
        }
        let e = &self.entries[ix];
        let icon = match &e.icon_data {
            Some(img) => RowIcon::Image(Arc::clone(img)),
            None => match &e.icon_path {
                Some(p) => RowIcon::Path(p.clone()),
                None => RowIcon::Glyph('\u{25cb}'),
            },
        };
        Row { gutter: None, icon, title: e.name.clone(), subtitle: e.file_stem.clone(), selected }
    }

    /// Runs the application's program, unless it has none, and leaves.
    fn activate(&self, ix: usize) -> (r: ActivateOutcome)
        ensures
            r == ActivateOutcome::Quit,
            ix < self.listed().len() && self.program(ix as int).len() > 0 ==> exists|
                name: &str,
                parts: Vec<String>,
            |
                {
                    &&& name@ == self.listed()[ix as int].name
                    &&& text::views(parts@) == self.program(ix as int)
                    &&& #[trigger] call_ensures(R::run, (self.runs_by(), name, &parts), ())
                },
    {
        if ix < self.entries.len() {
            let parts = self.launch_parts(ix);
            if parts.len() > 0 {
                let name = self.entries[ix].name.as_str();
                self.runner.run(name, &parts);
                assert(call_ensures(R::run, (self.runs_by(), name, &parts), ()));
            }
        }
        ActivateOutcome::Quit
    }

    fn weight(&self, ix: usize) -> (r: i32)
        ensures
            if ix >= self.listed().len() || self.listed()[ix as int].file_stem.len() == 0 {
                r == 0
            } else {
                exists|key: &str|
                    {
                        &&& key@ == self.listed()[ix as int].file_stem
                        &&& #[trigger] call_ensures(
                            UsageTracker::frecency_bonus,
                            (&*self.uses(), SOURCE_NAME, key),
                            r,
                        )
                    }
            },
    {
        if ix >= self.entries.len() {
            return 0;
        }
        let e = &self.entries[ix];
        if e.file_stem.as_str().is_empty() {
            return 0;
        }
        let key = e.file_stem.as_str();
        let bonus = self.tracker.frecency_bonus(SOURCE_NAME, key);
        assert(call_ensures(
            UsageTracker::frecency_bonus,
            (&*self.uses(), SOURCE_NAME, key),
            bonus,
        ));
        assert(key@ == self.listed()[ix as int].file_stem);
        bonus
    }

    fn item_key(&self, ix: usize) -> (r: Option<String>)
        ensures
            text::opt(r) == (if ix < self.listed().len() && self.listed()[ix as int].file_stem.len()
                > 0 {
                Some(self.listed()[ix as int].file_stem)
            } else {
                None
            }),
    {
        if ix >= self.entries.len() {
            return None;
        }
        let e = &self.entries[ix];
        if e.file_stem.as_str().is_empty() {
            return None;
        }
        Some(e.file_stem.clone())
    }

    fn layout(&self) -> (r: Layout)
        ensures
            r == Layout::ListAndPreview,
    {
        Layout::ListAndPreview
    }

    fn preview(&self, ix: usize) -> (r: Option<Preview>)
        ensures
            if ix < self.listed().len() {
                let e = self.listed()[ix as int];
                r matches Some(Preview::Inspector(card)) && {
                    &&& card.icon == e.icon_data
                    &&& card.title@ == e.name
                    &&& text::opt(card.subtitle) == Some("Application"@)
                    &&& sorting::views(card.rows@) == inspector_rows(e)
                }
            } else {
                r is None
            },
    {
        if ix >= self.entries.len() {
            return None;
        }
        let e = &self.entries[ix];
        let mut rows: Vec<InspectorRow> = Vec::new();
        proof {
            assert(sorting::views(rows@) =~= Seq::<(Seq<char>, Seq<char>, bool)>::empty());
        }
        if let Some(n) = &e.icon_name {
            push_row(&mut rows, "Icon name", n.as_str());
        }
        if let Some(p) = &e.icon_path {
            push_row(&mut rows, "Icon path", p.as_str());
        }
        if !e.desktop_path.as_str().is_empty() {
            push_row(&mut rows, "Desktop file", e.desktop_path.as_str());
        }
        push_row(&mut rows, "Exec", e.exec_line.as_str());
        if let Some(c) = &e.startup_wm_class {
            push_row(&mut rows, "WM Class", c.as_str());
        }
        proof {
            assert(sorting::views(rows@) =~= inspector_rows(e@));
        }
        let icon = match &e.icon_data {
            Some(img) => Some(Arc::clone(img)),
            None => None,
        };
        Some(
            Preview::Inspector(
                InspectorCard {
                    icon,
                    title: e.name.clone(),
                    subtitle: Some("Application".to_owned()),
                    rows,
                },
            ),
        )
    }
}

/// The details of an application show its command always, and its icon, its file
/// and its window class where they are known.
pub proof fn law_application_details(e: desktop::EntryView, row: (Seq<char>, Seq<char>, bool))
    ensures
        inspector_rows(e).contains(row) <==> row.2 && {
            ||| row.0 == "Exec"@ && row.1 == e.exec_line
            ||| row.0 == "Icon name"@ && e.icon_name == Some(row.1)
            ||| row.0 == "Icon path"@ && e.icon_path == Some(row.1)
            ||| row.0 == "Desktop file"@ && e.desktop_path == row.1 && row.1.len() > 0
            ||| row.0 == "WM Class"@ && e.startup_wm_class == Some(row.1)
        },
{
    let none = Seq::<(Seq<char>, Seq<char>, bool)>::empty();
    let a = match e.icon_name {
        Some(n) => seq![("Icon name"@, n, true)],
        None => none,
    };
    let b = match e.icon_path {
        Some(p) => seq![("Icon path"@, p, true)],
        None => none,
    };
    let c = if e.desktop_path.len() > 0 {
        seq![("Desktop file"@, e.desktop_path, true)]
    } else {
        none
    };
    let d = seq![("Exec"@, e.exec_line, true)];
    let f = match e.startup_wm_class {
        Some(x) => seq![("WM Class"@, x, true)],
        None => none,
    };
    sorting::lemma_add_holds(a + b + c + d, f);
    sorting::lemma_add_holds(a + b + c, d);
    sorting::lemma_add_holds(a + b, c);
    sorting::lemma_add_holds(a, b);
    assert(d.contains(row) <==> row == d[0]);
    if e.icon_name is Some {
        assert(a.contains(row) <==> row == a[0]);
    }
    if e.icon_path is Some {
        assert(b.contains(row) <==> row == b[0]);
    }
    if e.desktop_path.len() > 0 {
        assert(c.contains(row) <==> row == c[0]);
    }
    if e.startup_wm_class is Some {
        assert(f.contains(row) <==> row == f[0]);
    }
}

} // verus!
