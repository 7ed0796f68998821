//! Desktop entries: the files that describe applications.

use vstd::prelude::*;
use vstd::string::*;

use std::sync::Arc;

use crate::pathname;
use crate::sorting;
use crate::sorting::Ranked;
use crate::text;
use crate::zofi::source::Image;

verus! {

/// An application.
#[derive(Debug)]
pub struct DesktopEntry {
    pub name: String,
    pub exec_line: String,
    pub icon_name: Option<String>,
    pub icon_path: Option<String>,
    pub icon_data: Option<Arc<Image>>,
    /// The name in lower case.
    pub search_key: String,
    /// The file's name without its extension; it matches the class that the
    /// application's windows report.
    pub file_stem: String,
    pub desktop_path: String,
    pub startup_wm_class: Option<String>,
}

#[verifier::ext_equal]
pub struct EntryView {
    pub name: Seq<char>,
    pub exec_line: Seq<char>,
    pub icon_name: Option<Seq<char>>,
    pub icon_path: Option<Seq<char>>,
    pub icon_data: Option<Arc<Image>>,
    pub search_key: Seq<char>,
    pub file_stem: Seq<char>,
    pub desktop_path: Seq<char>,
    pub startup_wm_class: Option<Seq<char>>,
}

impl View for DesktopEntry {
    type V = EntryView;

    open spec fn view(&self) -> EntryView {
        EntryView {
            name: self.name@,
            exec_line: self.exec_line@,
            icon_name: text::opt(self.icon_name),
            icon_path: text::opt(self.icon_path),
            icon_data: self.icon_data,
            search_key: self.search_key@,
            file_stem: self.file_stem@,
            desktop_path: self.desktop_path@,
            startup_wm_class: text::opt(self.startup_wm_class),
        }
    }
}

impl Ranked for DesktopEntry {
    /// Entries are listed by name, whatever its case.
    open spec fn ranks(a: EntryView, b: EntryView) -> bool {
        sorting::text_le(a.search_key, b.search_key)
    }

    proof fn ranks_total(a: EntryView, b: EntryView) {
        sorting::lemma_text_le_total(a.search_key, b.search_key);
    }

    proof fn ranks_transitive(a: EntryView, b: EntryView, c: EntryView) {
        sorting::lemma_text_le_transitive(a.search_key, b.search_key, c.search_key);
    }

    fn may_precede(&self, other: &Self) -> (r: bool) {
        sorting::str_precedes(self.search_key.as_str(), other.search_key.as_str())
    }
}

// ---------------------------------------------------------------------------
// Parsing
// ---------------------------------------------------------------------------

/// What was read of a file.
#[verifier::ext_equal]
pub struct Fields {
    /// Whether the reading is inside the main section.
    pub inside: bool,
    /// Whether another section followed it.
    pub done: bool,
    pub name: Option<Seq<char>>,
    pub exec_line: Option<Seq<char>>,
    pub icon: Option<Seq<char>>,
    pub entry_type: Option<Seq<char>>,
    pub wm_class: Option<Seq<char>>,
    pub no_display: bool,
    pub hidden: bool,
}

/// Nothing was read.
pub open spec fn no_fields() -> Fields {
    Fields {
        inside: false,
        done: false,
        name: None,
        exec_line: None,
        icon: None,
        entry_type: None,
        wm_class: None,
        no_display: false,
        hidden: false,
    }
}

/// Whether a value says yes.
pub open spec fn is_true(value: Seq<char>) -> bool {
    text::ascii_lower(value) == text::ascii_lower("true"@)
}

impl Fields {
    /// After a key with its value: the first name counts, and the last of
    /// everything else.
    pub open spec fn with(self, key: Seq<char>, value: Seq<char>) -> Fields {
        if key == "Name"@ {
            Fields {
                name: if self.name is None {
                    Some(value)
                } else {
                    self.name
                },
                ..self
            }
        } else if key == "Exec"@ {
            Fields { exec_line: Some(value), ..self }
        } else if key == "Icon"@ {
            Fields { icon: Some(value), ..self }
        } else if key == "Type"@ {
            Fields { entry_type: Some(value), ..self }
        } else if key == "StartupWMClass"@ {
            Fields { wm_class: Some(value), ..self }
        } else if key == "NoDisplay"@ {
            Fields { no_display: is_true(value), ..self }
        } else if key == "Hidden"@ {
            Fields { hidden: is_true(value), ..self }
        } else {
            self
        }
    }

    /// After a line.
    pub open spec fn after(self, raw: Seq<char>) -> Fields {
        let line = text::trim(raw);
        if self.done || line.len() == 0 || line[0] == '#' {
            self
        } else if line[0] == '[' {
            if self.inside {
                Fields { done: true, ..self }
            } else if line == "[Desktop Entry]"@ {
                Fields { inside: true, ..self }
            } else {
                self
            }
        } else if !self.inside {
            self
        } else {
            match text::split_once(line, '=') {
                Some((key, value)) => self.with(text::trim(key), text::trim(value)),
                None => self,
            }
        }
    }

    /// After all lines.
    pub open spec fn after_all(self, lines: Seq<Seq<char>>) -> Fields
        decreases lines.len(),
    {
        if lines.len() == 0 {
            self
        } else {
            self.after_all(lines.drop_last()).after(lines.last())
        }
    }

    /// Whether an application is to be listed: it has a name, a command and
    /// the right type, and does not hide.
    pub open spec fn listed(self) -> bool {
        &&& self.name is Some
        &&& self.exec_line is Some
        &&& self.entry_type == Some("Application"@)
        &&& !self.no_display
        &&& !self.hidden
    }
}

struct Reading {
    inside: bool,
    done: bool,
    name: Option<String>,
    exec_line: Option<String>,
    icon: Option<String>,
    entry_type: Option<String>,
    wm_class: Option<String>,
    no_display: bool,
    hidden: bool,
}

impl Reading {
    spec fn fields(&self) -> Fields {
        Fields {
            inside: self.inside,
            done: self.done,
            name: text::opt(self.name),
            exec_line: text::opt(self.exec_line),
            icon: text::opt(self.icon),
            entry_type: text::opt(self.entry_type),
            wm_class: text::opt(self.wm_class),
            no_display: self.no_display,
            hidden: self.hidden,
        }
    }

    fn take(&mut self, key: &str, value: String)
        ensures
            final(self).fields() == old(self).fields().with(key@, value@),
    {
        if text::str_eq(key, "Name") {
            if self.name.is_none() {
                self.name = Some(value);
            }
        } else if text::str_eq(key, "Exec") {
            self.exec_line = Some(value);
        } else if text::str_eq(key, "Icon") {
            self.icon = Some(value);
        } else if text::str_eq(key, "Type") {
            self.entry_type = Some(value);
        } else if text::str_eq(key, "StartupWMClass") {
            self.wm_class = Some(value);
        } else if text::str_eq(key, "NoDisplay") {
            self.no_display = text::eq_ignore_ascii_case(value.as_str(), "true");
        } else if text::str_eq(key, "Hidden") {
            self.hidden = text::eq_ignore_ascii_case(value.as_str(), "true");
        }
    }

    fn read(&mut self, raw: &[char])
        ensures
            final(self).fields() == old(self).fields().after(raw@),
    {
        let line = text::trimmed(raw);
        if self.done || line.len() == 0 || line[0] == '#' {
            return;
        }
        if line[0] == '[' {
            if self.inside {
                self.done = true;
            } else {
                let s = text::string_of(line);
                if text::str_eq(s.as_str(), "[Desktop Entry]") {
                    self.inside = true;
                }
            }
            return;
        }
        if !self.inside {
            return;
        }
        if let Some(i) = text::position_of(line, '=') {
            let before = vstd::slice::slice_subrange(line, 0, i);
            let after = vstd::slice::slice_subrange(line, i + 1, line.len());
            proof {
                assert(before@ == line@.take(i as int));
                assert(after@ == line@.skip(i + 1));
            }
            let key = text::string_of(text::trimmed(before));
            let value = text::string_of(text::trimmed(after));
            self.take(key.as_str(), value);
        }
    }
}

/// The application that a file describes.
pub open spec fn entry_of(
    content: Seq<char>,
    file_stem: Seq<char>,
    desktop_path: Seq<char>,
) -> Option<EntryView> {
    let f = no_fields().after_all(text::lines(content));
    if f.listed() {
        Some(
            EntryView {
                name: f.name->0,
                exec_line: f.exec_line->0,
                icon_name: f.icon,
                icon_path: None,
                icon_data: None,
                search_key: text::lowercase(f.name->0),
                file_stem,
                desktop_path,
                startup_wm_class: f.wm_class,
            },
        )
    } else {
        None
    }
}

/// An entry behind an option.
pub open spec fn opt_entry(o: Option<DesktopEntry>) -> Option<EntryView> {
    match o {
        Some(e) => Some(e@),
        None => None,
    }
}

/// Reads the file at `desktop_path`; applications that are not to be listed
/// give nothing.
pub fn parse_desktop_file(content: &str, file_stem: &str, desktop_path: &str) -> (r: Option<
    DesktopEntry,
>)
    ensures
        opt_entry(r) == entry_of(content@, file_stem@, desktop_path@),
{
    let rows = text::split_lines(text::chars_of(content).as_slice());
    let ghost all = text::lines(content@);
    let mut st = Reading {
        inside: false,
        done: false,
        name: None,
        exec_line: None,
        icon: None,
        entry_type: None,
        wm_class: None,
        no_display: false,
        hidden: false,
    };
    let mut i: usize = 0;
    proof {
        assert(all.take(0) == Seq::<Seq<char>>::empty());
        assert(st.fields() == no_fields());
    }
    while i < rows.len()
        invariant
            text::chars_views(rows@) == all,
            i <= rows@.len(),
            st.fields() == no_fields().after_all(all.take(i as int)),
        decreases rows.len() - i,
    {
        proof {
            assert(all[i as int] == rows@[i as int]@);
            assert(all.take(i + 1).drop_last() == all.take(i as int));
            assert(all.take(i + 1).last() == all[i as int]);
        }
        st.read(rows[i].as_slice());
        i = i + 1;
    }
    proof {
        assert(all.take(i as int) == all);
    }
    let application = match &st.entry_type {
        Some(t) => text::str_eq(t.as_str(), "Application"),
        None => false,
    };
    if !application || st.no_display || st.hidden {
        return None;
    }
    match (st.name, st.exec_line) {
        (Some(name), Some(exec_line)) => {
            let search_key = text::to_lowercase(name.as_str());
            Some(
                DesktopEntry {
                    name,
                    exec_line,
                    icon_name: st.icon,
                    icon_path: None,
                    icon_data: None,
                    search_key,
                    file_stem: file_stem.to_owned(),
                    desktop_path: desktop_path.to_owned(),
                    startup_wm_class: st.wm_class,
                },
            )
        },
        _ => None,
    }
}

// ---------------------------------------------------------------------------
// Commands
// ---------------------------------------------------------------------------

/// Whether `%c` stands for something that the launcher does not fill in.
pub open spec fn is_field_code(c: char) -> bool {
    c == 'f' || c == 'F' || c == 'u' || c == 'U' || c == 'i' || c == 'c' || c == 'k' || c == 'd'
        || c == 'D' || c == 'n' || c == 'N' || c == 'v' || c == 'm'
}

fn field_code(c: char) -> (r: bool)
    ensures
        r == is_field_code(c),
{
    c == 'f' || c == 'F' || c == 'u' || c == 'U' || c == 'i' || c == 'c' || c == 'k' || c == 'd'
        || c == 'D' || c == 'n' || c == 'N' || c == 'v' || c == 'm'
}

/// `s` without field codes, and with `%%` read as a percent sign.
pub open spec fn without_codes(s: Seq<char>) -> Seq<char>
    decreases s.len(),
{
    if s.len() == 0 {
        Seq::empty()
    } else if s[0] == '%' && s.len() > 1 && is_field_code(s[1]) {
        without_codes(s.skip(2))
    } else if s[0] == '%' && s.len() > 1 && s[1] == '%' {
        seq!['%'] + without_codes(s.skip(2))
    } else {
        seq![s[0]] + without_codes(s.skip(1))
    }
}

/// `s` without the spaces that follow a space.
pub open spec fn single_spaced(s: Seq<char>) -> Seq<char>
    decreases s.len(),
{
    if s.len() == 0 {
        Seq::empty()
    } else if s.len() > 1 && s.last() == ' ' && s[s.len() - 2] == ' ' {
        single_spaced(s.drop_last())
    } else {
        single_spaced(s.drop_last()).push(s.last())
    }
}

/// The command that an `Exec` value stands for.
pub open spec fn command_of(exec_line: Seq<char>) -> Seq<char> {
    text::trim(single_spaced(without_codes(exec_line)))
}

/// Strips field codes from an `Exec` value.
pub fn strip_field_codes(exec_line: &str) -> (r: String)
    ensures
        r@ == command_of(exec_line@),
{
    let s = text::chars_of(exec_line);
    let mut plain: Vec<char> = Vec::new();
    let mut i: usize = 0;
    proof {
        assert(s@.skip(0) == s@);
        assert(plain@ + without_codes(s@.skip(0)) =~= without_codes(s@));
    }
    while i < s.len()
        invariant
            i <= s@.len(),
            plain@ + without_codes(s@.skip(i as int)) == without_codes(s@),
        decreases s.len() - i,
    {
        let ghost rest = s@.skip(i as int);
        let ghost had = plain@;
        proof {
            assert(rest[0] == s@[i as int]);
            assert(rest.skip(1) == s@.skip(i + 1));
            if i + 1 < s@.len() {
                assert(rest[1] == s@[i + 1]);
                assert(rest.skip(2) == s@.skip(i + 2));
            }
        }
        if s[i] == '%' && s.len() - i > 1 && field_code(s[i + 1]) {
            i = i + 2;
        } else if s[i] == '%' && s.len() - i > 1 && s[i + 1] == '%' {
            plain.push('%');
            i = i + 2;
            proof {
                assert(had + (seq!['%'] + without_codes(s@.skip(i as int))) =~= plain@
                    + without_codes(s@.skip(i as int)));
            }
        } else {
            plain.push(s[i]);
            i = i + 1;
            proof {
                assert(had + (seq![s@[i - 1]] + without_codes(s@.skip(i as int))) =~= plain@
                    + without_codes(s@.skip(i as int)));
            }
        }
    }
    proof {
        assert(s@.skip(i as int) == Seq::<char>::empty());
        assert(plain@ =~= without_codes(s@));
    }
    let mut out: Vec<char> = Vec::new();
    let mut k: usize = 0;
    proof {
        assert(plain@.take(0) == Seq::<char>::empty());
    }
    while k < plain.len()
        invariant
            k <= plain@.len(),
            out@ == single_spaced(plain@.take(k as int)),
        decreases plain.len() - k,
    {
        proof {
            assert(plain@.take(k + 1).drop_last() == plain@.take(k as int));
            assert(plain@.take(k + 1).last() == plain@[k as int]);
        }
        if !(plain[k] == ' ' && k > 0 && plain[k - 1] == ' ') {
            out.push(plain[k]);
        }
        k = k + 1;
    }
    proof {
        assert(plain@.take(k as int) == plain@);
    }
    text::string_of(text::trimmed(out.as_slice()))
}

/// The program to run and its arguments.
pub fn launch_parts(exec_line: &str) -> (r: Vec<String>)
    ensures
        text::views(r@) == text::words(command_of(exec_line@)),
{
    let command = strip_field_codes(exec_line);
    let words = text::split_words(text::chars_of(command.as_str()).as_slice());
    let ghost all = text::words(command@);
    let mut out: Vec<String> = Vec::new();
    let mut i: usize = 0;
    while i < words.len()
        invariant
            text::chars_views(words@) == all,
            i <= words@.len(),
            out@.len() == i,
            forall|k: int| 0 <= k < i ==> (#[trigger] out@[k])@ == all[k],
        decreases words.len() - i,
    {
        out.push(text::string_of(words[i].as_slice()));
        proof {
            assert(all[i as int] == words@[i as int]@);
        }
        i = i + 1;
    }
    proof {
        assert(text::views(out@) =~= all);
    }
    out
}

// ---------------------------------------------------------------------------
// The list
// ---------------------------------------------------------------------------

/// Whether no later file has the same name.
pub open spec fn counts(parsed: Seq<(String, DesktopEntry)>, i: int) -> bool {
    forall|k: int| i < k < parsed.len() ==> (#[trigger] parsed[k]).0@ != parsed[i].0@
}

/// The entries that count among the first `n`: of files with the same name
/// the last one, so that a user's file replaces the system's.
pub open spec fn counted(parsed: Seq<(String, DesktopEntry)>, n: int) -> Seq<EntryView>
    decreases n,
{
    if n <= 0 {
        Seq::empty()
    } else if counts(parsed, n - 1) {
        counted(parsed, n - 1).push(parsed[n - 1].1@)
    } else {
        counted(parsed, n - 1)
    }
}

/// The applications, by name. `parsed` holds the entries by their files'
/// names, those of the system before those of the user.
pub fn merge_entries(parsed: Vec<(String, DesktopEntry)>) -> (r: Vec<DesktopEntry>)
    ensures
        sorting::is_stable_sort(
            counted(parsed@, parsed@.len() as int),
            sorting::views(r@),
            |a: EntryView, b: EntryView| DesktopEntry::ranks(a, b),
        ),
{
    let ghost all = parsed@;
    let mut keep: Vec<bool> = Vec::new();
    let mut i: usize = 0;
    while i < parsed.len()
        invariant
            parsed@ == all,
            i <= parsed@.len(),
            keep@.len() == i,
            forall|k: int| 0 <= k < i ==> keep@[k] == counts(all, k),
        decreases parsed.len() - i,
    {
        let k = is_last(&parsed, i);
        keep.push(k);
        i = i + 1;
    }
    let mut rest = parsed;
    let mut back: Vec<DesktopEntry> = Vec::new();
    while rest.len() > 0
        invariant
            rest@.len() <= all.len(),
            rest@ == all.take(rest@.len() as int),
            keep@.len() == all.len(),
            forall|k: int| 0 <= k < all.len() ==> keep@[k] == counts(all, k),
            counted(all, rest@.len() as int) + sorting::views(back@).reverse() == counted(
                all,
                all.len() as int,
            ),
        decreases rest.len(),
    {
        let ghost n = rest@.len() as int;
        let ghost had = sorting::views(back@);
        let last = rest.pop();
        if let Some((_, e)) = last {
            proof {
                assert(e == all[n - 1].1);
                assert(rest@ =~= all.take(n - 1));
            }
            if keep[rest.len()] {
                back.push(e);
                proof {
                    assert(sorting::views(back@) =~= had.push(e@));
                    assert(counted(all, n - 1) + sorting::views(back@).reverse() =~= counted(
                        all,
                        n,
                    ) + had.reverse());
                }
            }
        }
    }
    let mut list: Vec<DesktopEntry> = Vec::new();
    let ghost found = counted(all, all.len() as int);
    proof {
        assert(sorting::views(back@).reverse() =~= found);
        assert(sorting::views(list@) + sorting::views(back@).reverse() =~= found);
    }
    while back.len() > 0
        invariant
            sorting::views(list@) + sorting::views(back@).reverse() == found,
        decreases back.len(),
    {
        let ghost had = sorting::views(list@);
        let ghost before = sorting::views(back@);
        if let Some(e) = back.pop() {
            list.push(e);
            proof {
                assert(sorting::views(list@) =~= had.push(e@));
                assert(before =~= sorting::views(back@).push(e@));
                assert(sorting::views(list@) + sorting::views(back@).reverse() =~= had
                    + before.reverse());
            }
        }
    }
    proof {
        assert(sorting::views(list@) =~= found);
    }
    sorting::stable_sort(list)
}

fn is_last(parsed: &Vec<(String, DesktopEntry)>, i: usize) -> (r: bool)
    requires
        i < parsed@.len(),
    ensures
        r == counts(parsed@, i as int),
{
    assert(parsed@.len() == parsed.len());
    let mut k: usize = i + 1;
    while k < parsed.len()
        invariant
            i < parsed@.len(),
            i < k <= parsed@.len(),
            forall|j: int| i < j < k ==> (#[trigger] parsed@[j]).0@ != parsed@[i as int].0@,
        decreases parsed.len() - k,
    {
        if text::str_eq(parsed[k].0.as_str(), parsed[i].0.as_str()) {
            return false;
        }
        k = k + 1;
    }
    true
}

// ---------------------------------------------------------------------------
// Files
// ---------------------------------------------------------------------------

/// The directory of a user's data.
pub open spec fn user_data(data_home: Option<Seq<char>>, home: Option<Seq<char>>) -> Seq<char> {
    match (data_home, home) {
        (Some(d), _) => d,
        (None, Some(h)) => pathname::join(h, ".local/share"@),
        (None, None) => "/tmp"@,
    }
}

/// The directories that describe applications: that of the system, then that
/// of the user, whose files take the place of those of the same name.
pub fn application_dirs(data_home: Option<&str>, home: Option<&str>) -> (r: (String, String))
    ensures
        r.0@ == "/usr/share/applications"@,
        r.1@ == pathname::join(
            user_data(text::opt_str(data_home), text::opt_str(home)),
            "applications"@,
        ),
{
    let base = match (data_home, home) {
        (Some(d), _) => d.to_owned(),
        (None, Some(h)) => pathname::join_path(h, ".local/share"),
        (None, None) => "/tmp".to_owned(),
    };
    (
        "/usr/share/applications".to_owned(),
        pathname::join_path(base.as_str(), "applications"),
    )
}

/// Whether a file describes an application, by its extension.
pub fn is_desktop_file(extension: Option<&str>) -> (r: bool)
    ensures
        r == (text::opt_str(extension) == Some("desktop"@)),
{
    match extension {
        Some(e) => text::str_eq(e, "desktop"),
        None => false,
    }
}

impl DesktopEntry {
    /// The entry with its icon: the image that was read, or else the file that
    /// it would be read from.
    pub fn with_icon(self, path: Option<String>, data: Option<Arc<Image>>) -> (r: Self)
        ensures
            r@ == (EntryView {
                icon_path: if data is Some {
                    None
                } else {
                    text::opt(path)
                },
                icon_data: data,
                ..self@
            }),
    {
        let icon_path = match &data {
            Some(_) => None,
            None => path,
        };
        DesktopEntry {
            name: self.name,
            exec_line: self.exec_line,
            icon_name: self.icon_name,
            icon_path,
            icon_data: data,
            search_key: self.search_key,
            file_stem: self.file_stem,
            desktop_path: self.desktop_path,
            startup_wm_class: self.startup_wm_class,
        }
    }
}

// ---------------------------------------------------------------------------
// Laws of the reading
// ---------------------------------------------------------------------------

/// Whether a line begins a section.
pub open spec fn is_header(raw: Seq<char>) -> bool {
    text::trim(raw).len() > 0 && text::trim(raw)[0] == '['
}

/// Whether a line begins the main section.
pub open spec fn is_main_header(raw: Seq<char>) -> bool {
    text::trim(raw) == "[Desktop Entry]"@
}

/// The value that a line gives for a key: what follows the first equals sign,
/// if the key stands before it and the line is neither a comment nor a header.
pub open spec fn given(raw: Seq<char>, key: Seq<char>) -> Option<Seq<char>> {
    let line = text::trim(raw);
    if line.len() == 0 || line[0] == '#' || line[0] == '[' {
        None
    } else {
        match text::split_once(line, '=') {
            Some((k, v)) => if text::trim(k) == key {
                Some(text::trim(v))
            } else {
                None
            },
            None => None,
        }
    }
}

/// Whether the main section begins with line `h`, the first such header, and
/// goes up to line `e`, the next header of any kind or the end.
pub open spec fn is_main_section(lines: Seq<Seq<char>>, h: int, e: int) -> bool {
    &&& 0 <= h < e <= lines.len()
    &&& is_main_header(lines[h])
    &&& forall|j: int| 0 <= j < h ==> !is_main_header(#[trigger] lines[j])
    &&& forall|j: int| h < j < e ==> !is_header(#[trigger] lines[j])
    &&& e < lines.len() ==> is_header(lines[e])
}

/// Whether `v` is the last value that the lines after `h` and before `e` give
/// for a key; nothing, if none of them gives one.
pub open spec fn is_last_given(
    lines: Seq<Seq<char>>,
    h: int,
    e: int,
    key: Seq<char>,
    v: Option<Seq<char>>,
) -> bool {
    ||| v is None && forall|j: int| h < j < e ==> given(#[trigger] lines[j], key) is None
    ||| v is Some && exists|i: int|
        {
            &&& h < i < e
            &&& given(#[trigger] lines[i], key) == v
            &&& forall|j: int| i < j < e ==> given(#[trigger] lines[j], key) is None
        }
}

/// The same for the first value.
pub open spec fn is_first_given(
    lines: Seq<Seq<char>>,
    h: int,
    e: int,
    key: Seq<char>,
    v: Option<Seq<char>>,
) -> bool {
    ||| v is None && forall|j: int| h < j < e ==> given(#[trigger] lines[j], key) is None
    ||| v is Some && exists|i: int|
        {
            &&& h < i < e
            &&& given(#[trigger] lines[i], key) == v
            &&& forall|j: int| h < j < i ==> given(#[trigger] lines[j], key) is None
        }
}

proof fn lemma_last_given_step(
    lines: Seq<Seq<char>>,
    h: int,
    n: int,
    key: Seq<char>,
    v: Option<Seq<char>>,
)
    requires
        0 <= h < n < lines.len(),
        is_last_given(lines, h, n, key, v),
    ensures
        is_last_given(
            lines,
            h,
            n + 1,
            key,
            if given(lines[n], key) is Some {
                given(lines[n], key)
            } else {
                v
            },
        ),
{
    if given(lines[n], key) is Some {
        assert(h < n < n + 1 && given(lines[n], key) == given(lines[n], key));
    } else if v is Some {
        let i = choose|i: int|
            {
                &&& h < i < n
                &&& given(#[trigger] lines[i], key) == v
                &&& forall|j: int| i < j < n ==> given(#[trigger] lines[j], key) is None
            };
        assert(h < i < n + 1 && given(lines[i], key) == v);
    }
}

proof fn lemma_first_given_step(
    lines: Seq<Seq<char>>,
    h: int,
    n: int,
    key: Seq<char>,
    v: Option<Seq<char>>,
)
    requires
        0 <= h < n < lines.len(),
        is_first_given(lines, h, n, key, v),
    ensures
        is_first_given(
            lines,
            h,
            n + 1,
            key,
            if v is None {
                given(lines[n], key)
            } else {
                v
            },
        ),
{
    if v is Some {
        let i = choose|i: int|
            {
                &&& h < i < n
                &&& given(#[trigger] lines[i], key) == v
                &&& forall|j: int| h < j < i ==> given(#[trigger] lines[j], key) is None
            };
        assert(h < i < n + 1 && given(lines[i], key) == v);
    } else if given(lines[n], key) is Some {
        assert(h < n < n + 1 && given(lines[n], key) == given(lines[n], key));
    }
}

proof fn lemma_last_given_is_one(
    lines: Seq<Seq<char>>,
    h: int,
    e: int,
    key: Seq<char>,
    v: Option<Seq<char>>,
    w: Option<Seq<char>>,
)
    requires
        is_last_given(lines, h, e, key, v),
        is_last_given(lines, h, e, key, w),
    ensures
        v == w,
{
    if v is Some && w is Some {
        let i = choose|i: int|
            {
                &&& h < i < e
                &&& given(#[trigger] lines[i], key) == v
                &&& forall|j: int| i < j < e ==> given(#[trigger] lines[j], key) is None
            };
        let k = choose|k: int|
            {
                &&& h < k < e
                &&& given(#[trigger] lines[k], key) == w
                &&& forall|j: int| k < j < e ==> given(#[trigger] lines[j], key) is None
            };
        assert(i == k);
    }
}

proof fn lemma_first_given_is_one(
    lines: Seq<Seq<char>>,
    h: int,
    e: int,
    key: Seq<char>,
    v: Option<Seq<char>>,
    w: Option<Seq<char>>,
)
    requires
        is_first_given(lines, h, e, key, v),
        is_first_given(lines, h, e, key, w),
    ensures
        v == w,
{
    if v is Some && w is Some {
        let i = choose|i: int|
            {
                &&& h < i < e
                &&& given(#[trigger] lines[i], key) == v
                &&& forall|j: int| h < j < i ==> given(#[trigger] lines[j], key) is None
            };
        let k = choose|k: int|
            {
                &&& h < k < e
                &&& given(#[trigger] lines[k], key) == w
                &&& forall|j: int| h < j < k ==> given(#[trigger] lines[j], key) is None
            };
        assert(i == k);
    }
}

proof fn lemma_keys_differ()
    ensures
        "Name"@ != "Exec"@,
        "Name"@ != "Icon"@,
        "Name"@ != "Type"@,
        "Name"@ != "StartupWMClass"@,
        "Name"@ != "NoDisplay"@,
        "Name"@ != "Hidden"@,
        "Exec"@ != "Icon"@,
        "Exec"@ != "Type"@,
        "Exec"@ != "StartupWMClass"@,
        "Exec"@ != "NoDisplay"@,
        "Exec"@ != "Hidden"@,
        "Icon"@ != "Type"@,
        "Icon"@ != "StartupWMClass"@,
        "Icon"@ != "NoDisplay"@,
        "Icon"@ != "Hidden"@,
        "Type"@ != "StartupWMClass"@,
        "Type"@ != "NoDisplay"@,
        "Type"@ != "Hidden"@,
        "StartupWMClass"@ != "NoDisplay"@,
        "StartupWMClass"@ != "Hidden"@,
        "NoDisplay"@ != "Hidden"@,
{
    reveal_strlit("Name");
    reveal_strlit("Exec");
    reveal_strlit("Icon");
    reveal_strlit("Type");
    reveal_strlit("StartupWMClass");
    reveal_strlit("NoDisplay");
    reveal_strlit("Hidden");
    assert("Name"@.len() == 4);
    assert("StartupWMClass"@.len() == 14);
    assert("NoDisplay"@.len() == 9);
    assert("Hidden"@.len() == 6);
    assert("Name"@[0] == 'N');
    assert("Exec"@[0] == 'E');
    assert("Icon"@[0] == 'I');
    assert("Type"@[0] == 'T');
}

/// Whether the fields hold what the lines after `h` and before `e` give.
pub open spec fn reads(f: Fields, lines: Seq<Seq<char>>, h: int, e: int) -> bool {
    &&& is_first_given(lines, h, e, "Name"@, f.name)
    &&& is_last_given(lines, h, e, "Exec"@, f.exec_line)
    &&& is_last_given(lines, h, e, "Icon"@, f.icon)
    &&& is_last_given(lines, h, e, "Type"@, f.entry_type)
    &&& is_last_given(lines, h, e, "StartupWMClass"@, f.wm_class)
    &&& exists|v: Option<Seq<char>>| #[trigger]
        is_last_given(lines, h, e, "NoDisplay"@, v) && f.no_display == (v is Some
            && text::ascii_lower(v->0) == text::ascii_lower("true"@))
    &&& exists|v: Option<Seq<char>>| #[trigger]
        is_last_given(lines, h, e, "Hidden"@, v) && f.hidden == (v is Some && text::ascii_lower(
            v->0,
        ) == text::ascii_lower("true"@))
}

proof fn lemma_line_in_section(f: Fields, raw: Seq<char>)
    requires
        f.inside,
        !f.done,
        !is_header(raw),
    ensures
        f.after(raw).inside,
        !f.after(raw).done,
        f.after(raw).name == (if f.name is None {
            given(raw, "Name"@)
        } else {
            f.name
        }),
        f.after(raw).exec_line == (if given(raw, "Exec"@) is Some {
            given(raw, "Exec"@)
        } else {
            f.exec_line
        }),
        f.after(raw).icon == (if given(raw, "Icon"@) is Some {
            given(raw, "Icon"@)
        } else {
            f.icon
        }),
        f.after(raw).entry_type == (if given(raw, "Type"@) is Some {
            given(raw, "Type"@)
        } else {
            f.entry_type
        }),
        f.after(raw).wm_class == (if given(raw, "StartupWMClass"@) is Some {
            given(raw, "StartupWMClass"@)
        } else {
            f.wm_class
        }),
        f.after(raw).no_display == (match given(raw, "NoDisplay"@) {
            Some(v) => text::ascii_lower(v) == text::ascii_lower("true"@),
            None => f.no_display,
        }),
        f.after(raw).hidden == (match given(raw, "Hidden"@) {
            Some(v) => text::ascii_lower(v) == text::ascii_lower("true"@),
            None => f.hidden,
        }),
{
    lemma_keys_differ();
}

proof fn lemma_main_header(raw: Seq<char>)
    requires
        is_main_header(raw),
    ensures
        is_header(raw),
{
    reveal_strlit("[Desktop Entry]");
}

proof fn lemma_before_section(lines: Seq<Seq<char>>)
    requires
        forall|j: int| 0 <= j < lines.len() ==> !is_main_header(#[trigger] lines[j]),
    ensures
        no_fields().after_all(lines) == no_fields(),
    decreases lines.len(),
{
    if lines.len() > 0 {
        let t = lines.drop_last();
        assert forall|j: int| 0 <= j < t.len() implies !is_main_header(#[trigger] t[j]) by {
            assert(t[j] == lines[j]);
        }
        lemma_before_section(t);
        assert(!is_main_header(lines[lines.len() - 1]));
    }
}

proof fn lemma_in_section(lines: Seq<Seq<char>>, h: int, n: int)
    requires
        0 <= h < n <= lines.len(),
        is_main_header(lines[h]),
        forall|j: int| 0 <= j < h ==> !is_main_header(#[trigger] lines[j]),
        forall|j: int| h < j < n ==> !is_header(#[trigger] lines[j]),
    ensures
        no_fields().after_all(lines.take(n)).inside,
        !no_fields().after_all(lines.take(n)).done,
        reads(no_fields().after_all(lines.take(n)), lines, h, n),
    decreases n,
{
    let t = lines.take(n);
    assert(t.drop_last() == lines.take(n - 1));
    assert(t.last() == lines[n - 1]);
    let before = no_fields().after_all(lines.take(n - 1));
    if n - 1 == h {
        assert forall|j: int| 0 <= j < h implies !is_main_header(
            #[trigger] lines.take(h)[j],
        ) by {
            assert(lines.take(h)[j] == lines[j]);
        }
        lemma_before_section(lines.take(h));
        lemma_main_header(lines[h]);
        reveal_strlit("[Desktop Entry]");
        assert(is_last_given(lines, h, n, "NoDisplay"@, None));
        assert(is_last_given(lines, h, n, "Hidden"@, None));
    } else {
        lemma_in_section(lines, h, n - 1);
        assert(!is_header(lines[n - 1]));
        lemma_line_in_section(before, lines[n - 1]);
        lemma_first_given_step(lines, h, n - 1, "Name"@, before.name);
        lemma_last_given_step(lines, h, n - 1, "Exec"@, before.exec_line);
        lemma_last_given_step(lines, h, n - 1, "Icon"@, before.icon);
        lemma_last_given_step(lines, h, n - 1, "Type"@, before.entry_type);
        lemma_last_given_step(lines, h, n - 1, "StartupWMClass"@, before.wm_class);
        let v = choose|v: Option<Seq<char>>| #[trigger]
            is_last_given(lines, h, n - 1, "NoDisplay"@, v) && before.no_display == (v is Some
                && text::ascii_lower(v->0) == text::ascii_lower("true"@));
        lemma_last_given_step(lines, h, n - 1, "NoDisplay"@, v);
        let w = choose|w: Option<Seq<char>>| #[trigger]
            is_last_given(lines, h, n - 1, "Hidden"@, w) && before.hidden == (w is Some
                && text::ascii_lower(w->0) == text::ascii_lower("true"@));
        lemma_last_given_step(lines, h, n - 1, "Hidden"@, w);
    }
}

proof fn lemma_after_both(f: Fields, a: Seq<Seq<char>>, b: Seq<Seq<char>>)
    ensures
        f.after_all(a + b) == f.after_all(a).after_all(b),
    decreases b.len(),
{
    if b.len() == 0 {
        assert(a + b =~= a);
    } else {
        lemma_after_both(f, a, b.drop_last());
        assert((a + b).drop_last() =~= a + b.drop_last());
    }
}

proof fn lemma_done_stays(f: Fields, lines: Seq<Seq<char>>)
    requires
        f.done,
    ensures
        f.after_all(lines) == f,
    decreases lines.len(),
{
    if lines.len() > 0 {
        lemma_done_stays(f, lines.drop_last());
    }
}

proof fn lemma_header_ends(f: Fields, lines: Seq<Seq<char>>)
    requires
        f.inside,
        lines.len() > 0,
        is_header(lines[0]),
    ensures
        f.after_all(lines) == (Fields { done: true, ..f }),
{
    let a = lines.take(1);
    let b = lines.skip(1);
    assert(lines =~= a + b);
    lemma_after_both(f, a, b);
    assert(a.drop_last() =~= Seq::empty());
    assert(f.after_all(a.drop_last()) == f);
    assert(a.last() == lines[0]);
    assert(f.after_all(a) == f.after(lines[0]));
    lemma_done_stays(f.after_all(a), b);
}

/// What is read of a file is what its main section says and nothing else: of
/// the lines between the first `[Desktop Entry]` and the next header, the first
/// that gives a name and the last that gives each other key. Without that
/// header nothing is read.
pub proof fn law_only_the_main_section_is_read(lines: Seq<Seq<char>>, h: int, e: int)
    ensures
        is_main_section(lines, h, e) ==> reads(no_fields().after_all(lines), lines, h, e),
        (forall|j: int| 0 <= j < lines.len() ==> !is_main_header(#[trigger] lines[j])) ==> {
            let f = no_fields().after_all(lines);
            &&& f.name is None
            &&& f.exec_line is None
            &&& f.icon is None
            &&& f.entry_type is None
            &&& f.wm_class is None
            &&& !f.no_display
            &&& !f.hidden
        },
{
    if forall|j: int| 0 <= j < lines.len() ==> !is_main_header(#[trigger] lines[j]) {
        lemma_before_section(lines);
    }
    if is_main_section(lines, h, e) {
        lemma_in_section(lines, h, e);
        let a = lines.take(e);
        let b = lines.skip(e);
        assert(lines =~= a + b);
        lemma_after_both(no_fields(), a, b);
        if b.len() > 0 {
            assert(b[0] == lines[e]);
            lemma_header_ends(no_fields().after_all(a), b);
        } else {
            assert(lines =~= a);
        }
    }
}

/// An application is listed exactly if its main section gives a name, a command
/// and the type `Application`, and neither `NoDisplay` nor `Hidden` says true
/// last; and the entry holds what the section gives.
pub proof fn law_entry_is_what_the_section_says(
    content: Seq<char>,
    file_stem: Seq<char>,
    desktop_path: Seq<char>,
    h: int,
    e: int,
    name: Option<Seq<char>>,
    exec_line: Option<Seq<char>>,
    icon: Option<Seq<char>>,
    entry_type: Option<Seq<char>>,
    wm_class: Option<Seq<char>>,
    no_display: Option<Seq<char>>,
    hidden: Option<Seq<char>>,
)
    requires
        is_main_section(text::lines(content), h, e),
        is_first_given(text::lines(content), h, e, "Name"@, name),
        is_last_given(text::lines(content), h, e, "Exec"@, exec_line),
        is_last_given(text::lines(content), h, e, "Icon"@, icon),
        is_last_given(text::lines(content), h, e, "Type"@, entry_type),
        is_last_given(text::lines(content), h, e, "StartupWMClass"@, wm_class),
        is_last_given(text::lines(content), h, e, "NoDisplay"@, no_display),
        is_last_given(text::lines(content), h, e, "Hidden"@, hidden),
    ensures
        entry_of(content, file_stem, desktop_path) is Some <==> {
            &&& name is Some
            &&& exec_line is Some
            &&& entry_type == Some("Application"@)
            &&& !(no_display is Some && text::ascii_lower(no_display->0) == text::ascii_lower(
                "true"@,
            ))
            &&& !(hidden is Some && text::ascii_lower(hidden->0) == text::ascii_lower("true"@))
        },
        match entry_of(content, file_stem, desktop_path) {
            Some(x) => {
                &&& Some(x.name) == name
                &&& Some(x.exec_line) == exec_line
                &&& x.icon_name == icon
                &&& x.startup_wm_class == wm_class
                &&& x.search_key == text::lowercase(x.name)
                &&& x.file_stem == file_stem
                &&& x.desktop_path == desktop_path
                &&& x.icon_path is None
                &&& x.icon_data is None
            },
            None => true,
        },
{
    let lines = text::lines(content);
    law_only_the_main_section_is_read(lines, h, e);
    let f = no_fields().after_all(lines);
    lemma_first_given_is_one(lines, h, e, "Name"@, name, f.name);
    lemma_last_given_is_one(lines, h, e, "Exec"@, exec_line, f.exec_line);
    lemma_last_given_is_one(lines, h, e, "Icon"@, icon, f.icon);
    lemma_last_given_is_one(lines, h, e, "Type"@, entry_type, f.entry_type);
    lemma_last_given_is_one(lines, h, e, "StartupWMClass"@, wm_class, f.wm_class);
    let v = choose|v: Option<Seq<char>>| #[trigger]
        is_last_given(lines, h, e, "NoDisplay"@, v) && f.no_display == (v is Some
            && text::ascii_lower(v->0) == text::ascii_lower("true"@));
    lemma_last_given_is_one(lines, h, e, "NoDisplay"@, no_display, v);
    let w = choose|w: Option<Seq<char>>| #[trigger]
        is_last_given(lines, h, e, "Hidden"@, w) && f.hidden == (w is Some && text::ascii_lower(
            w->0,
        ) == text::ascii_lower("true"@));
    lemma_last_given_is_one(lines, h, e, "Hidden"@, hidden, w);
}

proof fn lemma_lines_of_both(a: Seq<char>, b: Seq<char>)
    ensures
        text::lines(a.push('\n') + b) == text::lines(a.push('\n')) + text::lines(b),
    decreases a.len(),
{
    let s = a.push('\n');
    text::lemma_index_of_char(s, '\n');
    assert(s[a.len() as int] == '\n');
    assert(s.contains('\n'));
    let i = text::index_of_char(s, '\n')->0;
    let t = s + b;
    assert(forall|k: int| 0 <= k < s.len() ==> t[k] == s[k]);
    text::lemma_index_of_char_is(t, '\n', i);
    assert(t.take(i) =~= s.take(i));
    if i < a.len() {
        let c = a.skip(i + 1);
        lemma_lines_of_both(c, b);
        assert(s.skip(i + 1) =~= c.push('\n'));
        assert(t.skip(i + 1) =~= c.push('\n') + b);
    } else {
        assert(s.skip(i + 1) =~= Seq::empty());
        assert(t.skip(i + 1) =~= b);
        assert(text::lines(s.skip(i + 1)) =~= Seq::empty());
    }
    assert(text::lines(t) =~= text::lines(s) + text::lines(b));
}

proof fn lemma_inside_stays(lines: Seq<Seq<char>>)
    ensures
        ({
            let f = no_fields().after_all(lines);
            &&& f.done ==> f.inside
            &&& (exists|h: int| 0 <= h < lines.len() && is_main_header(#[trigger] lines[h]))
                ==> f.inside
        }),
    decreases lines.len(),
{
    if lines.len() > 0 {
        let t = lines.drop_last();
        lemma_inside_stays(t);
        reveal_strlit("[Desktop Entry]");
        if exists|h: int| 0 <= h < lines.len() && is_main_header(#[trigger] lines[h]) {
            let h = choose|h: int| 0 <= h < lines.len() && is_main_header(#[trigger] lines[h]);
            if h < t.len() {
                assert(t[h] == lines[h]);
            } else {
                lemma_main_header(lines.last());
            }
        }
    }
}

/// What follows the main section has no effect: a file gives the same entry as
/// the file cut off before a header that comes after `[Desktop Entry]`.
pub proof fn law_later_sections_have_no_effect(
    a: Seq<char>,
    b: Seq<char>,
    file_stem: Seq<char>,
    desktop_path: Seq<char>,
)
    requires
        exists|h: int|
            0 <= h < text::lines(a.push('\n')).len() && is_main_header(
                #[trigger] text::lines(a.push('\n'))[h],
            ),
        text::lines(b).len() > 0,
        is_header(text::lines(b)[0]),
    ensures
        entry_of(a.push('\n') + b, file_stem, desktop_path) == entry_of(
            a.push('\n'),
            file_stem,
            desktop_path,
        ),
{
    let x = text::lines(a.push('\n'));
    let y = text::lines(b);
    lemma_lines_of_both(a, b);
    lemma_after_both(no_fields(), x, y);
    lemma_inside_stays(x);
    lemma_header_ends(no_fields().after_all(x), y);
}

// ---------------------------------------------------------------------------
// Laws of commands and lists
// ---------------------------------------------------------------------------

proof fn lemma_plain_stays(a: Seq<char>, s: Seq<char>)
    requires
        !a.contains('%'),
    ensures
        without_codes(a + s) == a + without_codes(s),
    decreases a.len(),
{
    if a.len() == 0 {
        assert(a + s =~= s);
        assert(a + without_codes(s) =~= without_codes(s));
    } else {
        assert(a.contains(a[0]));
        let t = a.drop_first();
        assert(!t.contains('%')) by {
            if t.contains('%') {
                let i = choose|i: int| 0 <= i < t.len() && t[i] == '%';
                assert(a[i + 1] == '%');
            }
        }
        lemma_plain_stays(t, s);
        assert((a + s).skip(1) =~= t + s);
        assert(without_codes(a + s) =~= a + without_codes(s));
    }
}

/// In a command a field code vanishes, a double percent sign stands for one,
/// and everything else stays: text without percent signs, and a percent sign
/// that begins neither.
pub proof fn law_field_codes_vanish(a: Seq<char>, c: char, b: Seq<char>)
    requires
        !a.contains('%'),
    ensures
        without_codes(a) == a,
        ("fFuUickdDnNvm"@).contains(c) ==> without_codes(a + seq!['%', c] + b) == a
            + without_codes(b),
        without_codes(a + seq!['%', '%'] + b) == a + seq!['%'] + without_codes(b),
        !("fFuUickdDnNvm"@).contains(c) && c != '%' ==> without_codes(a + seq!['%', c] + b) == a
            + seq!['%', c] + without_codes(b),
        without_codes(a.push('%')) == a.push('%'),
{
    reveal_strlit("fFuUickdDnNvm");
    let codes = "fFuUickdDnNvm"@;
    assert(codes[0] == 'f' && codes[1] == 'F' && codes[2] == 'u' && codes[3] == 'U' && codes[4]
        == 'i' && codes[5] == 'c' && codes[6] == 'k' && codes[7] == 'd' && codes[8] == 'D'
        && codes[9] == 'n' && codes[10] == 'N' && codes[11] == 'v' && codes[12] == 'm');
    assert(codes.contains(c) <==> is_field_code(c));
    assert(a + Seq::<char>::empty() =~= a);
    lemma_plain_stays(a, Seq::empty());
    let s = seq!['%', c] + b;
    lemma_plain_stays(a, s);
    assert(a + seq!['%', c] + b =~= a + s);
    assert(s[0] == '%' && s[1] == c);
    assert(s.skip(2) =~= b);
    if !codes.contains(c) && c != '%' {
        assert(s.skip(1) =~= seq![c] + b);
        let one = seq![c];
        assert(!one.contains('%'));
        lemma_plain_stays(one, b);
        assert(seq!['%'] + (one + without_codes(b)) =~= seq!['%', c] + without_codes(b));
        assert(a + (seq!['%', c] + without_codes(b)) =~= a + seq!['%', c] + without_codes(b));
    }
    let d = seq!['%', '%'] + b;
    lemma_plain_stays(a, d);
    assert(a + seq!['%', '%'] + b =~= a + d);
    assert(d[0] == '%' && d[1] == '%');
    assert(d.skip(2) =~= b);
    assert(a + (seq!['%'] + without_codes(b)) =~= a + seq!['%'] + without_codes(b));
    let e = seq!['%'];
    lemma_plain_stays(a, e);
    assert(a + e =~= a.push('%'));
    assert(e.skip(1) =~= Seq::empty());
    assert(without_codes(e.skip(1)) =~= Seq::empty());
    assert(without_codes(e) =~= e);
}

/// Of a row of spaces one is left: two spaces count as one wherever they stand,
/// and a text in which no two stand together stays.
pub proof fn law_spaces_become_single(a: Seq<char>, b: Seq<char>)
    ensures
        single_spaced(a.push(' ').push(' ') + b) == single_spaced(a.push(' ') + b),
        (forall|i: int| 0 < i < a.len() ==> !(a[i - 1] == ' ' && #[trigger] a[i] == ' '))
            ==> single_spaced(a) == a,
    decreases a.len() + b.len(),
{
    let x = a.push(' ').push(' ') + b;
    let y = a.push(' ') + b;
    if b.len() == 0 {
        assert(x =~= a.push(' ').push(' '));
        assert(y =~= a.push(' '));
        assert(x.drop_last() =~= a.push(' '));
    } else {
        law_spaces_become_single(a, b.drop_last());
        assert(x.drop_last() =~= a.push(' ').push(' ') + b.drop_last());
        assert(y.drop_last() =~= a.push(' ') + b.drop_last());
        assert(x[x.len() - 2] == y[y.len() - 2]);
        assert(x.last() == y.last());
    }
    if a.len() > 0 && (forall|i: int|
        0 < i < a.len() ==> !(a[i - 1] == ' ' && #[trigger] a[i] == ' ')) {
        let t = a.drop_last();
        assert forall|i: int| 0 < i < t.len() implies !(t[i - 1] == ' ' && #[trigger] t[i]
            == ' ') by {
            assert(t[i] == a[i]);
        }
        law_spaces_become_single(t, Seq::empty());
        assert(!(a.len() > 1 && a[a.len() - 2] == ' ' && a[a.len() - 1] == ' '));
        assert(t.push(a.last()) =~= a);
    }
}

proof fn lemma_counted(parsed: Seq<(String, DesktopEntry)>, n: int)
    requires
        n <= parsed.len(),
    ensures
        forall|i: int|
            0 <= i < n && #[trigger] counts(parsed, i) ==> counted(parsed, n).contains(
                parsed[i].1@,
            ),
        forall|x: EntryView| #[trigger]
            counted(parsed, n).contains(x) ==> exists|i: int|
                0 <= i < n && #[trigger] counts(parsed, i) && parsed[i].1@ == x,
    decreases n,
{
    if n > 0 {
        lemma_counted(parsed, n - 1);
        let rest = counted(parsed, n - 1);
        let all = counted(parsed, n);
        assert forall|i: int| 0 <= i < n && #[trigger] counts(parsed, i) implies all.contains(
            parsed[i].1@,
        ) by {
            if i < n - 1 {
                assert(rest.contains(parsed[i].1@));
                let k = choose|k: int| 0 <= k < rest.len() && rest[k] == parsed[i].1@;
                assert(all[k] == rest[k]);
            } else {
                assert(all[rest.len() as int] == parsed[i].1@);
            }
        }
        assert forall|x: EntryView| #[trigger] all.contains(x) implies exists|i: int|
            0 <= i < n && #[trigger] counts(parsed, i) && parsed[i].1@ == x by {
            let k = choose|k: int| 0 <= k < all.len() && all[k] == x;
            if k < rest.len() {
                assert(rest[k] == x);
                assert(rest.contains(x));
                let i = choose|i: int|
                    0 <= i < n - 1 && #[trigger] counts(parsed, i) && parsed[i].1@ == x;
                assert(counts(parsed, i));
            } else {
                assert(counts(parsed, n - 1));
            }
        }
    }
}

/// The list holds, of the files of each name, the last one given, and nothing
/// else, in the order of the names in lower case.
pub proof fn law_later_files_replace_earlier_ones(
    parsed: Seq<(String, DesktopEntry)>,
    listed: Seq<EntryView>,
)
    requires
        sorting::is_stable_sort(
            counted(parsed, parsed.len() as int),
            listed,
            |a: EntryView, b: EntryView| DesktopEntry::ranks(a, b),
        ),
    ensures
        forall|i: int|
            0 <= i < parsed.len() && (forall|k: int|
                i < k < parsed.len() ==> (#[trigger] parsed[k]).0@ != parsed[i].0@)
                ==> listed.contains((#[trigger] parsed[i]).1@),
        forall|x: EntryView| #[trigger]
            listed.contains(x) ==> exists|i: int|
                {
                    &&& 0 <= i < parsed.len()
                    &&& (#[trigger] parsed[i]).1@ == x
                    &&& forall|k: int|
                        i < k < parsed.len() ==> (#[trigger] parsed[k]).0@ != parsed[i].0@
                },
        forall|i: int, j: int|
            0 <= i < j < listed.len() ==> sorting::text_le(
                (#[trigger] listed[i]).search_key,
                (#[trigger] listed[j]).search_key,
            ),
{
    let found = counted(parsed, parsed.len() as int);
    let ranks = |a: EntryView, b: EntryView| DesktopEntry::ranks(a, b);
    lemma_counted(parsed, parsed.len() as int);
    assert forall|a: EntryView| #[trigger] ranks(a, a) by {
        DesktopEntry::ranks_total(a, a);
    }
    sorting::law_sorting_loses_nothing(found, listed, ranks);
    assert forall|i: int|
        0 <= i < parsed.len() && (forall|k: int|
            i < k < parsed.len() ==> (#[trigger] parsed[k]).0@ != parsed[i].0@) implies
        listed.contains((#[trigger] parsed[i]).1@) by {
        assert(counts(parsed, i));
        assert(found.contains(parsed[i].1@));
    }
    assert forall|x: EntryView| #[trigger] listed.contains(x) implies exists|i: int|
        {
            &&& 0 <= i < parsed.len()
            &&& (#[trigger] parsed[i]).1@ == x
            &&& forall|k: int| i < k < parsed.len() ==> (#[trigger] parsed[k]).0@ != parsed[i].0@
        } by {
        assert(found.contains(x));
        let i = choose|i: int|
            0 <= i < parsed.len() && #[trigger] counts(parsed, i) && parsed[i].1@ == x;
        assert(parsed[i].1@ == x);
    }
    assert forall|i: int, j: int| 0 <= i < j < listed.len() implies sorting::text_le(
        (#[trigger] listed[i]).search_key,
        (#[trigger] listed[j]).search_key,
    ) by {
        assert(ranks(listed[i], listed[j]));
    }
}

/// A user's data lie where the environment says; else below the home directory;
/// else in `/tmp`.
pub proof fn law_user_data(data_home: Option<Seq<char>>, home: Option<Seq<char>>)
    ensures
        data_home is Some ==> user_data(data_home, home) == data_home->0,
        data_home is None && home is Some ==> user_data(data_home, home) == pathname::join(
            home->0,
            ".local/share"@,
        ),
        data_home is None && home is None ==> user_data(data_home, home) == "/tmp"@,
{
}

/// The entry read of a file is made of its main section alone: cutting the file
/// off before the header that follows changes nothing.
pub proof fn law_parsing_stops_at_the_next_section(
    whole: &str,
    part: &str,
    a: Seq<char>,
    b: Seq<char>,
    file_stem: &str,
    desktop_path: &str,
    r: Option<DesktopEntry>,
    q: Option<DesktopEntry>,
)
    requires
        whole@ == a.push('\n') + b,
        part@ == a.push('\n'),
        call_ensures(parse_desktop_file, (whole, file_stem, desktop_path), r),
        call_ensures(parse_desktop_file, (part, file_stem, desktop_path), q),
        exists|h: int|
            0 <= h < text::lines(part@).len() && is_main_header(#[trigger] text::lines(part@)[h]),
        text::lines(b).len() > 0,
        is_header(text::lines(b)[0]),
    ensures
        r is Some <==> q is Some,
        r is Some ==> r->0@ == q->0@,
{
    law_later_sections_have_no_effect(a, b, file_stem@, desktop_path@);
}

/// Each field of the entry read of a file is the value of a line of the main
/// section, between its header and the next one; and an entry is read only if
/// there is such a section.
pub proof fn law_fields_come_from_the_main_section(
    content: &str,
    file_stem: &str,
    desktop_path: &str,
    r: Option<DesktopEntry>,
    h: int,
    e: int,
)
    requires
        call_ensures(parse_desktop_file, (content, file_stem, desktop_path), r),
    ensures
        (forall|j: int|
            0 <= j < text::lines(content@).len() ==> !is_main_header(
                #[trigger] text::lines(content@)[j],
            )) ==> r is None,
        is_main_section(text::lines(content@), h, e) && r is Some ==> {
            let lines = text::lines(content@);
            &&& is_first_given(lines, h, e, "Name"@, Some(r->0.name@))
            &&& is_last_given(lines, h, e, "Exec"@, Some(r->0.exec_line@))
            &&& is_last_given(lines, h, e, "Icon"@, text::opt(r->0.icon_name))
            &&& is_last_given(lines, h, e, "Type"@, Some("Application"@))
            &&& is_last_given(lines, h, e, "StartupWMClass"@, text::opt(r->0.startup_wm_class))
            &&& r->0.file_stem@ == file_stem@
            &&& r->0.desktop_path@ == desktop_path@
        },
{
    law_only_the_main_section_is_read(text::lines(content@), h, e);
}

/// A command is run without its field codes: what the codes stand for is not
/// filled in, and the words are those of what is left.
pub proof fn law_command_words(exec_line: &str, r: Vec<String>, a: Seq<char>, c: char)
    requires
        call_ensures(launch_parts, (exec_line,), r),
        !a.contains('%'),
        ("fFuUickdDnNvm"@).contains(c),
        exec_line@ == a + seq!['%', c],
    ensures
        text::views(r@) == text::words(text::trim(single_spaced(a))),
{
    law_field_codes_vanish(a, c, Seq::empty());
    assert(a + seq!['%', c] + Seq::<char>::empty() =~= a + seq!['%', c]);
    assert(without_codes(Seq::<char>::empty()) =~= Seq::empty());
    assert(a + without_codes(Seq::<char>::empty()) =~= a);
}

/// Of files of the same name the last one given is listed, and the list is in the
/// order of the names in lower case.
pub proof fn law_merged_entries(parsed: Vec<(String, DesktopEntry)>, r: Vec<DesktopEntry>, i: int)
    requires
        call_ensures(merge_entries, (parsed,), r),
        0 <= i < parsed@.len(),
        forall|k: int| i < k < parsed@.len() ==> (#[trigger] parsed@[k]).0@ != parsed@[i].0@,
    ensures
        exists|k: int| 0 <= k < r@.len() && (#[trigger] r@[k])@ == parsed@[i].1@,
        forall|k: int, j: int|
            0 <= k < j < r@.len() ==> sorting::text_le(
                (#[trigger] r@[k]).search_key@,
                (#[trigger] r@[j]).search_key@,
            ),
{
    let v = sorting::views(r@);
    law_later_files_replace_earlier_ones(parsed@, v);
    assert(v.contains(parsed@[i].1@));
    let k = choose|k: int| 0 <= k < v.len() && v[k] == parsed@[i].1@;
    assert(r@[k]@ == v[k]);
    assert forall|k: int, j: int| 0 <= k < j < r@.len() implies sorting::text_le(
        (#[trigger] r@[k]).search_key@,
        (#[trigger] r@[j]).search_key@,
    ) by {
        assert(v[k] == r@[k]@ && v[j] == r@[j]@);
    }
}

} // verus!
