//! Files below a directory, as they are found.

use vstd::prelude::*;
use vstd::string::*;

use std::sync::Arc;

use crate::numeral;
use crate::sorting;
use crate::sorting::Ranked;
use crate::text;
use crate::zofi::source;
use crate::zofi::source::ActivateOutcome;
use crate::zofi::source::Image;
use crate::zofi::source::ImageFormat;
use crate::zofi::source::Layout;
use crate::zofi::source::Preview;
use crate::zofi::source::Row;
use crate::zofi::source::RowIcon;
use crate::zofi::highlight;
use crate::zofi::highlight::Grammars;
use crate::zofi::sources::file_icons;

verus! {

/// How many files are listed at most.
pub const MAX_ENTRIES: usize = 200_000;

/// How deep below the root files are looked for.
pub const MAX_DEPTH: usize = 12;

/// How much of a text is read for its preview.
pub const PREVIEW_TEXT_BYTES: usize = 100_000;

/// After how many files the list is drawn again.
pub const PULSE_EVERY: usize = 500;

/// How many files are added at a time.
pub const PUSH_BATCH: usize = 64;

/// How many entries of a directory its preview names.
pub const LISTED: usize = 200;

// ---------------------------------------------------------------------------
// The list
// ---------------------------------------------------------------------------

/// The files found so far and which of them match. Files are only added, so
/// what was matched is not looked at again.
pub struct FileIndex {
    root: String,
    entries: Vec<String>,
    keys: Vec<String>,
    matched: Vec<usize>,
    query: String,
    scanned: usize,
    walk_id: u64,
}

/// Which of `m` hold `needle`.
pub open spec fn narrowed(m: Seq<usize>, keys: Seq<Seq<char>>, needle: Seq<char>) -> Seq<usize>
    decreases m.len(),
{
    if m.len() == 0 {
        Seq::empty()
    } else if text::contains(keys[m.last() as int], needle) {
        narrowed(m.drop_last(), keys, needle).push(m.last())
    } else {
        narrowed(m.drop_last(), keys, needle)
    }
}

proof fn lemma_contains_prefix(k: Seq<char>, p: Seq<char>, q: Seq<char>)
    requires
        text::starts_with(q, p),
        text::contains(k, q),
    ensures
        text::contains(k, p),
{
    let i = choose|i: int| text::occurs_at(k, q, i);
    assert(text::occurs_at(k, p, i)) by {
        assert(text::occurs_at(q, p, 0));
        assert(k.subrange(i, i + p.len()) =~= q.subrange(0, p.len() as int));
    }
}

/// Searching among the matches of a shorter query finds the same as searching
/// everywhere.
pub proof fn law_narrowing_finds_the_same(
    keys: Seq<Seq<char>>,
    p: Seq<char>,
    q: Seq<char>,
    n: int,
)
    requires
        text::starts_with(q, p),
        0 <= n <= keys.len() <= usize::MAX,
    ensures
        narrowed(source::matching(keys, p, n), keys, q) == source::matching(keys, q, n),
    decreases n,
{
    if n > 0 {
        law_narrowing_finds_the_same(keys, p, q, n - 1);
        let m = source::matching(keys, p, n - 1);
        if text::contains(keys[n - 1], q) {
            lemma_contains_prefix(keys[n - 1], p, q);
        }
        if text::contains(keys[n - 1], p) {
            assert(m.push((n - 1) as usize).drop_last() == m);
        }
    }
}

proof fn lemma_matching_local(a: Seq<Seq<char>>, b: Seq<Seq<char>>, q: Seq<char>, n: int)
    requires
        0 <= n <= a.len(),
        n <= b.len(),
        forall|i: int| 0 <= i < n ==> a[i] == b[i],
    ensures
        source::matching(a, q, n) == source::matching(b, q, n),
    decreases n,
{
    if n > 0 {
        lemma_matching_local(a, b, q, n - 1);
    }
}

proof fn lemma_matching_bound(keys: Seq<Seq<char>>, q: Seq<char>, n: int)
    requires
        0 <= n <= keys.len() <= usize::MAX,
    ensures
        forall|i: int|
            0 <= i < source::matching(keys, q, n).len() ==> (#[trigger] source::matching(
                keys,
                q,
                n,
            )[i]) < n,
    decreases n,
{
    if n > 0 {
        lemma_matching_bound(keys, q, n - 1);
        let m = source::matching(keys, q, n - 1);
        let all = source::matching(keys, q, n);
        assert forall|i: int| 0 <= i < all.len() implies (#[trigger] all[i]) < n by {
            if i < m.len() {
                assert(all[i] == m[i]);
            }
        }
    }
}

/// The number of the walk after walk `w`.
pub open spec fn next_walk(w: u64) -> u64 {
    if w == u64::MAX {
        0
    } else {
        (w + 1) as u64
    }
}

/// A walk that was under way when another directory is entered adds nothing
/// any more.
pub proof fn law_abandoned_walk_adds_nothing(before: FileIndex, after: FileIndex, walk: u64)
    requires
        before.takes_from(walk),
        after.walk() == next_walk(before.walk()),
    ensures
        !after.takes_from(walk),
{
}

impl FileIndex {
    /// The directory that is listed.
    pub closed spec fn directory(&self) -> Seq<char> {
        self.root@
    }

    /// The files found.
    pub closed spec fn paths(&self) -> Seq<Seq<char>> {
        text::views(self.entries@)
    }

    /// What they are found by.
    pub closed spec fn found_by(&self) -> Seq<Seq<char>> {
        text::views(self.keys@)
    }

    /// The number of the walk that adds files.
    pub closed spec fn walk(&self) -> u64 {
        self.walk_id
    }

    /// Whether files are taken from a walk: from the current one only.
    pub open spec fn takes_from(&self, walk: u64) -> bool {
        walk == self.walk()
    }

    /// Every file has a key, and the matches are those of the files that were
    /// looked at.
    pub closed spec fn wf(&self) -> bool {
        &&& self.entries@.len() == self.keys@.len()
        &&& self.scanned <= self.keys@.len()
        &&& self.matched@ == source::matching(
            text::views(self.keys@),
            self.query@,
            self.scanned as int,
        )
    }

    /// An index of a directory in which nothing was found yet.
    pub fn new(root: String) -> (r: Self)
        ensures
            r.wf(),
            r.directory() == root@,
            r.paths().len() == 0,
            r.found_by().len() == 0,
            r.walk() == 0,
    {
        FileIndex {
            root,
            entries: Vec::new(),
            keys: Vec::new(),
            matched: Vec::new(),
            query: String::new(),
            scanned: 0,
            walk_id: 0,
        }
    }

    /// Lists another directory; returns the number of the walk that may add
    /// files from now on.
    pub fn navigate(&mut self, new_root: String) -> (walk: u64)
        ensures
            final(self).wf(),
            final(self).directory() == new_root@,
            final(self).paths().len() == 0,
            final(self).found_by().len() == 0,
            walk == final(self).walk(),
            walk == next_walk(old(self).walk()),
    {
        self.walk_id = if self.walk_id == u64::MAX {
            0
        } else {
            self.walk_id + 1
        };
        self.root = new_root;
        self.entries = Vec::new();
        self.keys = Vec::new();
        self.matched = Vec::new();
        self.query = String::new();
        self.scanned = 0;
        self.walk_id
    }

    /// Adds the files that a walk found; returns whether the walk is still the
    /// current one. An older walk adds nothing.
    pub fn flush_batch(&mut self, batch: Vec<(String, String)>, walk: u64) -> (r: bool)
        requires
            old(self).wf(),
        ensures
            final(self).wf(),
            final(self).directory() == old(self).directory(),
            final(self).walk() == old(self).walk(),
            r == old(self).takes_from(walk),
            final(self).paths() == (if r {
                old(self).paths() + batch@.map_values(|e: (String, String)| e.0@)
            } else {
                old(self).paths()
            }),
            final(self).found_by() == (if r {
                old(self).found_by() + batch@.map_values(|e: (String, String)| e.1@)
            } else {
                old(self).found_by()
            }),
    {
        if self.walk_id != walk {
            return false;
        }
        let ghost paths = self.paths();
        let ghost keys = self.found_by();
        let ghost new_paths = batch@.map_values(|e: (String, String)| e.0@);
        let ghost new_keys = batch@.map_values(|e: (String, String)| e.1@);
        let mut i: usize = 0;
        while i < batch.len()
            invariant
                i <= batch@.len(),
                new_paths == batch@.map_values(|e: (String, String)| e.0@),
                new_keys == batch@.map_values(|e: (String, String)| e.1@),
                text::views(self.entries@) =~= paths + new_paths.take(i as int),
                text::views(self.keys@) =~= keys + new_keys.take(i as int),
                self.entries@.len() == self.keys@.len(),
                keys == old(self).found_by(),
                self.root == old(self).root,
                self.matched == old(self).matched,
                self.query == old(self).query,
                self.scanned == old(self).scanned,
                self.walk_id == old(self).walk_id,
            decreases batch.len() - i,
        {
            let ghost had_paths = text::views(self.entries@);
            let ghost had_keys = text::views(self.keys@);
            self.entries.push(batch[i].0.clone());
            self.keys.push(batch[i].1.clone());
            proof {
                assert(text::views(self.entries@) =~= had_paths.push(batch@[i as int].0@));
                assert(text::views(self.keys@) =~= had_keys.push(batch@[i as int].1@));
                assert(new_paths.take(i + 1) =~= new_paths.take(i as int).push(
                    new_paths[i as int],
                ));
                assert(new_keys.take(i + 1) =~= new_keys.take(i as int).push(new_keys[i as int]));
            }
            i = i + 1;
        }
        proof {
            assert(new_paths.take(i as int) =~= new_paths);
            assert(new_keys.take(i as int) =~= new_keys);
            lemma_matching_local(
                keys,
                text::views(self.keys@),
                self.query@,
                self.scanned as int,
            );
        }
        true
    }

    fn scan(&mut self, q: &str)
        requires
            old(self).entries@.len() == old(self).keys@.len(),
            old(self).scanned <= old(self).keys@.len(),
            old(self).matched@ == source::matching(
                text::views(old(self).keys@),
                q@,
                old(self).scanned as int,
            ),
        ensures
            final(self).root == old(self).root,
            final(self).entries == old(self).entries,
            final(self).keys == old(self).keys,
            final(self).query == old(self).query,
            final(self).walk_id == old(self).walk_id,
            final(self).scanned == old(self).keys@.len(),
            final(self).matched@ == source::matching(
                text::views(old(self).keys@),
                q@,
                old(self).keys@.len() as int,
            ),
    {
        let ghost all = text::views(self.keys@);
        let needle = text::chars_of(q);
        let mut i: usize = self.scanned;
        let end: usize = self.keys.len();
        while i < end
            invariant
                i <= end,
                end == self.keys@.len(),
                all == text::views(self.keys@),
                needle@ == q@,
                self.matched@ == source::matching(all, q@, i as int),
                self.root == old(self).root,
                self.entries == old(self).entries,
                self.keys == old(self).keys,
                self.query == old(self).query,
                self.walk_id == old(self).walk_id,
            decreases end - i,
        {
            let key = text::chars_of(self.keys[i].as_str());
            proof {
                assert(all[i as int] == key@);
            }
            if text::occurs(key.as_slice(), needle.as_slice()) {
                self.matched.push(i);
            }
            i = i + 1;
        }
        self.scanned = end;
    }

    /// The files that match `query`, whatever was asked before.
    pub fn filter(&mut self, query: &str) -> (r: Vec<usize>)
        requires
            old(self).wf(),
        ensures
            final(self).wf(),
            final(self).directory() == old(self).directory(),
            final(self).paths() == old(self).paths(),
            final(self).found_by() == old(self).found_by(),
            final(self).walk() == old(self).walk(),
            old(self).found_by().len() <= usize::MAX,
            r@ == source::matching(
                old(self).found_by(),
                text::lowercase(query@),
                old(self).found_by().len() as int,
            ),
    {
        let q = text::to_lowercase(query);
        let ghost all = text::views(self.keys@);
        assert(all.len() == self.keys.len());
        let same = text::str_eq(q.as_str(), self.query.as_str());
        if !same {
            if !self.query.as_str().is_empty() && text::str_starts_with(
                q.as_str(),
                self.query.as_str(),
            ) {
                let needle = text::chars_of(q.as_str());
                let ghost prev = self.matched@;
                let mut kept: Vec<usize> = Vec::new();
                let mut i: usize = 0;
                assert(self.keys@.len() == self.keys.len());
                proof {
                    lemma_matching_bound(all, self.query@, self.scanned as int);
                    assert(prev.take(0) == Seq::<usize>::empty());
                }
                while i < self.matched.len()
                    invariant
                        i <= self.matched@.len(),
                        prev == self.matched@,
                        all == text::views(self.keys@),
                        needle@ == q@,
                        forall|k: int| 0 <= k < prev.len() ==> (#[trigger] prev[k]) < all.len(),
                        kept@ == narrowed(prev.take(i as int), all, q@),
                        *self == *old(self),
                    decreases self.matched.len() - i,
                {
                    let ix = self.matched[i];
                    proof {
                        assert(prev[i as int] < all.len());
                        assert(prev.take(i + 1).drop_last() == prev.take(i as int));
                        assert(prev.take(i + 1).last() == ix);
                    }
                    let key = text::chars_of(self.keys[ix].as_str());
                    proof {
                        assert(all[ix as int] == key@);
                    }
                    if text::occurs(key.as_slice(), needle.as_slice()) {
                        kept.push(ix);
                    }
                    i = i + 1;
                }
                proof {
                    assert(prev.take(i as int) == prev);
                    law_narrowing_finds_the_same(all, self.query@, q@, self.scanned as int);
                }
                self.matched = kept;
            } else {
                self.matched = Vec::new();
                self.scanned = 0;
            }
        }
        self.scan(q.as_str());
        self.query = q;
        vstd::slice::slice_to_vec(self.matched.as_slice())
    }

    /// One of the files.
    pub fn path(&self, ix: usize) -> (r: Option<String>)
        ensures
            text::opt(r) == (if ix < self.paths().len() {
                Some(self.paths()[ix as int])
            } else {
                None
            }),
    {
        if ix < self.entries.len() {
            Some(self.entries[ix].clone())
        } else {
            None
        }
    }

    /// The directory that is listed.
    pub fn root(&self) -> (r: &str)
        ensures
            r@ == self.directory(),
    {
        self.root.as_str()
    }
}

// ---------------------------------------------------------------------------
// Walking
// ---------------------------------------------------------------------------

/// The names of directories that are not looked into.
pub open spec fn skipped_dirs() -> Seq<Seq<char>> {
    seq![
        ".git"@,
        ".cache"@,
        ".local/share/Trash"@,
        "node_modules"@,
        "target"@,
        "dist"@,
        "build"@,
        "__pycache__"@,
        ".venv"@,
        "venv"@,
    ]
}

/// Whether something found is passed over: hidden things below the root, and
/// directories that hold nothing to look for.
pub fn is_skip(name: &str, depth: usize, is_dir: bool) -> (r: bool)
    ensures
        r == ((text::starts_with(name@, "."@) && depth > 0) || (is_dir && skipped_dirs().contains(
            name@,
        ))),
{
    if text::str_starts_with(name, ".") && depth > 0 {
        return true;
    }
    if !is_dir {
        return false;
    }
    let names: Vec<&str> = vec![
        ".git",
        ".cache",
        ".local/share/Trash",
        "node_modules",
        "target",
        "dist",
        "build",
        "__pycache__",
        ".venv",
        "venv",
    ];
    let ghost all = skipped_dirs();
    proof {
        assert(names@.map_values(|s: &str| s@) =~= all);
    }
    let mut i: usize = 0;
    while i < names.len()
        invariant
            i <= names@.len(),
            names@.map_values(|s: &str| s@) == all,
            all == skipped_dirs(),
            is_dir,
            forall|k: int| 0 <= k < i ==> #[trigger] all[k] != name@,
        decreases names.len() - i,
    {
        let hit = text::str_eq(names[i], name);
        proof {
            assert(all[i as int] == names@[i as int]@);
        }
        if hit {
            assert(all.contains(all[i as int]));
            return true;
        }
        i = i + 1;
    }
    false
}

/// `path` as seen from `root`, where it lies below it.
pub open spec fn relative(path: Seq<char>, root: Seq<char>) -> Option<Seq<char>> {
    if path == root {
        Some(Seq::empty())
    } else if root.len() > 0 && root.last() == '/' && text::starts_with(path, root) {
        Some(path.skip(root.len() as int))
    } else if text::starts_with(path, root.push('/')) {
        Some(path.skip(root.len() as int + 1))
    } else {
        None
    }
}

/// `path` as seen from `root`.
pub fn relative_to(path: &str, root: &str) -> (r: Option<String>)
    ensures
        text::opt(r) == relative(path@, root@),
{
    if text::str_eq(path, root) {
        let s = String::new();
        proof {
            assert(s@ =~= Seq::<char>::empty());
        }
        return Some(s);
    }
    let p = text::chars_of(path);
    let mut b = text::chars_of(root);
    if b.len() > 0 && b[b.len() - 1] == '/' && text::match_at(p.as_slice(), b.as_slice(), 0) {
        let rest = vstd::slice::slice_subrange(p.as_slice(), b.len(), p.len());
        proof {
            assert(rest@ == p@.skip(b@.len() as int));
        }
        return Some(text::string_of(rest));
    }
    b.push('/');
    if text::match_at(p.as_slice(), b.as_slice(), 0) {
        let rest = vstd::slice::slice_subrange(p.as_slice(), b.len(), p.len());
        proof {
            assert(rest@ == p@.skip(b@.len() as int));
        }
        return Some(text::string_of(rest));
    }
    None
}

/// What a file is found by: its path below the root, in lower case.
pub fn entry_key(path: &str, root: &str) -> (r: String)
    ensures
        r@ == text::lowercase(
            match relative(path@, root@) {
                Some(rel) => rel,
                None => path@,
            },
        ),
{
    match relative_to(path, root) {
        Some(rel) => text::to_lowercase(rel.as_str()),
        None => text::to_lowercase(path),
    }
}

/// What a walk has to do after it found a file.
#[derive(Clone, Copy, Debug, PartialEq, Eq, Structural)]
pub struct WalkStep {
    /// Add the files that were collected.
    pub flush: bool,
    /// Have the list drawn again.
    pub pulse: bool,
    /// Stop: there are enough files.
    pub stop: bool,
}

/// A walk through the files below a directory.
pub struct Walk {
    local: Vec<(String, String)>,
    since_pulse: usize,
    total: usize,
}

impl Walk {
    /// The files that were collected and not added yet.
    pub closed spec fn collected(&self) -> Seq<(Seq<char>, Seq<char>)> {
        self.local@.map_values(|e: (String, String)| (e.0@, e.1@))
    }

    /// How many files were found since the list was drawn, and in all.
    pub closed spec fn counted(&self) -> (usize, usize) {
        (self.since_pulse, self.total)
    }

    /// There is room for more files.
    pub open spec fn wf(&self) -> bool {
        self.counted().0 < PULSE_EVERY && self.counted().1 < MAX_ENTRIES
    }

    /// A walk that has found nothing.
    pub fn new() -> (r: Self)
        ensures
            r.wf(),
            r.collected().len() == 0,
            r.counted() == (0usize, 0usize),
    {
        Walk { local: Vec::new(), since_pulse: 0, total: 0 }
    }

    /// A file was found.
    pub fn found(&mut self, path: String, key: String) -> (r: WalkStep)
        requires
            old(self).wf(),
        ensures
            final(self).collected() == old(self).collected().push((path@, key@)),
            final(self).counted().1 == old(self).counted().1 + 1,
            final(self).counted().0 == (if r.pulse {
                0
            } else {
                old(self).counted().0 + 1
            }),
            r.flush == (old(self).collected().len() + 1 >= PUSH_BATCH),
            r.pulse == (old(self).counted().0 + 1 >= PULSE_EVERY),
            r.stop == (old(self).counted().1 + 1 >= MAX_ENTRIES),
            !r.stop ==> final(self).wf(),
    {
        let ghost had = self.collected();
        self.local.push((path, key));
        proof {
            assert(self.collected() =~= had.push((path@, key@)));
        }
        self.total = self.total + 1;
        self.since_pulse = self.since_pulse + 1;
        let pulse = self.since_pulse >= PULSE_EVERY;
        if pulse {
            self.since_pulse = 0;
        }
        WalkStep { flush: self.local.len() >= PUSH_BATCH, pulse, stop: self.total >= MAX_ENTRIES }
    }

    /// Hands over the files that were collected.
    pub fn take(&mut self) -> (r: Vec<(String, String)>)
        ensures
            r@.map_values(|e: (String, String)| (e.0@, e.1@)) == old(self).collected(),
            final(self).collected().len() == 0,
            final(self).counted() == old(self).counted(),
    {
        let mut out: Vec<(String, String)> = Vec::new();
        std::mem::swap(&mut out, &mut self.local);
        out
    }
}

// ---------------------------------------------------------------------------
// What is shown of a file
// ---------------------------------------------------------------------------

/// What activating something does: a directory is listed, a file opened.
pub fn activation(is_dir: bool) -> (r: ActivateOutcome)
    ensures
        r == (if is_dir {
            ActivateOutcome::Refresh
        } else {
            ActivateOutcome::Quit
        }),
{
    if is_dir {
        ActivateOutcome::Refresh
    } else {
        ActivateOutcome::Quit
    }
}

/// How the directory of a file is shown: from the root where it lies below it.
pub open spec fn parent_text(parent: Option<Seq<char>>, root: Seq<char>) -> Seq<char> {
    match parent {
        Some(p) => if p.len() == 0 {
            Seq::empty()
        } else {
            match relative(p, root) {
                Some(rel) => if rel.len() == 0 {
                    "~"@
                } else {
                    "~/"@ + rel
                },
                None => p,
            }
        },
        None => Seq::empty(),
    }
}

/// How the directory of a file is shown.
pub fn parent_label(parent: Option<&str>, root: &str) -> (r: String)
    ensures
        r@ == parent_text(text::opt_str(parent), root@),
{
    match parent {
        Some(p) => {
            if p.is_empty() {
                return String::new();
            }
            match relative_to(p, root) {
                Some(rel) => if rel.as_str().is_empty() {
                    "~".to_owned()
                } else {
                    text::concat2("~/", rel.as_str())
                },
                None => p.to_owned(),
            }
        },
        None => String::new(),
    }
}

/// The format of an image file that can be shown, by its extension.
pub fn image_format_from_ext(ext: &str) -> (r: Option<ImageFormat>)
    ensures
        r == (if text::ascii_lower(ext@) == "png"@ {
            Some(ImageFormat::Png)
        } else if text::ascii_lower(ext@) == "jpg"@ || text::ascii_lower(ext@) == "jpeg"@ {
            Some(ImageFormat::Jpeg)
        } else {
            None
        }),
{
    let e = text::to_ascii_lower(ext);
    if text::str_eq(e.as_str(), "png") {
        Some(ImageFormat::Png)
    } else if text::str_eq(e.as_str(), "jpg") || text::str_eq(e.as_str(), "jpeg") {
        Some(ImageFormat::Jpeg)
    } else {
        None
    }
}

/// The text in `bytes`; what holds a NUL is no text.
pub open spec fn text_in(bytes: Seq<u8>) -> Option<Seq<char>> {
    if bytes.contains(0u8) {
        None
    } else {
        Some(text::utf8_lossy(bytes))
    }
}

/// The text in `bytes`.
pub fn read_text(bytes: &[u8]) -> (r: Option<String>)
    ensures
        text::opt(r) == text_in(bytes@),
{
    let mut i: usize = 0;
    while i < bytes.len()
        invariant
            i <= bytes@.len(),
            forall|k: int| 0 <= k < i ==> bytes@[k] != 0,
        decreases bytes.len() - i,
    {
        if bytes[i] == 0 {
            return None;
        }
        i = i + 1;
    }
    Some(text::from_utf8_lossy(bytes))
}

/// The preview of a file's text: where it is, how large it is, and what was
/// read of it.
pub open spec fn preview_text(
    path: Seq<char>,
    size: Option<u64>,
    content: Option<Seq<char>>,
) -> Seq<char> {
    let header = match size {
        Some(n) => path + "\n"@ + numeral::decimal(n as nat) + " bytes\n\n"@,
        None => path + "\n\n"@,
    };
    match content {
        Some(t) => header + t,
        None => header + "(binary or unreadable)"@,
    }
}

/// The preview of a file of which `bytes` were read.
pub fn text_preview(path: &str, size: Option<u64>, bytes: Option<&[u8]>) -> (r: String)
    ensures
        r@ == preview_text(
            path@,
            size,
            match bytes {
                Some(b) => text_in(b@),
                None => None,
            },
        ),
{
    let mut s = path.to_owned();
    match size {
        Some(n) => {
            s.push_str("\n");
            numeral::push_decimal(&mut s, n);
            s.push_str(" bytes\n\n");
        },
        None => {
            s.push_str("\n\n");
        },
    }
    let content = match bytes {
        Some(b) => read_text(b),
        None => None,
    };
    match content {
        Some(t) => {
            s.push_str(t.as_str());
        },
        None => {
            s.push_str("(binary or unreadable)");
        },
    }
    s
}

/// The preview of a text in a language, which may be known or not.
pub fn code_or_text(body: String, ext: &str, known: bool) -> (r: Preview)
    ensures
        if ext@.len() > 0 && known {
            r matches Preview::Code { text: t, lang } && t == body && lang@ == text::ascii_lower(
                ext@,
            )
        } else {
            r == Preview::Text(body)
        },
{
    if !ext.is_empty() && known {
        Preview::Code { text: body, lang: text::to_ascii_lower(ext) }
    } else {
        Preview::Text(body)
    }
}

/// Something in a directory.
#[derive(Debug)]
pub struct DirItem {
    pub name: String,
    pub is_dir: bool,
}

impl View for DirItem {
    type V = (Seq<char>, bool);

    open spec fn view(&self) -> (Seq<char>, bool) {
        (self.name@, self.is_dir)
    }
}

impl Ranked for DirItem {
    open spec fn ranks(a: (Seq<char>, bool), b: (Seq<char>, bool)) -> bool {
        sorting::text_le(a.0, b.0)
    }

    proof fn ranks_total(a: (Seq<char>, bool), b: (Seq<char>, bool)) {
        sorting::lemma_text_le_total(a.0, b.0);
    }

    proof fn ranks_transitive(
        a: (Seq<char>, bool),
        b: (Seq<char>, bool),
        c: (Seq<char>, bool),
    ) {
        sorting::lemma_text_le_transitive(a.0, b.0, c.0);
    }

    fn may_precede(&self, other: &Self) -> (r: bool) {
        sorting::str_precedes(self.name.as_str(), other.name.as_str())
    }
}

/// The lines for the first `n` of `items`.
pub open spec fn item_lines(items: Seq<(Seq<char>, bool)>, n: int) -> Seq<char>
    decreases n,
{
    if n <= 0 {
        Seq::empty()
    } else {
        item_lines(items, n - 1) + "\n"@ + items[n - 1].0 + if items[n - 1].1 {
            "/"@
        } else {
            Seq::<char>::empty()
        }
    }
}

/// The preview of a directory: its entries by name, up to a limit.
pub open spec fn listing_text(path: Seq<char>, items: Seq<(Seq<char>, bool)>) -> Seq<char> {
    let head = path + "/\n"@;
    if items.len() > LISTED {
        head + item_lines(items, LISTED as int) + "\n\u{2026} ("@ + numeral::decimal(
            (items.len() - LISTED) as nat,
        ) + " more)"@
    } else {
        head + item_lines(items, items.len() as int)
    }
}

/// The preview of a directory.
pub fn directory_listing(path: &str, items: Vec<DirItem>) -> (r: String)
    ensures
        exists|sorted: Seq<(Seq<char>, bool)>|
            is_by_name(sorting::views(items@), sorted) && r@ == #[trigger] listing_text(
                path@,
                sorted,
            ),
{
    let list = sorting::stable_sort(items);
    let ghost sorted = sorting::views(list@);
    let mut s = path.to_owned();
    s.push_str("/\n");
    let ghost head = s@;
    let n: usize = if list.len() > LISTED {
        LISTED
    } else {
        list.len()
    };
    let mut i: usize = 0;
    while i < n
        invariant
            i <= n <= list@.len(),
            sorted == sorting::views(list@),
            s@ =~= head + item_lines(sorted, i as int),
        decreases n - i,
    {
        s.push_str("\n");
        s.push_str(list[i].name.as_str());
        if list[i].is_dir {
            s.push_str("/");
        }
        proof {
            assert(sorted[i as int] == list@[i as int]@);
        }
        i = i + 1;
    }
    if list.len() > LISTED {
        s.push_str("\n\u{2026} (");
        numeral::push_decimal(&mut s, (list.len() - LISTED) as u64);
        s.push_str(" more)");
    }
    proof {
        assert(s@ =~= listing_text(path@, sorted));
    }
    s
}

/// Whether `sorted` is `items` in the order of their names.
pub open spec fn is_by_name(
    items: Seq<(Seq<char>, bool)>,
    sorted: Seq<(Seq<char>, bool)>,
) -> bool {
    sorting::is_stable_sort(
        items,
        sorted,
        |a: (Seq<char>, bool), b: (Seq<char>, bool)| DirItem::ranks(a, b),
    )
}

// ---------------------------------------------------------------------------
// The source
// ---------------------------------------------------------------------------

/// What the file system tells of a file.
pub struct FileFacts {
    /// Its last part, or all of the path where there is none.
    pub name: String,
    pub parent: Option<String>,
    pub extension: Option<String>,
    pub is_dir: bool,
}

/// The text, or none.
pub open spec fn ext_of(facts: FileFacts) -> Seq<char> {
    match facts.extension {
        Some(e) => e@,
        None => Seq::empty(),
    }
}

fn extension_of(facts: &FileFacts) -> (r: &str)
    ensures
        r@ == ext_of(*facts),
{
    match &facts.extension {
        Some(e) => e.as_str(),
        None => {
            proof {
                reveal_strlit("");
                assert(""@ =~= Seq::<char>::empty());
            }
            ""
        },
    }
}

/// What is left to do about an activated file.
pub enum FileAction {
    /// There is no such file.
    Nothing,
    /// Walk this directory; the number is that of the walk.
    Walk(String, u64),
    /// Open this file.
    Open(String),
}

/// What a preview is made of.
pub enum PreviewKind {
    Listing,
    Picture(ImageFormat),
    Text,
}

/// What was read for a preview.
pub enum Seen {
    /// What the directory holds.
    Listing(Vec<DirItem>),
    /// Why the directory could not be read.
    Unreadable(String),
    Picture { format: ImageFormat, bytes: Vec<u8>, id: u64 },
    /// The size, and the first bytes.
    Text { size: Option<u64>, head: Option<Vec<u8>> },
}

/// The files below a directory, as a source of the launcher.
pub struct FilesSource {
    pub index: FileIndex,
}

impl FilesSource {
    /// The files below `home`, or below the working directory.
    pub fn load(home: Option<String>) -> (r: Self)
        ensures
            r.index.wf(),
            r.index.directory() == (match home {
                Some(h) => h@,
                None => "."@,
            }),
            r.index.paths().len() == 0,
            r.index.found_by().len() == 0,
            r.index.walk() == 0,
    {
        let root = match home {
            Some(h) => h,
            None => ".".to_owned(),
        };
        FilesSource { index: FileIndex::new(root) }
    }

    pub fn name(&self) -> (r: &'static str)
        ensures
            r@ == "files"@,
    {
        "files"
    }

    pub fn icon(&self) -> (r: &'static str)
        ensures
            r@ == "\u{25a6}"@,
    {
        "\u{25a6}"
    }

    pub fn prefix(&self) -> (r: Option<char>)
        ensures
            r == Some('/'),
    {
        Some('/')
    }

    pub fn placeholder(&self) -> (r: &'static str)
        ensures
            r@ == "Search files..."@,
    {
        "Search files..."
    }

    pub fn empty_text(&self) -> (r: &'static str)
        ensures
            r@ == "No matching files (still walking\u{2026})"@,
    {
        "No matching files (still walking\u{2026})"
    }

    pub fn layout(&self) -> (r: Layout)
        ensures
            r == Layout::ListAndPreview,
    {
        Layout::ListAndPreview
    }

    /// The files that match `query`.
    pub fn filter(&mut self, query: &str) -> (r: Vec<usize>)
        requires
            old(self).index.wf(),
        ensures
            final(self).index.wf(),
            final(self).index.directory() == old(self).index.directory(),
            final(self).index.paths() == old(self).index.paths(),
            final(self).index.found_by() == old(self).index.found_by(),
            final(self).index.walk() == old(self).index.walk(),
            old(self).index.found_by().len() <= usize::MAX,
            r@ == source::matching(
                old(self).index.found_by(),
                text::lowercase(query@),
                old(self).index.found_by().len() as int,
            ),
    {
        self.index.filter(query)
    }

    /// The row of a file: its icon, its name and its directory.
    pub fn render_item(&self, facts: FileFacts, selected: bool) -> (r: Row)
        ensures
            r.gutter is None,
            r.icon matches RowIcon::Asset(path, shade) && (path@, shade) == file_icons::icon_of(
                facts.name@,
                ext_of(facts),
                facts.is_dir,
            ),
            r.title@ == facts.name@,
            r.subtitle@ == parent_text(text::opt(facts.parent), self.index.directory()),
            r.selected == selected,
    {
        let (path, shade) = file_icons::icon_for(
            facts.name.as_str(),
            extension_of(&facts),
            facts.is_dir,
        );
        let parent: Option<&str> = match &facts.parent {
            Some(p) => Some(p.as_str()),
            None => None,
        };
        let subtitle = parent_label(parent, self.index.root());
        Row {
            gutter: None,
            icon: RowIcon::Asset(path, shade),
            title: facts.name,
            subtitle,
            selected,
        }
    }

    /// Activates a file: a directory is listed from now on, a file opened.
    pub fn activate(&mut self, ix: usize, is_dir: bool) -> (r: (ActivateOutcome, FileAction))
        requires
            old(self).index.wf(),
        ensures
            final(self).index.wf(),
            if ix >= old(self).index.paths().len() {
                &&& *final(self) == *old(self)
                &&& r == (ActivateOutcome::Quit, FileAction::Nothing)
            } else if is_dir {
                &&& final(self).index.directory() == old(self).index.paths()[ix as int]
                &&& final(self).index.paths().len() == 0
                &&& final(self).index.found_by().len() == 0
                &&& final(self).index.walk() == next_walk(old(self).index.walk())
                &&& r.0 == ActivateOutcome::Refresh
                &&& r.1 matches FileAction::Walk(path, id) && path@
                    == old(self).index.paths()[ix as int] && id == final(self).index.walk()
            } else {
                &&& *final(self) == *old(self)
                &&& r.0 == ActivateOutcome::Quit
                &&& r.1 matches FileAction::Open(path) && path@ == old(
                    self,
                ).index.paths()[ix as int]
            },
    {
        match self.index.path(ix) {
            None => (ActivateOutcome::Quit, FileAction::Nothing),
            Some(path) => {
                let outcome = activation(is_dir);
                if is_dir {
                    let id = self.index.navigate(path.clone());
                    (outcome, FileAction::Walk(path, id))
                } else {
                    (outcome, FileAction::Open(path))
                }
            },
        }
    }

    /// What the preview of a file is made of.
    pub fn preview_kind(&self, facts: &FileFacts) -> (r: PreviewKind)
        ensures
            r == (if facts.is_dir {
                PreviewKind::Listing
            } else if text::ascii_lower(ext_of(*facts)) == "png"@ {
                PreviewKind::Picture(ImageFormat::Png)
            } else if text::ascii_lower(ext_of(*facts)) == "jpg"@ || text::ascii_lower(
                ext_of(*facts),
            ) == "jpeg"@ {
                PreviewKind::Picture(ImageFormat::Jpeg)
            } else {
                PreviewKind::Text
            }),
    {
        if facts.is_dir {
            return PreviewKind::Listing;
        }
        match image_format_from_ext(extension_of(facts)) {
            Some(format) => PreviewKind::Picture(format),
            None => PreviewKind::Text,
        }
    }

    /// The preview of a file, from what was read. A text is code where there is
    /// a grammar for its extension.
    pub fn preview(&self, ix: usize, facts: &FileFacts, seen: Seen, grammars: &Grammars) -> (r:
        Option<Preview>)
        ensures
            r is Some == (ix < self.index.paths().len()),
            r is Some ==> is_preview(self.index.paths()[ix as int], ext_of(*facts), seen, r->0),
    {
        let path = match self.index.path(ix) {
            Some(p) => p,
            None => {
                return None;
            },
        };
        Some(
            match seen {
                Seen::Listing(items) => Preview::Text(directory_listing(path.as_str(), items)),
                Seen::Unreadable(why) => {
                    let mut s = path;
                    s.push_str(": ");
                    s.push_str(why.as_str());
                    Preview::Text(s)
                },
                Seen::Picture { format, bytes, id } => Preview::Image(
                    Arc::new(Image { format, bytes, id }),
                ),
                Seen::Text { size, head } => {
                    let bytes: Option<&[u8]> = match &head {
                        Some(b) => Some(b.as_slice()),
                        None => None,
                    };
                    let body = text_preview(path.as_str(), size, bytes);
                    let lang = text::to_ascii_lower(extension_of(facts));
                    let known = grammars.syntax_for(lang.as_str()).is_some();
                    code_or_text(body, extension_of(facts), known)
                },
            },
        )
    }
}

/// Whether `r` is the preview of the file at `path`, of which `seen` was read.
pub open spec fn is_preview(path: Seq<char>, ext: Seq<char>, seen: Seen, r: Preview) -> bool {
    match seen {
        Seen::Listing(items) => r matches Preview::Text(t) && exists|
            sorted: Seq<(Seq<char>, bool)>,
        |
            is_by_name(sorting::views(items@), sorted) && t@ == #[trigger] listing_text(
                path,
                sorted,
            ),
        Seen::Unreadable(why) => r matches Preview::Text(t) && t@ == path + ": "@ + why@,
        Seen::Picture { format, bytes, id } => r matches Preview::Image(i) && *i == (Image {
            format,
            bytes,
            id,
        }),
        Seen::Text { size, head } => {
            let body = preview_text(
                path,
                size,
                match head {
                    Some(b) => text_in(b@),
                    None => None,
                },
            );
            if ext.len() > 0 && highlight::grammar_for(text::ascii_lower(ext)) is Some {
                r matches Preview::Code { text: t, lang } && t@ == body && lang@
                    == text::ascii_lower(ext)
            } else {
                r matches Preview::Text(t) && t@ == body
            }
        },
    }
}

/// What lies below a directory is shown by its path from there, whether the
/// directory is written with a slash at its end or without; what does not lie
/// below it has none.
pub proof fn law_paths_below_a_directory(root: Seq<char>, rel: Seq<char>, path: Seq<char>)
    ensures
        relative(root, root) == Some(Seq::<char>::empty()),
        root.len() > 0 && root.last() != '/' ==> relative(root.push('/') + rel, root) == Some(rel),
        root.len() > 0 && root.last() == '/' ==> relative(root + rel, root) == Some(rel),
        relative(path, root) is Some ==> root.is_prefix_of(path),
{
    let a = root.push('/') + rel;
    assert(a.subrange(0, root.len() as int + 1) =~= root.push('/'));
    assert(a.skip(root.len() as int + 1) =~= rel);
    let b = root + rel;
    assert(b.subrange(0, root.len() as int) =~= root);
    assert(b.skip(root.len() as int) =~= rel);
    text::law_places_of_a_text(path, root);
    text::law_places_of_a_text(path, root.push('/'));
    if rel.len() == 0 && root.len() > 0 && root.last() == '/' {
        assert(b =~= root);
    }
    if text::starts_with(path, root.push('/')) {
        assert(root.push('/').is_prefix_of(path));
        assert(root.is_prefix_of(path));
    }
}

/// A parent directory is shown from the home directory on, as a tilde, if it
/// lies there, and else in full.
pub proof fn law_parent_is_shown_from_home(root: Seq<char>, rel: Seq<char>, parent: Seq<char>)
    ensures
        root.len() > 0 ==> parent_text(Some(root), root) == "~"@,
        root.len() > 0 && root.last() != '/' && rel.len() > 0 ==> parent_text(
            Some(root.push('/') + rel),
            root,
        ) == "~/"@ + rel,
        relative(parent, root) is None ==> parent_text(Some(parent), root) == parent,
        parent_text(None, root).len() == 0,
{
    law_paths_below_a_directory(root, rel, parent);
}

/// The directories that a walk leaves out.
pub proof fn law_skipped_directories(name: Seq<char>)
    ensures
        skipped_dirs().contains(name) <==> name == ".git"@ || name == ".cache"@ || name
            == ".local/share/Trash"@ || name == "node_modules"@ || name == "target"@ || name
            == "dist"@ || name == "build"@ || name == "__pycache__"@ || name == ".venv"@ || name
            == "venv"@,
{
    let s = skipped_dirs();
    assert(s[0] == ".git"@ && s[1] == ".cache"@ && s[2] == ".local/share/Trash"@ && s[3]
        == "node_modules"@ && s[4] == "target"@ && s[5] == "dist"@ && s[6] == "build"@ && s[7]
        == "__pycache__"@ && s[8] == ".venv"@ && s[9] == "venv"@);
}

/// Narrowing keeps exactly the entries, among those kept before, that contain
/// what was typed.
pub proof fn law_narrowed_entries(m: Seq<usize>, keys: Seq<Seq<char>>, needle: Seq<char>)
    ensures
        forall|i: usize| #[trigger]
            narrowed(m, keys, needle).contains(i) <==> m.contains(i) && text::contains(
                keys[i as int],
                needle,
            ),
    decreases m.len(),
{
    if m.len() > 0 {
        let t = m.drop_last();
        law_narrowed_entries(t, keys, needle);
        assert(t.push(m.last()) =~= m);
        sorting::lemma_push_holds(t, m.last());
        sorting::lemma_push_holds(narrowed(t, keys, needle), m.last());
    }
}

/// Bytes with a zero among them are no text; any others are.
pub proof fn law_text_has_no_zeros(bytes: Seq<u8>)
    ensures
        text_in(bytes) is Some <==> forall|i: int| 0 <= i < bytes.len() ==> #[trigger] bytes[i] != 0,
        text_in(bytes) is Some ==> text_in(bytes) == Some(text::utf8_lossy(bytes)),
{
    if forall|i: int| 0 <= i < bytes.len() ==> #[trigger] bytes[i] != 0 {
        assert(!bytes.contains(0u8));
    } else {
        let i = choose|i: int| 0 <= i < bytes.len() && #[trigger] bytes[i] == 0;
        assert(bytes.contains(bytes[i]));
    }
}

/// A listing names each of the first 200 entries on a line of its own, a
/// directory with a slash, and says how many more there are.
pub proof fn law_listing(path: Seq<char>, items: Seq<(Seq<char>, bool)>, last: (Seq<char>, bool))
    ensures
        items.len() == 0 ==> listing_text(path, items) == path + "/\n"@,
        items.len() < 200 ==> listing_text(path, items.push(last)) == listing_text(path, items)
            + "\n"@ + last.0 + if last.1 {
            "/"@
        } else {
            Seq::<char>::empty()
        },
        items.len() > 200 ==> listing_text(path, items) == listing_text(path, items.take(200))
            + "\n\u{2026} ("@ + numeral::decimal((items.len() - 200) as nat) + " more)"@,
{
    let all = items.push(last);
    let n = items.len() as int;
    lemma_item_lines(items, all, n);
    assert(items.len() == 0 ==> item_lines(items, 0) =~= Seq::empty());
    if items.len() == 0 {
        assert(listing_text(path, items) =~= path + "/\n"@);
    }
    if n < 200 {
        let end = if last.1 {
            "/"@
        } else {
            Seq::<char>::empty()
        };
        assert(all[n] == last);
        assert(listing_text(path, all) =~= listing_text(path, items) + "\n"@ + last.0 + end);
    }
    if n > 200 {
        let head = items.take(200);
        lemma_item_lines(head, items, 200);
        assert(listing_text(path, items) =~= listing_text(path, head) + "\n\u{2026} ("@
            + numeral::decimal((n - 200) as nat) + " more)"@);
    }
}

proof fn lemma_item_lines(a: Seq<(Seq<char>, bool)>, b: Seq<(Seq<char>, bool)>, n: int)
    requires
        n <= a.len() <= b.len(),
        forall|i: int| 0 <= i < n ==> #[trigger] a[i] == b[i],
    ensures
        item_lines(a, n) == item_lines(b, n),
    decreases n,
{
    if n > 0 {
        lemma_item_lines(a, b, n - 1);
        assert(a[n - 1] == b[n - 1]);
    }
}

/// The preview of a file tells its path first, then its size if it is known,
/// then its text, or that there is none.
pub proof fn law_preview_text(path: Seq<char>, size: Option<u64>, content: Option<Seq<char>>)
    ensures
        path.is_prefix_of(preview_text(path, size, content)),
        content is Some ==> content->0.is_suffix_of(preview_text(path, size, content)),
        content is None ==> ("(binary or unreadable)"@).is_suffix_of(
            preview_text(path, size, content),
        ),
        size is Some ==> preview_text(path, size, content) == path + "\n"@ + numeral::decimal(
            size->0 as nat,
        ) + " bytes\n\n"@ + match content {
            Some(t) => t,
            None => "(binary or unreadable)"@,
        },
        size is None ==> preview_text(path, size, content) == path + "\n\n"@ + match content {
            Some(t) => t,
            None => "(binary or unreadable)"@,
        },
{
}

/// A walk leaves out what is hidden, below the directory it starts in, and the
/// directories that hold nothing of the user's own; it keeps everything else.
pub proof fn law_walk_leaves_out(name: &str, depth: usize, is_dir: bool, r: bool)
    requires
        call_ensures(is_skip, (name, depth, is_dir), r),
    ensures
        depth > 0 && (seq!['.']).is_prefix_of(name@) ==> r,
        is_dir && (name@ == ".git"@ || name@ == ".cache"@ || name@ == "node_modules"@ || name@
            == "target"@ || name@ == "dist"@ || name@ == "build"@ || name@ == "__pycache__"@
            || name@ == ".venv"@ || name@ == "venv"@) ==> r,
        !(seq!['.']).is_prefix_of(name@) && !is_dir ==> !r,
        depth == 0 && !is_dir ==> !r,
        r && !is_dir ==> depth > 0 && (seq!['.']).is_prefix_of(name@),
{
    reveal_strlit(".");
    assert("."@ =~= seq!['.']);
    text::law_places_of_a_text(name@, "."@);
    law_skipped_directories(name@);
}

/// A file is found by its path from the directory on, in lower case.
pub proof fn law_file_keys(path: &str, root: &str, rel: Seq<char>, r: String)
    requires
        call_ensures(entry_key, (path, root), r),
    ensures
        root@.len() > 0 && root@.last() != '/' && path@ == root@.push('/') + rel ==> r@
            == text::lowercase(rel),
        !root@.is_prefix_of(path@) ==> r@ == text::lowercase(path@),
{
    law_paths_below_a_directory(root@, rel, path@);
}

/// Files that a walk found are added at the end, in their order, if the walk is
/// the current one; those of an abandoned walk are not added at all.
pub proof fn law_batches_are_added(
    f: &mut FileIndex,
    batch: Vec<(String, String)>,
    walk: u64,
    r: bool,
    k: int,
)
    requires
        old(f).wf(),
        call_ensures(FileIndex::flush_batch, (f, batch, walk), r),
    ensures
        r <==> walk == old(f).walk(),
        !r ==> final(f).paths() == old(f).paths() && final(f).found_by() == old(f).found_by(),
        r ==> old(f).paths().is_prefix_of(final(f).paths()),
        r ==> final(f).paths().len() == old(f).paths().len() + batch@.len(),
        r && 0 <= k < batch@.len() ==> final(f).paths()[old(f).paths().len() + k] == batch@[k].0@,
        r && 0 <= k < batch@.len() ==> final(f).found_by()[old(f).found_by().len() + k]
            == batch@[k].1@,
{
}

/// What is typed finds exactly the files whose keys contain it in lower case.
pub proof fn law_files_are_found(f: &mut FileIndex, query: &str, r: Vec<usize>, i: usize)
    requires
        old(f).wf(),
        call_ensures(FileIndex::filter, (f, query), r),
    ensures
        r@.contains(i) <==> i < old(f).found_by().len() && text::contains(
            old(f).found_by()[i as int],
            text::lowercase(query@),
        ),
        final(f).paths() == old(f).paths(),
{
    lemma_matching_holds(
        old(f).found_by(),
        text::lowercase(query@),
        old(f).found_by().len() as int,
        i,
    );
}

proof fn lemma_matching_holds(keys: Seq<Seq<char>>, needle: Seq<char>, n: int, i: usize)
    requires
        0 <= n <= keys.len() <= usize::MAX,
    ensures
        source::matching(keys, needle, n).contains(i) <==> i < n && text::contains(
            keys[i as int],
            needle,
        ),
    decreases n,
{
    if n > 0 {
        lemma_matching_holds(keys, needle, n - 1, i);
        sorting::lemma_push_holds(source::matching(keys, needle, n - 1), (n - 1) as usize);
    }
}

/// Activating a directory goes there and stays; activating a file opens it and
/// leaves; activating nothing does nothing.
pub proof fn law_activated_files(
    f: &mut FilesSource,
    ix: usize,
    is_dir: bool,
    r: (ActivateOutcome, FileAction),
)
    requires
        old(f).index.wf(),
        call_ensures(FilesSource::activate, (f, ix, is_dir), r),
    ensures
        ix >= old(f).index.paths().len() ==> r.1 is Nothing && *final(f) == *old(f),
        ix < old(f).index.paths().len() && is_dir ==> {
            &&& r.0 == ActivateOutcome::Refresh
            &&& r.1 is Walk
            &&& final(f).index.directory() == old(f).index.paths()[ix as int]
            &&& final(f).index.paths().len() == 0
            &&& final(f).index.walk() != old(f).index.walk()
        },
        ix < old(f).index.paths().len() && !is_dir ==> {
            &&& r.0 == ActivateOutcome::Quit
            &&& r.1 matches FileAction::Open(p) && p@ == old(f).index.paths()[ix as int]
            &&& *final(f) == *old(f)
        },
{
}

} // verus!
