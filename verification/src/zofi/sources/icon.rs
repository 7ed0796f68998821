//! Which icon belongs to a window.

use vstd::prelude::*;
use vstd::string::*;

use std::sync::Arc;

use crate::sorting;
use crate::text;
use crate::textmap::TextMap;
use crate::zofi::source::Image;
use crate::zofi::source::ImageFormat;
use crate::zofi::sources::apps::desktop::EntryView;
use crate::zofi::sources::apps::DesktopEntry;

verus! {

// ---------------------------------------------------------------------------
// Names
// ---------------------------------------------------------------------------

/// What follows the last `c` in `s`; all of `s` where there is none.
pub open spec fn after_last(s: Seq<char>, c: char) -> Seq<char>
    decreases s.len(),
{
    if s.len() == 0 || s.last() == c {
        Seq::empty()
    } else {
        after_last(s.drop_last(), c).push(s.last())
    }
}

/// What precedes the first `c` in `s`; all of `s` where there is none.
pub open spec fn before_first(s: Seq<char>, c: char) -> Seq<char> {
    match text::index_of_char(s, c) {
        Some(i) => s.take(i),
        None => s,
    }
}

/// `names` with `name` at the end, unless it is empty or already there.
pub open spec fn with_name(names: Seq<Seq<char>>, name: Seq<char>) -> Seq<Seq<char>> {
    if name.len() == 0 || names.contains(name) {
        names
    } else {
        names.push(name)
    }
}

/// The application id itself, in lower case, and the last part of a dotted id.
pub open spec fn base_names(app_id: Seq<char>) -> Seq<Seq<char>> {
    let plain = with_name(
        with_name(Seq::empty(), app_id),
        text::lowercase(app_id),
    );
    let last = after_last(app_id, '.');
    if last == app_id {
        plain
    } else {
        with_name(with_name(plain, last), text::lowercase(last))
    }
}

/// `names` with what precedes the first hyphen of each of the first `n` of
/// `bases`.
pub open spec fn with_stems(names: Seq<Seq<char>>, bases: Seq<Seq<char>>, n: int) -> Seq<
    Seq<char>,
>
    decreases n,
{
    if n <= 0 {
        names
    } else {
        let so_far = with_stems(names, bases, n - 1);
        let stem = before_first(bases[n - 1], '-');
        if stem == bases[n - 1] {
            so_far
        } else {
            with_name(so_far, stem)
        }
    }
}

/// The icon names to try for an application id, in order.
pub open spec fn candidates(app_id: Seq<char>) -> Seq<Seq<char>> {
    let bases = base_names(app_id);
    with_stems(bases, bases, bases.len() as int)
}

fn last_part(s: &Vec<char>, c: char) -> (r: String)
    ensures
        r@ == after_last(s@, c),
{
    let mut a: usize = s.len();
    proof {
        assert(s@.take(a as int) == s@);
        assert(s@.skip(a as int) == Seq::<char>::empty());
        assert(after_last(s@.take(a as int), c) + s@.skip(a as int) == after_last(s@, c));
    }
    while a > 0 && s[a - 1] != c
        invariant
            a <= s@.len(),
            after_last(s@.take(a as int), c) + s@.skip(a as int) == after_last(s@, c),
        decreases a,
    {
        proof {
            let t = s@.take(a as int);
            assert(t.last() == s@[a - 1]);
            assert(t.drop_last() == s@.take(a - 1));
            assert(after_last(t, c) == after_last(s@.take(a - 1), c).push(s@[a - 1]));
            assert(after_last(s@.take(a - 1), c) + s@.skip(a - 1) =~= after_last(t, c) + s@.skip(
                a as int,
            ));
        }
        a = a - 1;
    }
    proof {
        if a > 0 {
            assert(s@.take(a as int).last() == c);
        }
        assert(after_last(s@.take(a as int), c) == Seq::<char>::empty());
        assert(s@.skip(a as int) =~= after_last(s@, c));
        assert(s@.subrange(a as int, s@.len() as int) == s@.skip(a as int));
    }
    text::string_of(vstd::slice::slice_subrange(s.as_slice(), a, s.len()))
}

fn first_part(s: &Vec<char>, c: char) -> (r: String)
    ensures
        r@ == before_first(s@, c),
{
    match text::position_of(s.as_slice(), c) {
        Some(i) => {
            proof {
                assert(s@.subrange(0, i as int) == s@.take(i as int));
            }
            text::string_of(vstd::slice::slice_subrange(s.as_slice(), 0, i))
        },
        None => text::string_of(s.as_slice()),
    }
}

fn push_name(out: &mut Vec<String>, name: String)
    ensures
        text::views(final(out)@) == with_name(text::views(old(out)@), name@),
{
    let ghost had = text::views(out@);
    if name.as_str().is_empty() {
        return;
    }
    let mut i: usize = 0;
    while i < out.len()
        invariant
            i <= out@.len(),
            had == text::views(out@),
            forall|k: int| 0 <= k < i ==> #[trigger] had[k] != name@,
            *out == *old(out),
        decreases out.len() - i,
    {
        let same = text::str_eq(out[i].as_str(), name.as_str());
        proof {
            assert(had[i as int] == out@[i as int]@);
        }
        if same {
            return;
        }
        i = i + 1;
    }
    out.push(name);
    proof {
        assert(text::views(out@) =~= had.push(name@));
    }
}

/// The icon names to try for an application id.
pub fn name_candidates(app_id: &str) -> (r: Vec<String>)
    ensures
        text::views(r@) == candidates(app_id@),
{
    let mut out: Vec<String> = Vec::new();
    proof {
        assert(text::views(out@) =~= Seq::<Seq<char>>::empty());
    }
    push_name(&mut out, app_id.to_owned());
    push_name(&mut out, text::to_lowercase(app_id));
    let last = last_part(&text::chars_of(app_id), '.');
    if !text::str_eq(last.as_str(), app_id) {
        push_name(&mut out, last.clone());
        push_name(&mut out, text::to_lowercase(last.as_str()));
    }
    let ghost bases = base_names(app_id@);
    let n: usize = out.len();
    let mut i: usize = 0;
    proof {
        assert(text::views(out@) == bases);
    }
    while i < n
        invariant
            bases == base_names(app_id@),
            n == bases.len(),
            i <= n,
            n <= out@.len(),
            text::views(out@) == with_stems(bases, bases, i as int),
            forall|k: int| 0 <= k < n ==> #[trigger] text::views(out@)[k] == bases[k],
        decreases n - i,
    {
        let ghost had = text::views(out@);
        let base = out[i].clone();
        proof {
            assert(had[i as int] == bases[i as int]);
        }
        let stem = first_part(&text::chars_of(base.as_str()), '-');
        if !text::str_eq(stem.as_str(), base.as_str()) {
            push_name(&mut out, stem);
        }
        proof {
            assert(text::views(out@) == with_stems(bases, bases, i + 1));
            assert forall|k: int| 0 <= k < n implies #[trigger] text::views(out@)[k]
                == bases[k] by {
                assert(had[k] == bases[k]);
            }
        }
        i = i + 1;
    }
    out
}

/// How to look for an icon: a path names the file, anything else is tried
/// under several names.
#[derive(Debug)]
pub enum IconQuery {
    File(String),
    Names(Vec<String>),
}

/// How to look for the icon called `name`.
pub fn icon_query(name: &str) -> (r: IconQuery)
    ensures
        if text::starts_with(name@, "/"@) {
            r matches IconQuery::File(p) && p@ == name@
        } else {
            r matches IconQuery::Names(v) && text::views(v@) == candidates(name@)
        },
{
    if text::str_starts_with(name, "/") {
        IconQuery::File(name.to_owned())
    } else {
        IconQuery::Names(name_candidates(name))
    }
}

/// The format of an image file, by its extension.
pub fn format_from_ext(ext: Option<&str>) -> (r: Option<ImageFormat>)
    ensures
        r == (match text::opt_str(ext) {
            Some(e) => if e == "svg"@ || e == "svgz"@ {
                Some(ImageFormat::Svg)
            } else if e == "png"@ {
                Some(ImageFormat::Png)
            } else if e == "jpg"@ || e == "jpeg"@ {
                Some(ImageFormat::Jpeg)
            } else {
                None
            },
            None => None,
        }),
{
    match ext {
        Some(e) => if text::str_eq(e, "svg") || text::str_eq(e, "svgz") {
            Some(ImageFormat::Svg)
        } else if text::str_eq(e, "png") {
            Some(ImageFormat::Png)
        } else if text::str_eq(e, "jpg") || text::str_eq(e, "jpeg") {
            Some(ImageFormat::Jpeg)
        } else {
            None
        },
        None => None,
    }
}

// ---------------------------------------------------------------------------
// Icons of applications
// ---------------------------------------------------------------------------

/// The names under which an application's icon is found: the application's
/// name, its icon's, its file's and its windows' class, all in lower case.
pub open spec fn keys_of(e: EntryView) -> Seq<Seq<char>> {
    let icon_key = match e.icon_name {
        Some(n) => seq![text::lowercase(n)],
        None => Seq::<Seq<char>>::empty(),
    };
    let stem_key = if e.file_stem.len() > 0 {
        seq![text::lowercase(e.file_stem)]
    } else {
        Seq::<Seq<char>>::empty()
    };
    let class_key = match e.startup_wm_class {
        Some(c) => seq![text::lowercase(c)],
        None => Seq::<Seq<char>>::empty(),
    };
    seq![text::lowercase(e.name)] + icon_key + stem_key + class_key
}

/// `index` with `icon` under each of the first `n` of `keys` that is not empty
/// and not taken.
pub open spec fn with_keys(
    index: Map<Seq<char>, Arc<Image>>,
    icon: Arc<Image>,
    keys: Seq<Seq<char>>,
    n: int,
) -> Map<Seq<char>, Arc<Image>>
    decreases n,
{
    if n <= 0 {
        index
    } else {
        let so_far = with_keys(index, icon, keys, n - 1);
        if keys[n - 1].len() == 0 || so_far.contains_key(keys[n - 1]) {
            so_far
        } else {
            so_far.insert(keys[n - 1], icon)
        }
    }
}

/// The icons of applications by name; of several with the same name the first
/// counts, and those without an image give nothing.
pub open spec fn icon_index(entries: Seq<EntryView>) -> Map<Seq<char>, Arc<Image>>
    decreases entries.len(),
{
    if entries.len() == 0 {
        Map::empty()
    } else {
        let so_far = icon_index(entries.drop_last());
        let e = entries.last();
        match e.icon_data {
            Some(icon) => with_keys(so_far, icon, keys_of(e), keys_of(e).len() as int),
            None => so_far,
        }
    }
}

fn add_key(index: &mut TextMap<Arc<Image>>, icon: &Arc<Image>, key: String)
    requires
        old(index).wf(),
    ensures
        final(index).wf(),
        final(index)@ == (if key@.len() == 0 || old(index)@.contains_key(key@) {
            old(index)@
        } else {
            old(index)@.insert(key@, *icon)
        }),
{
    if !key.as_str().is_empty() && !index.contains_key(key.as_str()) {
        index.insert(key, Arc::clone(icon));
    }
}

/// Puts the icons of applications under every name that a window may report.
pub fn index_apps_by_app_id(entries: &[DesktopEntry]) -> (r: TextMap<Arc<Image>>)
    ensures
        r.wf(),
        r@ == icon_index(sorting::views(entries@)),
{
    let ghost all = sorting::views(entries@);
    let mut index: TextMap<Arc<Image>> = TextMap::new();
    let mut i: usize = 0;
    proof {
        assert(all.take(0) == Seq::<EntryView>::empty());
    }
    while i < entries.len()
        invariant
            all == sorting::views(entries@),
            i <= entries@.len(),
            index.wf(),
            index@ == icon_index(all.take(i as int)),
        decreases entries.len() - i,
    {
        let e = &entries[i];
        proof {
            assert(all.take(i + 1).drop_last() == all.take(i as int));
            assert(all.take(i + 1).last() == e@);
        }
        if let Some(icon) = &e.icon_data {
            let mut keys: Vec<String> = Vec::new();
            keys.push(text::to_lowercase(e.name.as_str()));
            if let Some(n) = &e.icon_name {
                keys.push(text::to_lowercase(n.as_str()));
            }
            if !e.file_stem.as_str().is_empty() {
                keys.push(text::to_lowercase(e.file_stem.as_str()));
            }
            if let Some(c) = &e.startup_wm_class {
                keys.push(text::to_lowercase(c.as_str()));
            }
            let ghost names = keys_of(e@);
            let ghost before = index@;
            proof {
                assert(text::views(keys@) =~= names);
            }
            let mut k: usize = 0;
            while k < keys.len()
                invariant
                    k <= keys@.len(),
                    text::views(keys@) == names,
                    index.wf(),
                    index@ == with_keys(before, *icon, names, k as int),
                decreases keys.len() - k,
            {
                proof {
                    assert(names[k as int] == keys@[k as int]@);
                }
                add_key(&mut index, icon, keys[k].clone());
                k = k + 1;
            }
        }
        i = i + 1;
    }
    proof {
        assert(all.take(i as int) == all);
    }
    index
}

/// Something that finds an icon for an application id. It may look at files,
/// so nothing is promised of what it finds.
pub trait IconResolver {
    /// The icon for an application id.
    fn resolve(&self, app_id: &str) -> Option<Arc<Image>>;
}

/// A resolver behind a pointer is that resolver.
impl<R: IconResolver + ?Sized> IconResolver for Box<R> {
    fn resolve(&self, app_id: &str) -> (r: Option<Arc<Image>>)
        ensures
            call_ensures(R::resolve, (&**self, app_id), r),
    {
        (**self).resolve(app_id)
    }
}

/// The icon of the first name that is in the index.
pub open spec fn first_indexed(
    index: Map<Seq<char>, Arc<Image>>,
    names: Seq<Seq<char>>,
) -> Option<Arc<Image>>
    decreases names.len(),
{
    if names.len() == 0 {
        None
    } else if index.contains_key(text::lowercase(names[0])) {
        Some(index[text::lowercase(names[0])])
    } else {
        first_indexed(index, names.skip(1))
    }
}

/// Looks for an icon among those of the installed applications.
pub fn find_indexed(index: &TextMap<Arc<Image>>, app_id: &str) -> (r: Option<Arc<Image>>)
    requires
        index.wf(),
    ensures
        r == first_indexed(index@, candidates(app_id@)),
{
    let names = name_candidates(app_id);
    let ghost all = text::views(names@);
    let mut i: usize = 0;
    proof {
        assert(all.skip(0) == all);
    }
    while i < names.len()
        invariant
            index.wf(),
            all == text::views(names@),
            all == candidates(app_id@),
            i <= names@.len(),
            first_indexed(index@, all) == first_indexed(index@, all.skip(i as int)),
        decreases names.len() - i,
    {
        proof {
            assert(all.skip(i as int)[0] == names@[i as int]@);
            assert(all.skip(i as int).skip(1) == all.skip(i + 1));
        }
        let key = text::to_lowercase(names[i].as_str());
        if let Some(icon) = index.get(key.as_str()) {
            return Some(Arc::clone(icon));
        }
        i = i + 1;
    }
    None
}

/// Prefers the icons of installed applications to another way of finding
/// them.
pub struct ComposedResolver<F: IconResolver> {
    index: TextMap<Arc<Image>>,
    fallback: F,
}

impl<F: IconResolver> ComposedResolver<F> {
    /// The icons of installed applications.
    pub closed spec fn indexed(&self) -> Map<Seq<char>, Arc<Image>> {
        self.index@
    }

    /// The other way of finding icons.
    pub closed spec fn other(&self) -> F {
        self.fallback
    }

    /// The index is in order.
    pub closed spec fn wf(&self) -> bool {
        self.index.wf()
    }

    /// Finds the icon for an application id.
    pub fn resolve(&self, app_id: &str) -> (r: Option<Arc<Image>>)
        requires
            self.wf(),
        ensures
            match first_indexed(self.indexed(), candidates(app_id@)) {
                Some(icon) => r == Some(icon),
                None => call_ensures(F::resolve, (&self.other(), app_id), r),
            },
    {
        match find_indexed(&self.index, app_id) {
            Some(icon) => Some(icon),
            None => self.fallback.resolve(app_id),
        }
    }
}

/// Composes the two ways of finding icons.
pub fn compose_resolver<F: IconResolver>(index: TextMap<Arc<Image>>, fallback: F) -> (r:
    ComposedResolver<F>)
    requires
        index.wf(),
    ensures
        r.wf(),
        r.indexed() == index@,
        r.other() == fallback,
{
    ComposedResolver { index, fallback }
}

/// An application's own name finds its icon, unless another application took
/// the name before.
pub proof fn law_first_application_keeps_its_name(entries: Seq<EntryView>, key: Seq<char>)
    requires
        entries.len() > 0,
        icon_index(entries.drop_last()).contains_key(key),
    ensures
        icon_index(entries).contains_key(key),
        icon_index(entries)[key] == icon_index(entries.drop_last())[key],
{
    let so_far = icon_index(entries.drop_last());
    let e = entries.last();
    if let Some(icon) = e.icon_data {
        lemma_with_keys_keeps(so_far, icon, keys_of(e), keys_of(e).len() as int, key);
    }
}

proof fn lemma_with_keys_keeps(
    index: Map<Seq<char>, Arc<Image>>,
    icon: Arc<Image>,
    keys: Seq<Seq<char>>,
    n: int,
    key: Seq<char>,
)
    requires
        index.contains_key(key),
        n <= keys.len(),
    ensures
        with_keys(index, icon, keys, n).contains_key(key),
        with_keys(index, icon, keys, n)[key] == index[key],
    decreases n,
{
    if n > 0 {
        lemma_with_keys_keeps(index, icon, keys, n - 1, key);
    }
}

/// What stands after the last separator, and before the first; all of the text
/// if there is none.
pub proof fn law_parts_of_a_name(a: Seq<char>, c: char, b: Seq<char>)
    requires
        !b.contains(c),
    ensures
        after_last(b, c) == b,
        after_last(a.push(c) + b, c) == b,
        before_first(b, c) == b,
        before_first(b.push(c) + a, c) == b,
    decreases b.len(),
{
    text::law_parted_at_the_first(b, c, a);
    text::lemma_index_of_char(b, c);
    let s = b.push(c) + a;
    assert forall|k: int| 0 <= k < b.len() implies s[k] != c by {
        assert(b[k] == s[k]);
        assert(b.contains(b[k]));
    }
    text::lemma_index_of_char_is(s, c, b.len() as int);
    assert(s.take(b.len() as int) =~= b);
    let t = a.push(c) + b;
    if b.len() == 0 {
        assert(t =~= a.push(c));
        assert(after_last(t, c) =~= b);
        assert(after_last(b, c) =~= b);
    } else {
        let d = b.drop_last();
        assert(!d.contains(c)) by {
            if d.contains(c) {
                let i = choose|i: int| 0 <= i < d.len() && d[i] == c;
                assert(b[i] == c);
            }
        }
        law_parts_of_a_name(a, c, d);
        assert(b.contains(b[b.len() - 1]));
        assert(t.drop_last() =~= a.push(c) + d);
        assert(t.last() == b.last());
        assert(d.push(b.last()) =~= b);
    }
}

proof fn lemma_with_name(names: Seq<Seq<char>>, name: Seq<char>)
    ensures
        forall|x: Seq<char>| #[trigger]
            with_name(names, name).contains(x) <==> names.contains(x) || x == name && name.len() > 0,
        names.no_duplicates() ==> with_name(names, name).no_duplicates(),
        names.is_prefix_of(with_name(names, name)),
{
    sorting::lemma_push_holds(names, name);
}

proof fn lemma_with_stems(names: Seq<Seq<char>>, bases: Seq<Seq<char>>, n: int)
    requires
        0 <= n <= bases.len(),
    ensures
        forall|x: Seq<char>| #[trigger]
            with_stems(names, bases, n).contains(x) ==> names.contains(x) || exists|k: int|
                0 <= k < n && x == before_first(#[trigger] bases[k], '-') && x.len() > 0,
        forall|x: Seq<char>| #[trigger]
            names.contains(x) ==> with_stems(names, bases, n).contains(x),
        forall|k: int|
            0 <= k < n && before_first(#[trigger] bases[k], '-').len() > 0 && before_first(
                bases[k],
                '-',
            ) != bases[k] ==> with_stems(names, bases, n).contains(before_first(bases[k], '-')),
        names.no_duplicates() ==> with_stems(names, bases, n).no_duplicates(),
        names.is_prefix_of(with_stems(names, bases, n)),
    decreases n,
{
    if n > 0 {
        lemma_with_stems(names, bases, n - 1);
        let so_far = with_stems(names, bases, n - 1);
        let stem = before_first(bases[n - 1], '-');
        lemma_with_name(so_far, stem);
    }
}

/// An icon is looked for by the application's id as it is, in lower case, by
/// what follows its last dot, and by each of these up to the first dash; the id
/// itself comes first, no name is empty, none comes twice, and no others come.
pub proof fn law_icon_candidates(app_id: Seq<char>)
    requires
        app_id.len() > 0,
    ensures
        ({
            let c = candidates(app_id);
            let last = after_last(app_id, '.');
            &&& c.len() > 0 && c[0] == app_id
            &&& c.no_duplicates()
            &&& text::lowercase(app_id).len() > 0 ==> c.contains(text::lowercase(app_id))
            &&& last.len() > 0 ==> c.contains(last)
            &&& last.len() > 0 && last != app_id && text::lowercase(last).len() > 0 ==> c.contains(
                text::lowercase(last),
            )
            &&& before_first(app_id, '-').len() > 0 ==> c.contains(before_first(app_id, '-'))
            &&& last.len() > 0 && before_first(last, '-').len() > 0 ==> c.contains(
                before_first(last, '-'),
            )
            &&& forall|x: Seq<char>| #[trigger]
                c.contains(x) ==> x.len() > 0 && {
                    ||| x == app_id
                    ||| x == text::lowercase(app_id)
                    ||| x == last
                    ||| x == text::lowercase(last)
                    ||| x == before_first(app_id, '-')
                    ||| x == before_first(text::lowercase(app_id), '-')
                    ||| x == before_first(last, '-')
                    ||| x == before_first(text::lowercase(last), '-')
                }
        }),
{
    let none = Seq::<Seq<char>>::empty();
    let low = text::lowercase(app_id);
    let last = after_last(app_id, '.');
    let one = with_name(none, app_id);
    let plain = with_name(one, low);
    let three = with_name(plain, last);
    lemma_with_name(none, app_id);
    lemma_with_name(one, low);
    lemma_with_name(plain, last);
    lemma_with_name(three, text::lowercase(last));
    let bases = base_names(app_id);
    lemma_with_stems(bases, bases, bases.len() as int);
    let c = candidates(app_id);
    assert(one[0] == app_id);
    assert(plain[0] == app_id);
    assert(three[0] == app_id);
    assert(bases[0] == app_id);
    assert(bases.contains(bases[0]));
    assert(before_first(bases[0], '-').len() > 0 ==> c.contains(before_first(app_id, '-')));
    if last.len() > 0 {
        assert(bases.contains(last));
        let k = choose|k: int| 0 <= k < bases.len() && bases[k] == last;
        assert(before_first(bases[k], '-').len() > 0 ==> c.contains(before_first(last, '-')));
    }
    assert(c[0] == app_id);
    assert(bases.no_duplicates());
    if text::lowercase(app_id).len() > 0 {
        assert(plain.contains(low));
        assert(bases.contains(low));
        assert(c.contains(low));
    }
    if last.len() > 0 && last != app_id && text::lowercase(last).len() > 0 {
        assert(bases.contains(text::lowercase(last)));
    }
    assert forall|x: Seq<char>| #[trigger] c.contains(x) implies x.len() > 0 && {
        ||| x == app_id
        ||| x == text::lowercase(app_id)
        ||| x == last
        ||| x == text::lowercase(last)
        ||| x == before_first(app_id, '-')
        ||| x == before_first(text::lowercase(app_id), '-')
        ||| x == before_first(last, '-')
        ||| x == before_first(text::lowercase(last), '-')
    } by {
        if !bases.contains(x) {
            let k = choose|k: int|
                0 <= k < bases.len() && x == before_first(#[trigger] bases[k], '-') && x.len() > 0;
            assert(bases.contains(bases[k]));
        }
    }
}

/// The icon found is that of the first name, in lower case, that has one.
pub proof fn law_first_name_with_an_icon(
    index: Map<Seq<char>, Arc<Image>>,
    names: Seq<Seq<char>>,
    k: int,
)
    ensures
        0 <= k < names.len() && index.contains_key(text::lowercase(names[k])) && (forall|j: int|
            0 <= j < k ==> !index.contains_key(text::lowercase(#[trigger] names[j])))
            ==> first_indexed(index, names) == Some(index[text::lowercase(names[k])]),
        (forall|j: int|
            0 <= j < names.len() ==> !index.contains_key(text::lowercase(#[trigger] names[j])))
            ==> first_indexed(index, names) is None,
    decreases names.len(),
{
    if names.len() > 0 && !index.contains_key(text::lowercase(names[0])) {
        let t = names.skip(1);
        law_first_name_with_an_icon(index, t, k - 1);
        assert forall|j: int| 0 <= j < t.len() implies #[trigger] t[j] == names[j + 1] by {}
    }
}

/// An application with an icon is found by its name, its icon's name, its
/// file's name and its window class, in lower case.
pub proof fn law_application_keys(e: EntryView)
    ensures
        keys_of(e).contains(text::lowercase(e.name)),
        e.icon_name is Some ==> keys_of(e).contains(text::lowercase(e.icon_name->0)),
        e.file_stem.len() > 0 ==> keys_of(e).contains(text::lowercase(e.file_stem)),
        e.startup_wm_class is Some ==> keys_of(e).contains(text::lowercase(e.startup_wm_class->0)),
{
    let a = seq![text::lowercase(e.name)];
    let b = match e.icon_name {
        Some(n) => seq![text::lowercase(n)],
        None => Seq::<Seq<char>>::empty(),
    };
    let c = if e.file_stem.len() > 0 {
        seq![text::lowercase(e.file_stem)]
    } else {
        Seq::<Seq<char>>::empty()
    };
    let d = match e.startup_wm_class {
        Some(x) => seq![text::lowercase(x)],
        None => Seq::<Seq<char>>::empty(),
    };
    sorting::lemma_add_holds(a + b + c, d);
    sorting::lemma_add_holds(a + b, c);
    sorting::lemma_add_holds(a, b);
    assert(a[0] == text::lowercase(e.name));
    if e.icon_name is Some {
        assert(b[0] == text::lowercase(e.icon_name->0));
    }
    if e.file_stem.len() > 0 {
        assert(c[0] == text::lowercase(e.file_stem));
    }
    if e.startup_wm_class is Some {
        assert(d[0] == text::lowercase(e.startup_wm_class->0));
    }
}

/// Every application with an icon can be found by each of its names, under that
/// name by it or by an application listed before it.
pub proof fn law_every_icon_is_indexed(entries: Seq<EntryView>, k: int, key: Seq<char>)
    requires
        0 <= k < entries.len(),
        entries[k].icon_data is Some,
        keys_of(entries[k]).contains(key),
        key.len() > 0,
    ensures
        icon_index(entries).contains_key(key),
        (forall|j: int|
            0 <= j < k && (#[trigger] entries[j]).icon_data is Some ==> !keys_of(
                entries[j],
            ).contains(key)) ==> icon_index(entries)[key] == entries[k].icon_data->0,
    decreases entries.len(),
{
    let t = entries.drop_last();
    let n = entries.len() - 1;
    let e = entries.last();
    if k < n {
        assert(t[k] == entries[k]);
        law_every_icon_is_indexed(t, k, key);
        assert forall|j: int| 0 <= j < k implies #[trigger] t[j] == entries[j] by {}
        if let Some(icon) = e.icon_data {
            lemma_keys_kept(icon_index(t), icon, keys_of(e), keys_of(e).len() as int, key);
        }
    } else {
        let keys = keys_of(e);
        lemma_keys_added(icon_index(t), e.icon_data->0, keys, keys.len() as int, key);
        if forall|j: int|
            0 <= j < k && (#[trigger] entries[j]).icon_data is Some ==> !keys_of(
                entries[j],
            ).contains(key) {
            assert forall|j: int|
                0 <= j < t.len() && (#[trigger] t[j]).icon_data is Some implies !keys_of(
                t[j],
            ).contains(key) by {
                assert(t[j] == entries[j]);
            }
            lemma_not_indexed(t, key);
        }
    }
}

proof fn lemma_keys_kept(
    index: Map<Seq<char>, Arc<Image>>,
    icon: Arc<Image>,
    keys: Seq<Seq<char>>,
    n: int,
    key: Seq<char>,
)
    requires
        index.contains_key(key),
        n <= keys.len(),
    ensures
        with_keys(index, icon, keys, n).contains_key(key),
        with_keys(index, icon, keys, n)[key] == index[key],
    decreases n,
{
    if n > 0 {
        lemma_keys_kept(index, icon, keys, n - 1, key);
    }
}

proof fn lemma_keys_added(
    index: Map<Seq<char>, Arc<Image>>,
    icon: Arc<Image>,
    keys: Seq<Seq<char>>,
    n: int,
    key: Seq<char>,
)
    requires
        0 <= n <= keys.len(),
        key.len() > 0,
    ensures
        keys.take(n).contains(key) ==> with_keys(index, icon, keys, n).contains_key(key),
        keys.contains(key) && n == keys.len() ==> with_keys(index, icon, keys, n).contains_key(key),
        !index.contains_key(key) && with_keys(index, icon, keys, n).contains_key(key) ==> with_keys(
            index,
            icon,
            keys,
            n,
        )[key] == icon,
    decreases n,
{
    if n > 0 {
        lemma_keys_added(index, icon, keys, n - 1, key);
        assert(keys.take(n) =~= keys.take(n - 1).push(keys[n - 1]));
        sorting::lemma_push_holds(keys.take(n - 1), keys[n - 1]);
    }
    if n == keys.len() {
        assert(keys.take(n) =~= keys);
    }
}

proof fn lemma_not_indexed(entries: Seq<EntryView>, key: Seq<char>)
    requires
        forall|j: int|
            0 <= j < entries.len() && (#[trigger] entries[j]).icon_data is Some ==> !keys_of(
                entries[j],
            ).contains(key),
    ensures
        !icon_index(entries).contains_key(key),
    decreases entries.len(),
{
    if entries.len() > 0 {
        let t = entries.drop_last();
        let n = entries.len() - 1;
        assert forall|j: int|
            0 <= j < t.len() && (#[trigger] t[j]).icon_data is Some implies !keys_of(
            t[j],
        ).contains(key) by {
            assert(t[j] == entries[j]);
        }
        lemma_not_indexed(t, key);
        if let Some(icon) = entries[n].icon_data {
            lemma_no_key(icon_index(t), icon, keys_of(entries[n]), keys_of(entries[n]).len() as int, key);
        }
    }
}

proof fn lemma_no_key(
    index: Map<Seq<char>, Arc<Image>>,
    icon: Arc<Image>,
    keys: Seq<Seq<char>>,
    n: int,
    key: Seq<char>,
)
    requires
        !index.contains_key(key),
        !keys.contains(key),
        n <= keys.len(),
    ensures
        !with_keys(index, icon, keys, n).contains_key(key),
    decreases n,
{
    if n > 0 {
        lemma_no_key(index, icon, keys, n - 1, key);
        assert(keys.contains(keys[n - 1]));
    }
}

} // verus!
