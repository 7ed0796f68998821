//! File names as text.

use vstd::prelude::*;

use crate::text;

verus! {

/// Path `part` seen from directory `base`: `part` itself if it is absolute or
/// `base` is empty, else the two with one separator between them.
pub open spec fn join(base: Seq<char>, part: Seq<char>) -> Seq<char> {
    if (part.len() > 0 && part[0] == '/') || base.len() == 0 {
        part
    } else if base.last() == '/' {
        base + part
    } else {
        base.push('/') + part
    }
}

/// Joins two paths.
pub fn join_path(base: &str, part: &str) -> (r: String)
    ensures
        r@ == join(base@, part@),
{
    let b = text::chars_of(base);
    let p = text::chars_of(part);
    if (p.len() > 0 && p[0] == '/') || b.len() == 0 {
        return part.to_owned();
    }
    let mut s = base.to_owned();
    if b[b.len() - 1] != '/' {
        s.push('/');
    }
    s.push_str(part);
    s
}

// ---------------------------------------------------------------------------
// Extensions
// ---------------------------------------------------------------------------

/// A path without the separators and the dots for the directory itself at its
/// end.
pub open spec fn trimmed(p: Seq<char>) -> Seq<char>
    decreases p.len(),
{
    if p.len() > 0 && p.last() == '/' {
        trimmed(p.drop_last())
    } else if p.len() > 1 && p.last() == '.' && p[p.len() - 2] == '/' {
        trimmed(p.drop_last())
    } else {
        p
    }
}

/// Where the last name of a path begins.
pub open spec fn name_start(p: Seq<char>) -> int
    decreases p.len(),
{
    if p.len() == 0 || p.last() == '/' {
        p.len() as int
    } else {
        name_start(p.drop_last())
    }
}

/// The last dot among the first `n` characters of a name, but for one at its
/// start.
pub open spec fn last_dot(name: Seq<char>, n: int) -> Option<int>
    decreases n,
{
    if n <= 1 {
        None
    } else if name[n - 1] == '.' {
        Some(n - 1)
    } else {
        last_dot(name, n - 1)
    }
}

/// A path with another extension for its last name, or with one where it had
/// none. A path that ends in no name stays as it is.
pub open spec fn with_extension(p: Seq<char>, extension: Seq<char>) -> Seq<char> {
    let t = trimmed(p);
    let start = name_start(t);
    let name = t.skip(start);
    if name.len() == 0 || name == "."@ || name == ".."@ {
        p
    } else {
        match last_dot(name, name.len() as int) {
            Some(dot) => t.take(start + dot).push('.') + extension,
            None => t.push('.') + extension,
        }
    }
}

/// A path whose last character is that of a name has another path when its
/// extension is replaced by one that ends otherwise.
pub proof fn law_another_extension_makes_another_path(p: Seq<char>, extension: Seq<char>)
    requires
        p.len() > 0,
        p.last() != '/',
        p.last() != '.',
        extension.len() > 0,
        extension.last() != p.last(),
    ensures
        with_extension(p, extension) != p,
        with_extension(p, extension).last() == extension.last(),
{
    lemma_name_start(p);
    let start = name_start(p);
    let name = p.skip(start);
    reveal_with_fuel(name_start, 2);
    lemma_name_start(p.drop_last());
    assert(start < p.len());
    assert(name.last() == p.last());
    reveal_strlit(".");
    reveal_strlit("..");
    assert("."@.last() == '.');
    assert(".."@.last() == '.');
}

proof fn lemma_name_start(p: Seq<char>)
    ensures
        0 <= name_start(p) <= p.len(),
    decreases p.len(),
{
    if p.len() > 0 && p.last() != '/' {
        lemma_name_start(p.drop_last());
    }
}

/// Gives the last name of a path another extension.
pub fn replace_extension(path: &str, extension: &str) -> (r: String)
    ensures
        r@ == with_extension(path@, extension@),
{
    let chars = text::chars_of(path);
    let ghost p = path@;
    let mut end: usize = chars.len();
    proof {
        assert(p.take(end as int) =~= p);
    }
    while end > 0 && (chars[end - 1] == '/' || (end > 1 && chars[end - 1] == '.' && chars[end - 2]
        == '/'))
        invariant
            end <= chars@.len(),
            chars@ == p,
            trimmed(p.take(end as int)) == trimmed(p),
        decreases end,
    {
        proof {
            assert(p.take(end as int).drop_last() =~= p.take(end - 1));
            assert(p.take(end as int).last() == p[end - 1]);
            if end > 1 {
                assert(p.take(end as int)[end - 2] == p[end - 2]);
            }
        }
        end = end - 1;
    }
    let ghost t = p.take(end as int);
    proof {
        if end > 1 {
            assert(t[end - 2] == p[end - 2]);
        }
        assert(trimmed(t) == t);
        assert(trimmed(p) == t);
    }
    let mut start: usize = end;
    proof {
        assert(t.take(start as int) =~= t);
    }
    while start > 0 && chars[start - 1] != '/'
        invariant
            start <= end <= chars@.len(),
            chars@ == p,
            t == p.take(end as int),
            name_start(t.take(start as int)) == name_start(t),
        decreases start,
    {
        proof {
            assert(t.take(start as int).drop_last() =~= t.take(start - 1));
        }
        start = start - 1;
    }
    proof {
        assert(name_start(t) == start);
    }
    let ghost name = t.skip(start as int);
    let len: usize = end - start;
    let unnamed = len == 0 || (len == 1 && chars[start] == '.') || (len == 2 && chars[start] == '.'
        && chars[start + 1] == '.');
    proof {
        reveal_strlit(".");
        reveal_strlit("..");
        if len == 1 && chars@[start as int] == '.' {
            assert(name =~= "."@);
        }
        if len == 2 && chars@[start as int] == '.' && chars@[start + 1] == '.' {
            assert(name =~= ".."@);
        }
        if name == "."@ {
            assert(name[0] == '.');
        }
        if name == ".."@ {
            assert(name[0] == '.' && name[1] == '.');
        }
    }
    if unnamed {
        return path.to_owned();
    }
    let mut dot: usize = len;
    while dot > 1 && chars[start + dot - 1] != '.'
        invariant
            start <= end <= chars@.len(),
            len == end - start,
            dot <= len,
            0 < len,
            0 < dot,
            chars@ == p,
            t == p.take(end as int),
            name == t.skip(start as int),
            last_dot(name, dot as int) == last_dot(name, len as int),
        decreases dot,
    {
        dot = dot - 1;
    }
    let stop: usize = if dot > 1 {
        start + dot - 1
    } else {
        end
    };
    let mut out = String::new();
    let mut i: usize = 0;
    while i < stop
        invariant
            i <= stop <= chars@.len(),
            chars@ == p,
            out@ == p.take(i as int),
        decreases stop - i,
    {
        out.push(chars[i]);
        i = i + 1;
        proof {
            assert(out@ =~= p.take(i as int));
        }
    }
    out.push('.');
    out.push_str(extension);
    proof {
        assert(p.take(stop as int) =~= t.take(stop as int));
        assert(t.take(end as int) =~= t);
    }
    out
}

/// Joining puts one slash between the parts; a part that begins with a slash
/// stands alone.
pub proof fn law_joined_paths(base: Seq<char>, part: Seq<char>)
    ensures
        part.len() > 0 && part[0] == '/' ==> join(base, part) == part,
        base.len() == 0 ==> join(base, part) == part,
        base.len() > 0 && base.last() != '/' && (part.len() == 0 || part[0] != '/') ==> join(
            base,
            part,
        ) == base + seq!['/'] + part,
        base.len() > 0 && base.last() == '/' && (part.len() == 0 || part[0] != '/') ==> join(
            base,
            part,
        ) == base + part,
{
    assert(base.push('/') + part =~= base + seq!['/'] + part);
}

proof fn lemma_last_dot(name: Seq<char>, n: int, k: int)
    requires
        0 < k < n <= name.len(),
        name[k] == '.',
        forall|j: int| k < j < n ==> name[j] != '.',
    ensures
        last_dot(name, n) == Some(k),
    decreases n,
{
    if k < n - 1 {
        lemma_last_dot(name, n - 1, k);
    }
}

proof fn lemma_no_dot(name: Seq<char>, n: int)
    requires
        n <= name.len(),
        forall|j: int| 0 < j < n ==> name[j] != '.',
    ensures
        last_dot(name, n) is None,
    decreases n,
{
    if n > 1 {
        lemma_no_dot(name, n - 1);
    }
}

proof fn lemma_start_of_name(dir: Seq<char>, name: Seq<char>)
    requires
        !name.contains('/'),
        dir.len() == 0 || dir.last() == '/',
    ensures
        name_start(dir + name) == dir.len(),
    decreases name.len(),
{
    let p = dir + name;
    if name.len() == 0 {
        assert(p =~= dir);
    } else {
        let t = name.drop_last();
        assert(!t.contains('/')) by {
            if t.contains('/') {
                let i = choose|i: int| 0 <= i < t.len() && t[i] == '/';
                assert(name[i] == '/');
            }
        }
        lemma_start_of_name(dir, t);
        assert(p.drop_last() =~= dir + t);
        assert(name.contains(name[name.len() - 1]));
        assert(p.last() == name.last());
    }
}

/// The extension is what follows the last dot of the file's name: it is
/// replaced, and a name without one gets it.
pub proof fn law_extension_is_replaced(
    dir: Seq<char>,
    stem: Seq<char>,
    old_ext: Seq<char>,
    extension: Seq<char>,
)
    requires
        dir.len() == 0 || dir.last() == '/',
        stem.len() > 0,
        !stem.contains('/'),
        !stem.contains('.'),
        !old_ext.contains('/'),
        !old_ext.contains('.'),
        old_ext.len() > 0,
    ensures
        with_extension(dir + stem + seq!['.'] + old_ext, extension) == dir + stem + seq!['.']
            + extension,
        with_extension(dir + stem, extension) == dir + stem + seq!['.'] + extension,
{
    let name = stem + seq!['.'] + old_ext;
    let p = dir + name;
    assert(dir + stem + seq!['.'] + old_ext =~= p);
    assert forall|i: int| 0 <= i < stem.len() implies stem[i] != '/' && stem[i] != '.' by {
        assert(stem.contains(stem[i]));
    }
    assert forall|i: int| 0 <= i < old_ext.len() implies old_ext[i] != '/' && old_ext[i]
        != '.' by {
        assert(old_ext.contains(old_ext[i]));
    }
    assert(!name.contains('/')) by {
        if name.contains('/') {
            let i = choose|i: int| 0 <= i < name.len() && name[i] == '/';
            if i < stem.len() {
                assert(name[i] == stem[i]);
            } else if i > stem.len() {
                assert(name[i] == old_ext[i - stem.len() - 1]);
            }
        }
    }
    assert(p.last() == old_ext.last());
    assert(trimmed(p) == p);
    lemma_start_of_name(dir, name);
    assert(p.skip(dir.len() as int) =~= name);
    reveal_strlit(".");
    reveal_strlit("..");
    assert(name[0] == stem[0]);
    assert(name != "."@ && name != ".."@);
    assert(name[stem.len() as int] == '.');
    assert forall|j: int| stem.len() < j < name.len() implies name[j] != '.' by {
        assert(name[j] == old_ext[j - stem.len() - 1]);
    }
    lemma_last_dot(name, name.len() as int, stem.len() as int);
    assert(p.take(dir.len() + stem.len() as int).push('.') + extension =~= dir + stem + seq!['.']
        + extension);
    let q = dir + stem;
    assert(q.last() == stem.last());
    assert(trimmed(q) == q);
    lemma_start_of_name(dir, stem);
    assert(q.skip(dir.len() as int) =~= stem);
    assert(stem != "."@ && stem != ".."@) by {
        assert(stem[0] != '.');
    }
    lemma_no_dot(stem, stem.len() as int);
    assert(q.push('.') + extension =~= dir + stem + seq!['.'] + extension);
}

} // verus!
