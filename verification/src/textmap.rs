//! An ordered map with text keys.

use vstd::prelude::*;

use crate::sorting;
use crate::text;

verus! {

/// Values filed under text keys, in the order of the keys.
pub struct TextMap<V> {
    entries: Vec<(String, V)>,
}

/// Whether key `a` comes before key `b`.
pub open spec fn before(a: Seq<char>, b: Seq<char>) -> bool {
    sorting::text_le(a, b) && a != b
}

/// Whether the keys are in ascending order, each once.
pub open spec fn ascending(keys: Seq<Seq<char>>) -> bool {
    forall|i: int, j: int| 0 <= i < j < keys.len() ==> before(#[trigger] keys[i], #[trigger] keys[j])
}

spec fn keys_of<V>(s: Seq<(String, V)>) -> Seq<Seq<char>> {
    s.map_values(|e: (String, V)| e.0@)
}

spec fn position<V>(s: Seq<(String, V)>, key: Seq<char>) -> int {
    choose|i: int| 0 <= i < s.len() && (#[trigger] s[i]).0@ == key
}

spec fn map_of<V>(s: Seq<(String, V)>) -> Map<Seq<char>, V> {
    Map::new(
        |key: Seq<char>| exists|i: int| 0 <= i < s.len() && (#[trigger] s[i]).0@ == key,
        |key: Seq<char>| s[position(s, key)].1,
    )
}

proof fn lemma_entry<V>(s: Seq<(String, V)>, i: int)
    requires
        ascending(keys_of(s)),
        0 <= i < s.len(),
    ensures
        map_of(s).contains_key(s[i].0@),
        map_of(s)[s[i].0@] == s[i].1,
{
    let key = s[i].0@;
    let p = position(s, key);
    assert(0 <= p < s.len() && s[p].0@ == key);
    if p < i {
        assert(before(keys_of(s)[p], keys_of(s)[i]));
    } else if i < p {
        assert(before(keys_of(s)[i], keys_of(s)[p]));
    }
}

proof fn lemma_before_transitive(a: Seq<char>, b: Seq<char>, c: Seq<char>)
    requires
        sorting::text_le(a, b),
        before(b, c),
    ensures
        before(a, c),
{
    sorting::lemma_text_le_transitive(a, b, c);
    if a == c {
        sorting::lemma_text_le_antisymmetric(a, b);
    }
}

proof fn lemma_insert<V>(s: Seq<(String, V)>, i: int, e: (String, V))
    requires
        ascending(keys_of(s)),
        0 <= i <= s.len(),
        i > 0 ==> before(s[i - 1].0@, e.0@),
        i < s.len() ==> before(e.0@, s[i].0@),
    ensures
        ascending(keys_of(s.insert(i, e))),
        map_of(s.insert(i, e)) == map_of(s).insert(e.0@, e.1),
{
    let t = s.insert(i, e);
    let ks = keys_of(s);
    let kt = keys_of(t);
    assert forall|a: int, b: int| 0 <= a < b < kt.len() implies before(
        #[trigger] kt[a],
        #[trigger] kt[b],
    ) by {
        if b < i {
            assert(kt[a] == ks[a] && kt[b] == ks[b]);
        } else if a > i {
            assert(kt[a] == ks[a - 1] && kt[b] == ks[b - 1]);
        } else if a < i && b > i {
            assert(kt[a] == ks[a] && kt[b] == ks[b - 1]);
        } else if b == i {
            assert(kt[a] == ks[a]);
            if a < i - 1 {
                assert(before(ks[a], ks[i - 1]));
                lemma_before_transitive(ks[a], ks[i - 1], e.0@);
            }
        } else {
            assert(kt[b] == ks[b - 1]);
            if b - 1 > i {
                assert(before(ks[i], ks[b - 1]));
                lemma_before_transitive(e.0@, ks[i], ks[b - 1]);
            }
        }
    }
    let m = map_of(s).insert(e.0@, e.1);
    assert forall|k: Seq<char>| map_of(t).contains_key(k) <==> m.contains_key(k) by {
        if map_of(t).contains_key(k) {
            let p = position(t, k);
            if p < i {
                assert(s[p].0@ == k);
            } else if p > i {
                assert(s[p - 1].0@ == k);
            }
        }
        if m.contains_key(k) {
            if k == e.0@ {
                assert(t[i].0@ == k);
            } else {
                let p = position(s, k);
                if p < i {
                    assert(t[p].0@ == k);
                } else {
                    assert(t[p + 1].0@ == k);
                }
            }
        }
    }
    assert forall|k: Seq<char>| map_of(t).contains_key(k) implies map_of(t)[k] == m[k] by {
        let p = position(t, k);
        assert(t[p].0@ == k);
        lemma_entry(t, p);
        if p < i {
            lemma_entry(s, p);
            assert(before(kt[p], kt[i]));
        } else if p > i {
            lemma_entry(s, p - 1);
            assert(before(kt[i], kt[p]));
        }
    }
    assert(map_of(t) =~= m);
}

proof fn lemma_update<V>(s: Seq<(String, V)>, i: int, e: (String, V))
    requires
        ascending(keys_of(s)),
        0 <= i < s.len(),
        e.0@ == s[i].0@,
    ensures
        ascending(keys_of(s.update(i, e))),
        map_of(s.update(i, e)) == map_of(s).insert(e.0@, e.1),
{
    let t = s.update(i, e);
    assert(keys_of(t) =~= keys_of(s));
    let m = map_of(s).insert(e.0@, e.1);
    assert forall|k: Seq<char>| map_of(t).contains_key(k) <==> m.contains_key(k) by {
        if map_of(t).contains_key(k) {
            let p = position(t, k);
            assert(s[p].0@ == k);
        }
        if m.contains_key(k) {
            if k == e.0@ {
                assert(t[i].0@ == k);
            } else {
                let p = position(s, k);
                assert(t[p].0@ == k);
            }
        }
    }
    assert forall|k: Seq<char>| map_of(t).contains_key(k) implies map_of(t)[k] == m[k] by {
        let p = position(t, k);
        assert(t[p].0@ == k);
        lemma_entry(t, p);
        lemma_entry(s, p);
        if p < i {
            assert(before(keys_of(s)[p], keys_of(s)[i]));
        } else if p > i {
            assert(before(keys_of(s)[i], keys_of(s)[p]));
        }
    }
    assert(map_of(t) =~= m);
}

proof fn lemma_remove<V>(s: Seq<(String, V)>, i: int)
    requires
        ascending(keys_of(s)),
        0 <= i < s.len(),
    ensures
        ascending(keys_of(s.remove(i))),
        map_of(s.remove(i)) == map_of(s).remove(s[i].0@),
{
    let t = s.remove(i);
    let key = s[i].0@;
    let ks = keys_of(s);
    let kt = keys_of(t);
    assert forall|a: int, b: int| 0 <= a < b < kt.len() implies before(
        #[trigger] kt[a],
        #[trigger] kt[b],
    ) by {
        let x = if a < i {
            a
        } else {
            a + 1
        };
        let y = if b < i {
            b
        } else {
            b + 1
        };
        assert(kt[a] == ks[x] && kt[b] == ks[y]);
    }
    let m = map_of(s).remove(key);
    assert forall|k: Seq<char>| map_of(t).contains_key(k) <==> m.contains_key(k) by {
        if map_of(t).contains_key(k) {
            let p = position(t, k);
            let x = if p < i {
                p
            } else {
                p + 1
            };
            assert(s[x].0@ == k);
            if x < i {
                assert(before(ks[x], ks[i]));
            } else {
                assert(before(ks[i], ks[x]));
            }
        }
        if m.contains_key(k) {
            let p = position(s, k);
            assert(p != i);
            if p < i {
                assert(t[p].0@ == k);
            } else {
                assert(t[p - 1].0@ == k);
            }
        }
    }
    assert forall|k: Seq<char>| map_of(t).contains_key(k) implies map_of(t)[k] == m[k] by {
        let p = position(t, k);
        assert(t[p].0@ == k);
        lemma_entry(t, p);
        let x = if p < i {
            p
        } else {
            p + 1
        };
        lemma_entry(s, x);
        assert(t[p] == s[x]);
        assert(m.contains_key(k));
    }
    assert(map_of(t) =~= m);
}

impl<V> View for TextMap<V> {
    type V = Map<Seq<char>, V>;

    closed spec fn view(&self) -> Map<Seq<char>, V> {
        map_of(self.entries@)
    }
}

impl<V> TextMap<V> {
    /// The keys in ascending order.
    pub closed spec fn keys(&self) -> Seq<Seq<char>> {
        keys_of(self.entries@)
    }

    /// The keys are in ascending order, each once.
    pub closed spec fn wf(&self) -> bool {
        ascending(self.keys())
    }

    /// The listed keys are those of the map, in ascending order.
    pub proof fn lemma_keys(&self)
        requires
            self.wf(),
        ensures
            ascending(self.keys()),
            forall|i: int| 0 <= i < self.keys().len() ==> self@.contains_key(#[trigger] self.keys()[i]),
            forall|k: Seq<char>| #[trigger] self@.contains_key(k) ==> self.keys().contains(k),
    {
        assert forall|i: int| 0 <= i < self.keys().len() implies self@.contains_key(
            #[trigger] self.keys()[i],
        ) by {
            lemma_entry(self.entries@, i);
        }
        assert forall|k: Seq<char>| #[trigger] self@.contains_key(k) implies self.keys().contains(
            k,
        ) by {
            let p = position(self.entries@, k);
            assert(self.keys()[p] == k);
        }
    }

    /// An empty map.
    pub fn new() -> (r: Self)
        ensures
            r.wf(),
            r@ == Map::<Seq<char>, V>::empty(),
            r.keys().len() == 0,
    {
        let r = TextMap { entries: Vec::new() };
        proof {
            assert(map_of(r.entries@) =~= Map::<Seq<char>, V>::empty());
        }
        r
    }

    /// The number of entries.
    pub fn len(&self) -> (r: usize)
        ensures
            r == self.keys().len(),
    {
        self.entries.len()
    }

    /// The place of `key`: whether it is there, and how many keys come before it.
    fn place(&self, key: &str) -> (r: (bool, usize))
        requires
            self.wf(),
        ensures
            r.1 <= self.entries@.len(),
            r.0 ==> r.1 < self.entries@.len() && self.entries@[r.1 as int].0@ == key@,
            !r.0 ==> !self@.contains_key(key@),
            !r.0 && r.1 > 0 ==> before(self.entries@[r.1 - 1].0@, key@),
            !r.0 && r.1 < self.entries@.len() ==> before(key@, self.entries@[r.1 as int].0@),
    {
        let k = text::chars_of(key);
        let ghost ks = self.keys();
        let mut i: usize = 0;
        while i < self.entries.len()
            invariant
                i <= self.entries@.len(),
                k@ == key@,
                ks == self.keys(),
                self.wf(),
                forall|j: int| 0 <= j < i ==> before(#[trigger] ks[j], key@),
            decreases self.entries.len() - i,
        {
            let here = text::chars_of(self.entries[i].0.as_str());
            proof {
                assert(ks[i as int] == here@);
            }
            if sorting::text_precedes(k.as_slice(), here.as_slice()) {
                if text::str_eq(self.entries[i].0.as_str(), key) {
                    return (true, i);
                }
                proof {
                    if i > 0 {
                        assert(before(ks[i - 1], key@));
                    }
                    if self@.contains_key(key@) {
                        let p = position(self.entries@, key@);
                        assert(ks[p] == key@);
                        if p < i {
                            assert(before(ks[p], key@));
                        } else if p > i {
                            assert(before(ks[i as int], ks[p]));
                            lemma_before_transitive(key@, ks[i as int], ks[p]);
                        }
                    }
                }
                return (false, i);
            }
            proof {
                sorting::lemma_text_le_total(key@, here@);
            }
            i = i + 1;
        }
        proof {
            if i > 0 {
                assert(before(ks[i - 1], key@));
            }
            if self@.contains_key(key@) {
                let p = position(self.entries@, key@);
                assert(before(ks[p], key@));
            }
        }
        (false, i)
    }

    /// Whether there is an entry for `key`.
    pub fn contains_key(&self, key: &str) -> (r: bool)
        requires
            self.wf(),
        ensures
            r == self@.contains_key(key@),
    {
        let (found, i) = self.place(key);
        proof {
            if found {
                lemma_entry(self.entries@, i as int);
            }
        }
        found
    }

    /// The value of `key`.
    pub fn get(&self, key: &str) -> (r: Option<&V>)
        requires
            self.wf(),
        ensures
            match r {
                Some(v) => self@.contains_key(key@) && *v == self@[key@],
                None => !self@.contains_key(key@),
            },
    {
        let (found, i) = self.place(key);
        if found {
            proof {
                lemma_entry(self.entries@, i as int);
            }
            Some(&self.entries[i].1)
        } else {
            None
        }
    }

    /// Files `value` under `key`.
    pub fn insert(&mut self, key: String, value: V)
        requires
            old(self).wf(),
        ensures
            final(self).wf(),
            final(self)@ == old(self)@.insert(key@, value),
    {
        let (found, i) = self.place(key.as_str());
        if found {
            proof {
                lemma_update(self.entries@, i as int, (key, value));
            }
            self.entries.set(i, (key, value));
        } else {
            proof {
                lemma_insert(self.entries@, i as int, (key, value));
            }
            self.entries.insert(i, (key, value));
        }
    }

    /// Takes the entry of `key` out.
    pub fn remove(&mut self, key: &str) -> (r: Option<V>)
        requires
            old(self).wf(),
        ensures
            final(self).wf(),
            final(self)@ == old(self)@.remove(key@),
            match r {
                Some(v) => old(self)@.contains_key(key@) && v == old(self)@[key@],
                None => !old(self)@.contains_key(key@) && final(self)@ == old(self)@,
            },
    {
        let (found, i) = self.place(key);
        if found {
            proof {
                lemma_entry(self.entries@, i as int);
                lemma_remove(self.entries@, i as int);
            }
            let e = self.entries.remove(i);
            Some(e.1)
        } else {
            proof {
                assert(self@.remove(key@) =~= self@);
            }
            None
        }
    }

    /// Key number `i`.
    pub fn key_at(&self, i: usize) -> (r: &String)
        requires
            i < self.keys().len(),
        ensures
            r@ == self.keys()[i as int],
    {
        &self.entries[i].0
    }

    /// The value of key number `i`.
    pub fn value_at(&self, i: usize) -> (r: &V)
        requires
            self.wf(),
            i < self.keys().len(),
        ensures
            self@.contains_key(self.keys()[i as int]),
            *r == self@[self.keys()[i as int]],
    {
        proof {
            lemma_entry(self.entries@, i as int);
        }
        &self.entries[i].1
    }
}

} // verus!
