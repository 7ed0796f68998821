//! A stable sort for values that are ranked by what they say.

use vstd::prelude::*;

verus! {

/// Values with a total preorder on their views.
pub trait Ranked: View + Sized {
    /// Whether `a` may stand before `b`.
    spec fn ranks(a: Self::V, b: Self::V) -> bool;

    proof fn ranks_total(a: Self::V, b: Self::V)
        ensures
            Self::ranks(a, b) || Self::ranks(b, a),
    ;

    proof fn ranks_transitive(a: Self::V, b: Self::V, c: Self::V)
        requires
            Self::ranks(a, b),
            Self::ranks(b, c),
        ensures
            Self::ranks(a, c),
    ;

    /// Decides the order.
    fn may_precede(&self, other: &Self) -> (r: bool)
        ensures
            r == Self::ranks(self@, other@),
    ;
}

/// What the elements say.
pub open spec fn views<T: View>(s: Seq<T>) -> Seq<T::V> {
    s.map_values(|t: T| t@)
}

/// Whether every element may stand before all that follow it.
pub open spec fn in_order<A>(s: Seq<A>, ranks: spec_fn(A, A) -> bool) -> bool {
    forall|i: int, j: int| 0 <= i < j < s.len() ==> ranks(#[trigger] s[i], #[trigger] s[j])
}

/// The elements of `s` that rank the same as `z`, in their order.
pub open spec fn peers<A>(s: Seq<A>, z: A, ranks: spec_fn(A, A) -> bool) -> Seq<A> {
    s.filter(|y: A| ranks(z, y) && ranks(y, z))
}

/// Whether `output` is `input` put in order, with elements that rank the same
/// left in the order that they had.
pub open spec fn is_stable_sort<A>(
    input: Seq<A>,
    output: Seq<A>,
    ranks: spec_fn(A, A) -> bool,
) -> bool {
    &&& output.len() == input.len()
    &&& in_order(output, ranks)
    &&& forall|z: A| #[trigger] peers(output, z, ranks) == peers(input, z, ranks)
}

proof fn lemma_filter_none<A>(s: Seq<A>, p: spec_fn(A) -> bool)
    requires
        forall|i: int| 0 <= i < s.len() ==> !p(#[trigger] s[i]),
    ensures
        s.filter(p) == Seq::<A>::empty(),
    decreases s.len(),
{
    reveal(Seq::filter);
    if s.len() > 0 {
        assert forall|i: int| 0 <= i < s.drop_last().len() implies !p(
            #[trigger] s.drop_last()[i],
        ) by {
            assert(!p(s[i]));
        }
        lemma_filter_none(s.drop_last(), p);
    }
}

proof fn lemma_insert_keeps_peers<T: Ranked>(s: Seq<T::V>, x: T::V, i: int, z: T::V)
    requires
        0 <= i <= s.len(),
        forall|j: int| i <= j < s.len() ==> !T::ranks(#[trigger] s[j], x),
    ensures
        peers(s.insert(i, x), z, |a: T::V, b: T::V| T::ranks(a, b)) == peers(
            s.push(x),
            z,
            |a: T::V, b: T::V| T::ranks(a, b),
        ),
{
    let ranks = |a: T::V, b: T::V| T::ranks(a, b);
    let p = |y: T::V| ranks(z, y) && ranks(y, z);
    let head = s.take(i);
    let tail = s.skip(i);
    assert(s.insert(i, x) == head.push(x) + tail);
    assert(s.push(x) == (head + tail).push(x));
    assert(head + tail == s);
    Seq::filter_distributes_over_add(head.push(x), tail, p);
    Seq::filter_distributes_over_add(head, tail, p);
    assert(s.push(x).drop_last() == s);
    assert(head.push(x).drop_last() == head);
    reveal(Seq::filter);
    if p(x) {
        assert forall|j: int| 0 <= j < tail.len() implies !p(#[trigger] tail[j]) by {
            assert(tail[j] == s[i + j]);
            if p(tail[j]) {
                T::ranks_transitive(s[i + j], z, x);
            }
        }
        lemma_filter_none(tail, p);
        assert(s.filter(p) == head.filter(p));
        assert(s.insert(i, x).filter(p) == head.filter(p).push(x));
    }
}

proof fn lemma_push_keeps_peers<A>(a: Seq<A>, b: Seq<A>, x: A, ranks: spec_fn(A, A) -> bool)
    requires
        forall|z: A| #[trigger] peers(a, z, ranks) == peers(b, z, ranks),
    ensures
        forall|z: A| #[trigger] peers(a.push(x), z, ranks) == peers(b.push(x), z, ranks),
{
    assert forall|z: A| #[trigger] peers(a.push(x), z, ranks) == peers(b.push(x), z, ranks) by {
        reveal(Seq::filter);
        assert(a.push(x).drop_last() == a);
        assert(b.push(x).drop_last() == b);
        assert(peers(a, z, ranks) == peers(b, z, ranks));
    }
}

/// Puts `v` in order; elements that rank the same keep their order.
pub fn stable_sort<T: Ranked>(v: Vec<T>) -> (r: Vec<T>)
    ensures
        is_stable_sort(views(v@), views(r@), |a: T::V, b: T::V| T::ranks(a, b)),
{
    let ghost ranks = |a: T::V, b: T::V| T::ranks(a, b);
    let ghost input = views(v@);
    let mut rest: Vec<T> = v;
    let mut from: Vec<T> = Vec::new();
    // Take the elements from the front without moving them one by one.
    while rest.len() > 0
        invariant
            v@ == rest@ + from@.reverse(),
        decreases rest.len(),
    {
        let ghost before = rest@;
        let ghost had = from@;
        let x = rest.pop().unwrap();
        from.push(x);
        proof {
            assert(from@.reverse() == seq![x] + had.reverse());
            assert(rest@ + from@.reverse() == before + had.reverse());
        }
    }
    let mut out: Vec<T> = Vec::new();
    let ghost mut done: Seq<T::V> = Seq::empty();
    proof {
        assert(v@ == from@.reverse());
        assert(done + views(from@.reverse()) == input);
        assert(views(out@) == done);
    }
    while from.len() > 0
        invariant
            ranks == |a: T::V, b: T::V| T::ranks(a, b),
            done + views(from@.reverse()) == input,
            is_stable_sort(done, views(out@), ranks),
        decreases from.len(),
    {
        let ghost left = from@;
        let x = from.pop().unwrap();
        proof {
            assert(left.reverse() == seq![x] + from@.reverse());
            assert(views(left.reverse()) == seq![x@] + views(from@.reverse()));
            assert(done + views(left.reverse()) == done.push(x@) + views(from@.reverse()));
        }
        let ghost s = views(out@);
        let mut i: usize = out.len();
        while i > 0 && !out[i - 1].may_precede(&x)
            invariant
                s == views(out@),
                i <= out@.len(),
                forall|j: int| i <= j < s.len() ==> !T::ranks(#[trigger] s[j], x@),
            decreases i,
        {
            i = i - 1;
        }
        let ghost y = x@;
        out.insert(i, x);
        proof {
            assert(views(out@) == s.insert(i as int, y));
            assert forall|a: int, b: int| 0 <= a < b < views(out@).len() implies ranks(
                #[trigger] views(out@)[a],
                #[trigger] views(out@)[b],
            ) by {
                let t = views(out@);
                if b < i {
                    assert(t[a] == s[a] && t[b] == s[b]);
                } else if a > i {
                    assert(t[a] == s[a - 1] && t[b] == s[b - 1]);
                } else if a == i {
                    assert(t[b] == s[b - 1]);
                    T::ranks_total(y, s[b - 1]);
                } else if b == i {
                    assert(t[a] == s[a]);
                    if a < i - 1 {
                        assert(ranks(s[a], s[i - 1]));
                        T::ranks_transitive(s[a], s[i - 1], y);
                    }
                } else {
                    assert(t[a] == s[a] && t[b] == s[b - 1]);
                }
            }
            lemma_push_keeps_peers(s, done, y, ranks);
            assert forall|z: T::V| #[trigger]
                peers(views(out@), z, ranks) == peers(done.push(y), z, ranks) by {
                lemma_insert_keeps_peers::<T>(s, y, i as int, z);
                assert(peers(s.push(y), z, ranks) == peers(done.push(y), z, ranks));
            }
            done = done.push(y);
        }
    }
    proof {
        assert(done == input);
    }
    out
}

// ---------------------------------------------------------------------------
// Orders on text
// ---------------------------------------------------------------------------

/// Whether `a` comes before `b` in a dictionary ordered by code points, or is the same.
pub open spec fn text_le(a: Seq<char>, b: Seq<char>) -> bool
    decreases a.len(),
{
    if a.len() == 0 {
        true
    } else if b.len() == 0 {
        false
    } else if a[0] != b[0] {
        a[0] < b[0]
    } else {
        text_le(a.drop_first(), b.drop_first())
    }
}

pub proof fn lemma_text_le_total(a: Seq<char>, b: Seq<char>)
    ensures
        text_le(a, b) || text_le(b, a),
    decreases a.len(),
{
    if a.len() > 0 && b.len() > 0 && a[0] == b[0] {
        lemma_text_le_total(a.drop_first(), b.drop_first());
    }
}

pub proof fn lemma_text_le_transitive(a: Seq<char>, b: Seq<char>, c: Seq<char>)
    requires
        text_le(a, b),
        text_le(b, c),
    ensures
        text_le(a, c),
    decreases a.len(),
{
    if a.len() > 0 && b.len() > 0 && c.len() > 0 && a[0] == b[0] && b[0] == c[0] {
        lemma_text_le_transitive(a.drop_first(), b.drop_first(), c.drop_first());
    }
}

pub proof fn lemma_text_le_antisymmetric(a: Seq<char>, b: Seq<char>)
    requires
        text_le(a, b),
        text_le(b, a),
    ensures
        a == b,
    decreases a.len(),
{
    if a.len() > 0 && b.len() > 0 {
        let s = a.drop_first();
        let t = b.drop_first();
        lemma_text_le_antisymmetric(s, t);
        assert(s.len() == a.len() - 1);
        assert(t.len() == b.len() - 1);
        assert forall|i: int| 0 <= i < a.len() implies a[i] == b[i] by {
            if i > 0 {
                assert(a[i] == s[i - 1]);
                assert(b[i] == t[i - 1]);
            }
        }
        assert(a =~= b);
    } else {
        assert(a =~= b);
    }
}

/// Decides [`text_le`].
pub fn text_precedes(a: &[char], b: &[char]) -> (r: bool)
    ensures
        r == text_le(a@, b@),
{
    let mut i: usize = 0;
    proof {
        assert(a@.skip(0) == a@);
        assert(b@.skip(0) == b@);
    }
    while i < a.len() && i < b.len()
        invariant
            i <= a@.len(),
            i <= b@.len(),
            text_le(a@, b@) == text_le(a@.skip(i as int), b@.skip(i as int)),
        decreases a.len() - i,
    {
        if a[i] != b[i] {
            return a[i] < b[i];
        }
        proof {
            assert(a@.skip(i as int).drop_first() == a@.skip(i + 1));
            assert(b@.skip(i as int).drop_first() == b@.skip(i + 1));
        }
        i = i + 1;
    }
    i == a.len()
}

/// [`text_precedes`] on strings.
pub fn str_precedes(a: &str, b: &str) -> (r: bool)
    ensures
        r == text_le(a@, b@),
{
    text_precedes(crate::text::chars_of(a).as_slice(), crate::text::chars_of(b).as_slice())
}

// ---------------------------------------------------------------------------
// Laws
// ---------------------------------------------------------------------------

proof fn lemma_filter_keeps_count<A>(s: Seq<A>, p: spec_fn(A) -> bool, x: A)
    requires
        p(x),
    ensures
        s.filter(p).to_multiset().count(x) == s.to_multiset().count(x),
    decreases s.len(),
{
    broadcast use vstd::seq_lib::group_to_multiset_ensures;

    reveal(Seq::filter);
    if s.len() > 0 {
        lemma_filter_keeps_count(s.drop_last(), p, x);
        assert(s.drop_last().push(s.last()) =~= s);
        let f = s.drop_last().filter(p);
        if p(s.last()) {
            assert(s.filter(p) =~= f.push(s.last()));
        }
    }
}

/// Sorting loses nothing, adds nothing and doubles nothing: each element stands
/// in the result as often as it was given, and whatever may not stand before an
/// element does not.
pub proof fn law_sorting_loses_nothing<A>(
    input: Seq<A>,
    output: Seq<A>,
    ranks: spec_fn(A, A) -> bool,
)
    requires
        is_stable_sort(input, output, ranks),
        forall|a: A| #[trigger] ranks(a, a),
    ensures
        output.len() == input.len(),
        output.to_multiset() == input.to_multiset(),
        forall|x: A| #[trigger] output.contains(x) <==> input.contains(x),
        forall|i: int, j: int| 0 <= i < j < output.len() ==> ranks(output[i], output[j]),
{
    broadcast use vstd::seq_lib::group_to_multiset_ensures;

    assert forall|x: A| #[trigger] output.to_multiset().count(x) == input.to_multiset().count(x) by {
        let p = |y: A| ranks(x, y) && ranks(y, x);
        assert(ranks(x, x));
        assert(peers(output, x, ranks) == peers(input, x, ranks));
        lemma_filter_keeps_count(output, p, x);
        lemma_filter_keeps_count(input, p, x);
    }
    assert(output.to_multiset() =~= input.to_multiset());
    assert forall|x: A| #[trigger] output.contains(x) <==> input.contains(x) by {
        assert(output.to_multiset().count(x) == input.to_multiset().count(x));
    }
    assert forall|i: int, j: int| 0 <= i < j < output.len() implies ranks(
        output[i],
        output[j],
    ) by {
        let a = output[i];
        let b = output[j];
    }
}

/// Texts are in the order of a dictionary: a text stands before another if it
/// is the beginning of it, or has the smaller character where they first
/// differ.
pub proof fn law_texts_are_ordered_as_in_a_dictionary(a: Seq<char>, b: Seq<char>)
    ensures
        text_le(a, b) <==> exists|k: int|
            {
                &&& 0 <= k <= a.len()
                &&& k <= b.len()
                &&& #[trigger] a.take(k) == b.take(k)
                &&& k == a.len() || (k < b.len() && a[k] < b[k])
            },
    decreases a.len(),
{
    if a.len() == 0 {
        assert(a.take(0) =~= b.take(0));
    } else if b.len() == 0 {
        assert forall|k: int|
            0 <= k <= a.len() && k <= b.len() && #[trigger] a.take(k) == b.take(k) implies !(k
            == a.len() || (k < b.len() && a[k] < b[k])) by {}
    } else if a[0] != b[0] {
        assert(a.take(0) =~= b.take(0));
        assert forall|k: int|
            0 < k <= a.len() && k <= b.len() implies #[trigger] a.take(k) != b.take(k) by {
            assert(a.take(k)[0] == a[0]);
            assert(b.take(k)[0] == b[0]);
        }
    } else {
        let s = a.drop_first();
        let t = b.drop_first();
        law_texts_are_ordered_as_in_a_dictionary(s, t);
        if text_le(s, t) {
            let k = choose|k: int|
                {
                    &&& 0 <= k <= s.len()
                    &&& k <= t.len()
                    &&& #[trigger] s.take(k) == t.take(k)
                    &&& k == s.len() || (k < t.len() && s[k] < t[k])
                };
            assert forall|i: int| 0 <= i < k + 1 implies a[i] == b[i] by {
                if i > 0 {
                    assert(s.take(k)[i - 1] == t.take(k)[i - 1]);
                }
            }
            assert(a.take(k + 1) =~= b.take(k + 1));
        }
        if exists|k: int|
            {
                &&& 0 <= k <= a.len()
                &&& k <= b.len()
                &&& #[trigger] a.take(k) == b.take(k)
                &&& k == a.len() || (k < b.len() && a[k] < b[k])
            } {
            let k = choose|k: int|
                {
                    &&& 0 <= k <= a.len()
                    &&& k <= b.len()
                    &&& #[trigger] a.take(k) == b.take(k)
                    &&& k == a.len() || (k < b.len() && a[k] < b[k])
                };
            assert(k > 0);
            assert forall|i: int| 0 <= i < k - 1 implies s[i] == t[i] by {
                assert(a.take(k)[i + 1] == b.take(k)[i + 1]);
            }
            assert(s.take(k - 1) =~= t.take(k - 1));
        }
    }
}

/// What an extended sequence holds.
pub proof fn lemma_push_holds<A>(s: Seq<A>, a: A)
    ensures
        forall|x: A| #[trigger] s.push(a).contains(x) <==> s.contains(x) || x == a,
{
    assert forall|x: A| #[trigger] s.push(a).contains(x) <==> s.contains(x) || x == a by {
        assert(s.push(a)[s.len() as int] == a);
        if s.contains(x) {
            let i = choose|i: int| 0 <= i < s.len() && s[i] == x;
            assert(s.push(a)[i] == x);
        }
    }
}

/// What two sequences, one after the other, hold.
pub proof fn lemma_add_holds<A>(a: Seq<A>, b: Seq<A>)
    ensures
        forall|x: A| #[trigger] (a + b).contains(x) <==> a.contains(x) || b.contains(x),
{
    assert forall|x: A| #[trigger] (a + b).contains(x) <==> a.contains(x) || b.contains(x) by {
        if a.contains(x) {
            let i = choose|i: int| 0 <= i < a.len() && a[i] == x;
            assert((a + b)[i] == x);
        }
        if b.contains(x) {
            let i = choose|i: int| 0 <= i < b.len() && b[i] == x;
            assert((a + b)[a.len() + i] == x);
        }
    }
}

} // verus!
