//! JSON values, as far as the compositors' messages need them.

use vstd::prelude::*;
use vstd::string::*;

use serde_json::Value;

use crate::text;

verus! {

/// A JSON value.
#[derive(Debug)]
pub enum Json {
    Null,
    Bool(bool),
    /// A number, where it is a whole number that fits.
    Number(Option<u64>),
    Text(String),
    Array(Vec<Json>),
    Object(Vec<(String, Json)>),
}

/// What a [`Json`] holds.
#[verifier::ext_equal]
pub enum JsonView {
    Null,
    Bool(bool),
    Number(Option<u64>),
    Text(Seq<char>),
    Array(Seq<JsonView>),
    Object(Seq<(Seq<char>, JsonView)>),
}

/// What a value holds.
pub open spec fn value_of(j: Json) -> JsonView
    decreases j, 0nat,
{
    match j {
        Json::Null => JsonView::Null,
        Json::Bool(b) => JsonView::Bool(b),
        Json::Number(n) => JsonView::Number(n),
        Json::Text(s) => JsonView::Text(s@),
        Json::Array(v) => JsonView::Array(values_of(v@, v@.len())),
        Json::Object(v) => JsonView::Object(members_of(v@, v@.len())),
    }
}

/// What the first `n` values hold.
pub open spec fn values_of(v: Seq<Json>, n: nat) -> Seq<JsonView>
    decreases v, n,
{
    if n == 0 || n > v.len() {
        Seq::empty()
    } else {
        values_of(v, (n - 1) as nat).push(value_of(v[n - 1]))
    }
}

/// What the first `n` members hold.
pub open spec fn members_of(v: Seq<(String, Json)>, n: nat) -> Seq<(Seq<char>, JsonView)>
    decreases v, n,
{
    if n == 0 || n > v.len() {
        Seq::empty()
    } else {
        members_of(v, (n - 1) as nat).push((v[n - 1].0@, value_of(v[n - 1].1)))
    }
}

impl View for Json {
    type V = JsonView;

    open spec fn view(&self) -> JsonView {
        value_of(*self)
    }
}

pub proof fn lemma_values(v: Seq<Json>, n: nat)
    requires
        n <= v.len(),
    ensures
        values_of(v, n).len() == n,
        forall|i: int| 0 <= i < n ==> (#[trigger] values_of(v, n)[i]) == value_of(v[i]),
    decreases n,
{
    if n > 0 {
        lemma_values(v, (n - 1) as nat);
    }
}

pub proof fn lemma_members(v: Seq<(String, Json)>, n: nat)
    requires
        n <= v.len(),
    ensures
        members_of(v, n).len() == n,
        forall|i: int|
            0 <= i < n ==> (#[trigger] members_of(v, n)[i]) == (v[i].0@, value_of(v[i].1)),
    decreases n,
{
    if n > 0 {
        lemma_members(v, (n - 1) as nat);
    }
}

/// The first member called `key`.
pub open spec fn first_member(m: Seq<(Seq<char>, JsonView)>, key: Seq<char>) -> Option<JsonView>
    decreases m.len(),
{
    if m.len() == 0 {
        None
    } else if m[0].0 == key {
        Some(m[0].1)
    } else {
        first_member(m.skip(1), key)
    }
}

impl JsonView {
    /// The member called `key` of an object.
    pub open spec fn member(self, key: Seq<char>) -> Option<JsonView> {
        match self {
            JsonView::Object(m) => first_member(m, key),
            _ => None,
        }
    }

    /// The whole number that the value is.
    pub open spec fn number(self) -> Option<u64> {
        match self {
            JsonView::Number(n) => n,
            _ => None,
        }
    }
}

/// The number in the member called `key`.
pub open spec fn number_member(j: JsonView, key: Seq<char>) -> Option<u64> {
    match j.member(key) {
        Some(v) => v.number(),
        None => None,
    }
}

/// The text in the member called `key`.
pub open spec fn text_member(j: JsonView, key: Seq<char>) -> Option<Seq<char>> {
    match j.member(key) {
        Some(JsonView::Text(s)) => Some(s),
        _ => None,
    }
}

/// Whether the member called `key` is `true`.
pub open spec fn true_member(j: JsonView, key: Seq<char>) -> bool {
    j.member(key) == Some(JsonView::Bool(true))
}

impl Json {
    /// The member called `key` of an object.
    pub fn get(&self, key: &str) -> (r: Option<&Json>)
        ensures
            match r {
                Some(v) => self@.member(key@) == Some(v@),
                None => self@.member(key@) is None,
            },
    {
        match self {
            Json::Object(m) => {
                let ghost all = members_of(m@, m@.len());
                let mut i: usize = 0;
                proof {
                    lemma_members(m@, m@.len());
                    assert(all.skip(0) == all);
                }
                while i < m.len()
                    invariant
                        i <= m@.len(),
                        all.len() == m@.len(),
                        forall|k: int|
                            0 <= k < m@.len() ==> (#[trigger] all[k]) == (
                                m@[k].0@,
                                value_of(m@[k].1),
                            ),
                        first_member(all, key@) == first_member(all.skip(i as int), key@),
                        self@ == JsonView::Object(all),
                    decreases m.len() - i,
                {
                    proof {
                        assert(all.skip(i as int)[0] == all[i as int]);
                        assert(all.skip(i as int).skip(1) == all.skip(i + 1));
                    }
                    if text::str_eq(m[i].0.as_str(), key) {
                        return Some(&m[i].1);
                    }
                    i = i + 1;
                }
                None
            },
            _ => None,
        }
    }

    /// The number in the member called `key`.
    pub fn get_u64(&self, key: &str) -> (r: Option<u64>)
        ensures
            r == number_member(self@, key@),
    {
        match self.get(key) {
            Some(Json::Number(n)) => *n,
            _ => None,
        }
    }

    /// The text in the member called `key`.
    pub fn get_text(&self, key: &str) -> (r: Option<String>)
        ensures
            text::opt(r) == text_member(self@, key@),
    {
        match self.get(key) {
            Some(Json::Text(s)) => Some(s.clone()),
            _ => None,
        }
    }

    /// Whether the member called `key` is `true`.
    pub fn get_true(&self, key: &str) -> (r: bool)
        ensures
            r == true_member(self@, key@),
    {
        match self.get(key) {
            Some(Json::Bool(b)) => *b,
            _ => false,
        }
    }
}

/// What an optional value holds.
pub open spec fn opt_value(j: Option<Json>) -> Option<JsonView> {
    match j {
        Some(v) => Some(v@),
        None => None,
    }
}

/// The value that a JSON text stands for; none where the text is not JSON.
pub uninterp spec fn json_text(s: Seq<char>) -> Option<JsonView>;

/// Calls `serde_json::from_str` for a value of any shape and takes the value
/// over variant by variant; the same call converts each child, from the text
/// that `serde_json` writes for it.
///
/// Claims that the outcome depends on the text alone.
#[verifier::external_body]
pub(crate) fn parse_json(s: &str) -> (r: Option<Json>)
    ensures
        opt_value(r) == json_text(s@),
{
    match serde_json::from_str(s).ok()? {
        Value::Null => Some(Json::Null),
        Value::Bool(b) => Some(Json::Bool(b)),
        Value::Number(n) => Some(Json::Number(n.as_u64())),
        Value::String(t) => Some(Json::Text(t)),
        Value::Array(a) => {
            let items = a.iter().map(|v| parse_json(&v.to_string()));
            items.collect::<Option<_>>().map(Json::Array)
        },
        Value::Object(m) => {
            let members = m.into_iter().map(|(k, v)| Some((k, parse_json(&v.to_string())?)));
            members.collect::<Option<_>>().map(Json::Object)
        },
    }
}

/// A member is the first of its name, and there is none only if no member has
/// the name.
pub proof fn law_member_is_the_first(m: Seq<(Seq<char>, JsonView)>, key: Seq<char>, k: int)
    ensures
        0 <= k < m.len() && m[k].0 == key && (forall|j: int| 0 <= j < k ==> (#[trigger] m[j]).0 != key)
            ==> JsonView::Object(m).member(key) == Some(m[k].1),
        JsonView::Object(m).member(key) is None && 0 <= k < m.len() ==> m[k].0 != key,
    decreases m.len(),
{
    if m.len() > 0 && k > 0 && m[0].0 != key {
        let t = m.skip(1);
        if 0 <= k < m.len() {
            assert(t[k - 1] == m[k]);
        }
        if forall|j: int| 0 <= j < k ==> (#[trigger] m[j]).0 != key {
            if k < m.len() {
                assert forall|j: int| 0 <= j < k - 1 implies (#[trigger] t[j]).0 != key by {
                    assert(t[j] == m[j + 1]);
                }
            }
        }
        law_member_is_the_first(t, key, k - 1);
    }
}

} // verus!
