//! The history's tables: which statements record an item, and how the rows of
//! a page become entries.
//!
//! Items are kept once per content: the hash of the default representation
//! tells them apart.

use vstd::prelude::*;
use vstd::string::*;

use crate::clipd::model;
use crate::clipd::model::Entry;
use crate::clipd::model::EntryView;
use crate::clipd::model::Kind;
use crate::clipd::model::MimeContent;
use crate::sorting;
use crate::text;

verus! {

/// The BLAKE3 hash of a byte string.
pub uninterp spec fn blake3_hash(b: Seq<u8>) -> [u8; 32];

/// Calls `blake3::hash`.
///
/// Claims that the hash depends on the bytes alone.
#[verifier::external_body]
fn blake3_of(b: &[u8]) -> (r: [u8; 32])
    ensures
        r == blake3_hash(b@),
{
    *blake3::hash(b).as_bytes()
}

/// The hash by which content is recognised.
pub fn content_hash(content: &[u8]) -> (r: [u8; 32])
    ensures
        r == blake3_hash(content@),
{
    blake3_of(content)
}

/// What became of a recorded item.
#[derive(Debug)]
pub enum RecordResult {
    Inserted(String),
    Existed(String),
}

impl RecordResult {
    /// The item's id.
    pub open spec fn id(self) -> Seq<char> {
        match self {
            RecordResult::Inserted(u) => u@,
            RecordResult::Existed(u) => u@,
        }
    }

    /// The item's id.
    pub fn uuid(self) -> (r: String)
        ensures
            r@ == self.id(),
    {
        match self {
            RecordResult::Inserted(u) => u,
            RecordResult::Existed(u) => u,
        }
    }
}

// ---------------------------------------------------------------------------
// Statements
// ---------------------------------------------------------------------------

/// A change to the tables.
#[derive(Debug)]
pub enum Statement {
    /// The item was used.
    Touch { uuid: String, ts: i64 },
    /// A new item; it was created and used at the same time.
    InsertItem {
        uuid: String,
        kind: Kind,
        primary_mime: String,
        primary_hash: [u8; 32],
        preview: Option<String>,
        ts: i64,
    },
    /// A representation, unless the item already has one of that name.
    KeepMime { uuid: String, mime: String, content: Vec<u8> },
}

pub enum StatementView {
    Touch { uuid: Seq<char>, ts: i64 },
    InsertItem {
        uuid: Seq<char>,
        kind: Kind,
        primary_mime: Seq<char>,
        primary_hash: [u8; 32],
        preview: Option<Seq<char>>,
        ts: i64,
    },
    KeepMime { uuid: Seq<char>, mime: Seq<char>, content: Seq<u8> },
}

impl View for Statement {
    type V = StatementView;

    open spec fn view(&self) -> StatementView {
        match *self {
            Statement::Touch { uuid, ts } => StatementView::Touch { uuid: uuid@, ts },
            Statement::InsertItem { uuid, kind, primary_mime, primary_hash, preview, ts } => {
                StatementView::InsertItem {
                    uuid: uuid@,
                    kind,
                    primary_mime: primary_mime@,
                    primary_hash,
                    preview: text::opt(preview),
                    ts,
                }
            },
            Statement::KeepMime { uuid, mime, content } => StatementView::KeepMime {
                uuid: uuid@,
                mime: mime@,
                content: content@,
            },
        }
    }
}

pub open spec fn statements(v: Seq<Statement>) -> Seq<StatementView> {
    v.map_values(|s: Statement| s@)
}

/// The representations to keep beside the default one: those of another name.
pub open spec fn keep_extras(
    uuid: Seq<char>,
    primary_mime: Seq<char>,
    extras: Seq<(Seq<char>, Seq<u8>)>,
) -> Seq<StatementView>
    decreases extras.len(),
{
    if extras.len() == 0 {
        Seq::empty()
    } else {
        let rest = keep_extras(uuid, primary_mime, extras.drop_last());
        if extras.last().0 == primary_mime {
            rest
        } else {
            rest.push(
                StatementView::KeepMime { uuid, mime: extras.last().0, content: extras.last().1 },
            )
        }
    }
}

/// An item to record.
pub struct Recorded {
    pub kind: Kind,
    pub primary_mime: Seq<char>,
    pub primary_content: Seq<u8>,
    pub preview: Option<Seq<char>>,
    pub extras: Seq<(Seq<char>, Seq<u8>)>,
    pub ts: i64,
}

/// The statements that record an item: a known one is touched, a new one
/// inserted under the id `fresh`, and either way its representations are kept.
pub open spec fn record_statements(
    found: Option<Seq<char>>,
    fresh: Seq<char>,
    item: Recorded,
) -> Seq<StatementView> {
    let uuid = match found {
        Some(u) => u,
        None => fresh,
    };
    let first = match found {
        Some(u) => StatementView::Touch { uuid: u, ts: item.ts },
        None => StatementView::InsertItem {
            uuid: fresh,
            kind: item.kind,
            primary_mime: item.primary_mime,
            primary_hash: blake3_hash(item.primary_content),
            preview: item.preview,
            ts: item.ts,
        },
    };
    seq![
        first,
        StatementView::KeepMime {
            uuid,
            mime: item.primary_mime,
            content: item.primary_content,
        },
    ] + keep_extras(uuid, item.primary_mime, item.extras)
}

fn push_statement(out: &mut Vec<Statement>, s: Statement)
    ensures
        statements(final(out)@) == statements(old(out)@).push(s@),
{
    let ghost had = statements(out@);
    out.push(s);
    proof {
        assert(statements(out@) =~= had.push(s@));
    }
}

/// Records an item; `found` is the item that has the hash of its content
/// already, `fresh` an id that no item has.
pub fn record_with_ts(
    found: Option<String>,
    fresh: String,
    kind: Kind,
    primary_mime: &str,
    primary_content: &[u8],
    preview: Option<&str>,
    extras: &[MimeContent],
    ts: i64,
) -> (r: (RecordResult, Vec<Statement>))
    ensures
        r.0.id() == (match text::opt(found) {
            Some(u) => u,
            None => fresh@,
        }),
        (r.0 is Existed) == (found is Some),
        statements(r.1@) == record_statements(
            text::opt(found),
            fresh@,
            (Recorded {
                kind,
                primary_mime: primary_mime@,
                primary_content: primary_content@,
                preview: text::opt_str(preview),
                extras: model::contents(extras@),
                ts,
            }),
        ),
{
    let ghost item = Recorded {
        kind,
        primary_mime: primary_mime@,
        primary_content: primary_content@,
        preview: text::opt_str(preview),
        extras: model::contents(extras@),
        ts,
    };
    let mut out: Vec<Statement> = Vec::new();
    proof {
        assert(statements(out@) =~= Seq::<StatementView>::empty());
    }
    let existed = found.is_some();
    let ghost known = text::opt(found);
    let uuid = match found {
        Some(u) => {
            push_statement(&mut out, Statement::Touch { uuid: u.clone(), ts });
            u
        },
        None => {
            let p = match preview {
                Some(s) => Some(s.to_owned()),
                None => None,
            };
            push_statement(
                &mut out,
                Statement::InsertItem {
                    uuid: fresh.clone(),
                    kind,
                    primary_mime: primary_mime.to_owned(),
                    primary_hash: content_hash(primary_content),
                    preview: p,
                    ts,
                },
            );
            fresh
        },
    };
    push_statement(
        &mut out,
        Statement::KeepMime {
            uuid: uuid.clone(),
            mime: primary_mime.to_owned(),
            content: vstd::slice::slice_to_vec(primary_content),
        },
    );
    let ghost head = statements(out@);
    let ghost all = model::contents(extras@);
    let mut i: usize = 0;
    proof {
        assert(all.take(0) == Seq::<(Seq<char>, Seq<u8>)>::empty());
    }
    while i < extras.len()
        invariant
            i <= extras@.len(),
            all == model::contents(extras@),
            statements(out@) =~= head + keep_extras(
                uuid@,
                primary_mime@,
                all.take(i as int),
            ),
        decreases extras.len() - i,
    {
        proof {
            assert(all.take(i + 1).drop_last() == all.take(i as int));
            assert(all.take(i + 1).last() == extras@[i as int]@);
        }
        if !text::str_eq(extras[i].mime.as_str(), primary_mime) {
            push_statement(
                &mut out,
                Statement::KeepMime {
                    uuid: uuid.clone(),
                    mime: extras[i].mime.clone(),
                    content: vstd::slice::slice_to_vec(extras[i].content.as_slice()),
                },
            );
        }
        i = i + 1;
    }
    proof {
        assert(all.take(i as int) == all);
        assert(statements(out@) =~= record_statements(known, fresh@, item));
    }
    if existed {
        (RecordResult::Existed(uuid), out)
    } else {
        (RecordResult::Inserted(uuid), out)
    }
}

// ---------------------------------------------------------------------------
// What the statements do
// ---------------------------------------------------------------------------

/// A row of the table of items.
pub struct ItemRow {
    pub kind: Kind,
    pub primary_mime: Seq<char>,
    pub primary_hash: [u8; 32],
    pub preview: Option<Seq<char>>,
    pub created_at: i64,
    pub last_used_at: i64,
}

/// The two tables, each by its key.
#[verifier::ext_equal]
pub struct Tables {
    pub items: Map<Seq<char>, ItemRow>,
    pub mimes: Map<(Seq<char>, Seq<char>), Seq<u8>>,
}

impl Tables {
    /// The content of an item's default representation.
    pub open spec fn content(self, u: Seq<char>) -> Seq<u8> {
        self.mimes[(u, self.items[u].primary_mime)]
    }

    /// No two items have the same hash, every representation belongs to an
    /// item, and every item has its default representation, whose hash it goes
    /// by.
    pub open spec fn wf(self) -> bool {
        &&& forall|u: Seq<char>, v: Seq<char>|
            #![trigger self.items[u], self.items[v]]
            self.items.contains_key(u) && self.items.contains_key(v)
                && self.items[u].primary_hash == self.items[v].primary_hash ==> u == v
        &&& forall|k: (Seq<char>, Seq<char>)| #[trigger]
            self.mimes.contains_key(k) ==> self.items.contains_key(k.0)
        &&& forall|u: Seq<char>| #[trigger]
            self.items.contains_key(u) ==> self.mimes.contains_key(
                (u, self.items[u].primary_mime),
            ) && self.items[u].primary_hash == blake3_hash(self.content(u))
    }

    /// Whether `found` is the item with a hash.
    pub open spec fn is_found(self, hash: [u8; 32], found: Option<Seq<char>>) -> bool {
        match found {
            Some(u) => self.items.contains_key(u) && self.items[u].primary_hash == hash,
            None => forall|u: Seq<char>| #[trigger]
                self.items.contains_key(u) ==> self.items[u].primary_hash != hash,
        }
    }

    /// The tables after one statement.
    pub open spec fn run(self, s: StatementView) -> Tables {
        match s {
            StatementView::Touch { uuid, ts } => if self.items.contains_key(uuid) {
                Tables {
                    items: self.items.insert(
                        uuid,
                        ItemRow { last_used_at: ts, ..self.items[uuid] },
                    ),
                    mimes: self.mimes,
                }
            } else {
                self
            },
            StatementView::InsertItem { uuid, kind, primary_mime, primary_hash, preview, ts } => {
                Tables {
                    items: self.items.insert(
                        uuid,
                        ItemRow {
                            kind,
                            primary_mime,
                            primary_hash,
                            preview,
                            created_at: ts,
                            last_used_at: ts,
                        },
                    ),
                    mimes: self.mimes,
                }
            },
            StatementView::KeepMime { uuid, mime, content } => if self.mimes.contains_key(
                (uuid, mime),
            ) {
                self
            } else {
                Tables { items: self.items, mimes: self.mimes.insert((uuid, mime), content) }
            },
        }
    }

    /// The tables after several statements.
    pub open spec fn run_all(self, v: Seq<StatementView>) -> Tables
        decreases v.len(),
    {
        if v.len() == 0 {
            self
        } else {
            self.run_all(v.drop_last()).run(v.last())
        }
    }

    /// The tables after an item was recorded.
    pub open spec fn record(
        self,
        found: Option<Seq<char>>,
        fresh: Seq<char>,
        item: Recorded,
    ) -> Tables {
        self.run_all(record_statements(found, fresh, item))
    }
}

proof fn lemma_run_all_concat(t: Tables, a: Seq<StatementView>, b: Seq<StatementView>)
    ensures
        t.run_all(a + b) == t.run_all(a).run_all(b),
    decreases b.len(),
{
    if b.len() == 0 {
        assert(a + b == a);
    } else {
        assert((a + b).drop_last() == a + b.drop_last());
        lemma_run_all_concat(t, a, b.drop_last());
    }
}

/// Whether no earlier representation has the same name.
pub open spec fn first_of_its_name(extras: Seq<(Seq<char>, Seq<u8>)>, i: int) -> bool {
    forall|j: int| 0 <= j < i ==> (#[trigger] extras[j]).0 != extras[i].0
}

/// Whether a representation has a name.
pub open spec fn has_name(extras: Seq<(Seq<char>, Seq<u8>)>, name: Seq<char>) -> bool {
    exists|i: int| 0 <= i < extras.len() && (#[trigger] extras[i]).0 == name
}

/// Keeping representations leaves the items alone and overwrites nothing; of
/// each name that was lacking, the first content is stored.
proof fn lemma_keep_extras(
    t: Tables,
    uuid: Seq<char>,
    primary_mime: Seq<char>,
    extras: Seq<(Seq<char>, Seq<u8>)>,
)
    ensures
        ({
            let after = t.run_all(keep_extras(uuid, primary_mime, extras));
            &&& after.items == t.items
            &&& forall|k: (Seq<char>, Seq<char>)| #[trigger]
                t.mimes.contains_key(k) ==> after.mimes.contains_key(k) && after.mimes[k]
                    == t.mimes[k]
            &&& forall|k: (Seq<char>, Seq<char>)| #[trigger]
                after.mimes.contains_key(k) ==> t.mimes.contains_key(k) || k.0 == uuid && k.1
                    != primary_mime && has_name(extras, k.1)
            &&& forall|i: int|
                0 <= i < extras.len() && (#[trigger] extras[i]).0 != primary_mime
                    ==> after.mimes.contains_key((uuid, extras[i].0))
            &&& forall|i: int|
                0 <= i < extras.len() && (#[trigger] extras[i]).0 != primary_mime
                    && first_of_its_name(extras, i) && !t.mimes.contains_key((uuid, extras[i].0))
                    ==> after.mimes[(uuid, extras[i].0)] == extras[i].1
        }),
    decreases extras.len(),
{
    if extras.len() > 0 {
        let front = extras.drop_last();
        lemma_keep_extras(t, uuid, primary_mime, front);
        let rest = keep_extras(uuid, primary_mime, front);
        let mid = t.run_all(rest);
        let last = extras.last();
        if last.0 != primary_mime {
            let s = StatementView::KeepMime { uuid, mime: last.0, content: last.1 };
            assert(rest.push(s).drop_last() == rest);
            assert(t.run_all(keep_extras(uuid, primary_mime, extras)) == mid.run(s));
        }
        let after = t.run_all(keep_extras(uuid, primary_mime, extras));
        assert forall|k: (Seq<char>, Seq<char>)| #[trigger]
            after.mimes.contains_key(k) implies t.mimes.contains_key(k) || k.0 == uuid && k.1
            != primary_mime && has_name(extras, k.1) by {
            if mid.mimes.contains_key(k) {
                if !t.mimes.contains_key(k) {
                    let i = choose|i: int| 0 <= i < front.len() && (#[trigger] front[i]).0 == k.1;
                    assert(extras[i].0 == k.1);
                }
            } else {
                assert(extras[extras.len() - 1].0 == k.1);
            }
        }
        assert forall|i: int|
            0 <= i < extras.len() && (#[trigger] extras[i]).0 != primary_mime implies after
            .mimes.contains_key((uuid, extras[i].0)) by {
            if i < extras.len() - 1 {
                assert(front[i] == extras[i]);
                assert(mid.mimes.contains_key((uuid, extras[i].0)));
            }
        }
        assert forall|i: int|
            0 <= i < extras.len() && (#[trigger] extras[i]).0 != primary_mime
                && first_of_its_name(extras, i) && !t.mimes.contains_key(
                (uuid, extras[i].0),
            ) implies after.mimes[(uuid, extras[i].0)] == extras[i].1 by {
            let k = (uuid, extras[i].0);
            if i < extras.len() - 1 {
                assert(front[i] == extras[i]);
                assert forall|j: int| 0 <= j < i implies (#[trigger] front[j]).0 != front[i].0 by {
                    assert(extras[j] == front[j]);
                }
                assert(mid.mimes.contains_key(k));
            } else if mid.mimes.contains_key(k) {
                let j = choose|j: int| 0 <= j < front.len() && (#[trigger] front[j]).0 == k.1;
                assert(extras[j].0 == extras[i].0);
            }
        }
    }
}

/// The id that a recorded item goes by.
pub open spec fn recorded_id(found: Option<Seq<char>>, fresh: Seq<char>) -> Seq<char> {
    match found {
        Some(u) => u,
        None => fresh,
    }
}

/// The tables after the first two of the statements that record an item.
proof fn lemma_record_begins(
    t: Tables,
    found: Option<Seq<char>>,
    fresh: Seq<char>,
    item: Recorded,
) -> (two: Tables)
    ensures
        ({
            let id = recorded_id(found, fresh);
            let all = record_statements(found, fresh, item);
            &&& two == t.run(all[0]).run(all[1])
            &&& t.record(found, fresh, item) == two.run_all(
                keep_extras(id, item.primary_mime, item.extras),
            )
        }),
{
    let id = recorded_id(found, fresh);
    let all = record_statements(found, fresh, item);
    let head = all.take(2);
    let tail = keep_extras(id, item.primary_mime, item.extras);
    assert(all == head + tail);
    lemma_run_all_concat(t, head, tail);
    let one = t.run(head[0]);
    let two = one.run(head[1]);
    assert(head.drop_last() == seq![head[0]]);
    assert(seq![head[0]].drop_last() == Seq::<StatementView>::empty());
    assert(t.run_all(Seq::<StatementView>::empty()) == t);
    assert(t.run_all(seq![head[0]]) == one);
    assert(t.run_all(head) == two);
    two
}

/// Recording an item leaves one item per hash; a known item keeps everything
/// but its last use, a new one is all that is added and is as it was recorded.
pub proof fn law_record_keeps_one_item_per_content(
    t: Tables,
    found: Option<Seq<char>>,
    fresh: Seq<char>,
    item: Recorded,
)
    requires
        t.wf(),
        t.is_found(blake3_hash(item.primary_content), found),
        !t.items.contains_key(fresh),
    ensures
        ({
            let after = t.record(found, fresh, item);
            let id = recorded_id(found, fresh);
            &&& after.wf()
            &&& after.items.dom() == t.items.dom().insert(id)
            &&& after.items[id] == (match found {
                Some(_) => ItemRow { last_used_at: item.ts, ..t.items[id] },
                None => ItemRow {
                    kind: item.kind,
                    primary_mime: item.primary_mime,
                    primary_hash: blake3_hash(item.primary_content),
                    preview: item.preview,
                    created_at: item.ts,
                    last_used_at: item.ts,
                },
            })
            &&& after.items[id].primary_hash == blake3_hash(item.primary_content)
            &&& forall|u: Seq<char>|
                u != id && t.items.contains_key(u) ==> #[trigger] after.items[u] == t.items[u]
        }),
{
    let hash = blake3_hash(item.primary_content);
    let id = recorded_id(found, fresh);
    let two = lemma_record_begins(t, found, fresh, item);
    lemma_keep_extras(two, id, item.primary_mime, item.extras);
    law_record_stores_every_representation(t, found, fresh, item);
    let after = t.record(found, fresh, item);
    assert(after.items.dom() =~= t.items.dom().insert(id));
    assert forall|u: Seq<char>, v: Seq<char>|
        #![trigger after.items[u], after.items[v]]
        after.items.contains_key(u) && after.items.contains_key(v) && after.items[u].primary_hash
            == after.items[v].primary_hash implies u == v by {
        if u != id && v != id {
            assert(t.items.contains_key(u) && t.items.contains_key(v));
            assert(t.items[u].primary_hash == t.items[v].primary_hash);
        } else if u != id {
            assert(t.items.contains_key(u));
            assert(t.items[u].primary_hash == hash);
            if let Some(f) = found {
                assert(t.items[f].primary_hash == t.items[u].primary_hash);
            }
        } else if v != id {
            assert(t.items.contains_key(v));
            assert(t.items[v].primary_hash == hash);
            if let Some(f) = found {
                assert(t.items[f].primary_hash == t.items[v].primary_hash);
            }
        }
    }
    assert forall|u: Seq<char>| #[trigger] after.items.contains_key(u) implies after
        .mimes.contains_key((u, after.items[u].primary_mime)) && after.items[u].primary_hash
        == blake3_hash(after.content(u)) by {
        if t.items.contains_key(u) {
            assert(t.mimes.contains_key((u, t.items[u].primary_mime)));
            assert(after.items[u].primary_mime == t.items[u].primary_mime);
        }
    }
}

/// Recording an item stores every representation that it comes with, each
/// where the item had none of that name: the content of the default one, and
/// the first content of every other name. What was stored before stays, and
/// nothing else is added.
pub proof fn law_record_stores_every_representation(
    t: Tables,
    found: Option<Seq<char>>,
    fresh: Seq<char>,
    item: Recorded,
)
    requires
        t.wf(),
        !t.items.contains_key(fresh),
    ensures
        ({
            let after = t.record(found, fresh, item);
            let id = recorded_id(found, fresh);
            &&& after.mimes.contains_key((id, item.primary_mime))
            &&& !t.mimes.contains_key((id, item.primary_mime)) ==> after.mimes[(
                id,
                item.primary_mime,
            )] == item.primary_content
            &&& found is None ==> after.mimes[(id, item.primary_mime)] == item.primary_content
            &&& forall|i: int|
                0 <= i < item.extras.len() ==> after.mimes.contains_key(
                    (id, (#[trigger] item.extras[i]).0),
                )
            &&& forall|i: int|
                0 <= i < item.extras.len() && (#[trigger] item.extras[i]).0 != item.primary_mime
                    && first_of_its_name(item.extras, i) && !t.mimes.contains_key(
                    (id, item.extras[i].0),
                ) ==> after.mimes[(id, item.extras[i].0)] == item.extras[i].1
            &&& found is None ==> forall|i: int|
                0 <= i < item.extras.len() && (#[trigger] item.extras[i]).0 != item.primary_mime
                    && first_of_its_name(item.extras, i) ==> after.mimes[(id, item.extras[i].0)]
                    == item.extras[i].1
            &&& forall|k: (Seq<char>, Seq<char>)| #[trigger]
                t.mimes.contains_key(k) ==> after.mimes.contains_key(k) && after.mimes[k]
                    == t.mimes[k]
            &&& forall|k: (Seq<char>, Seq<char>)| #[trigger]
                after.mimes.contains_key(k) ==> t.mimes.contains_key(k) || k.0 == id && (k.1
                    == item.primary_mime || has_name(item.extras, k.1))
        }),
{
    let id = recorded_id(found, fresh);
    let two = lemma_record_begins(t, found, fresh, item);
    lemma_keep_extras(two, id, item.primary_mime, item.extras);
    assert(two.mimes.contains_key((id, item.primary_mime)));
    let after = t.record(found, fresh, item);
    if found is None {
        assert forall|m: Seq<char>| !t.mimes.contains_key((id, m)) by {
            if t.mimes.contains_key((id, m)) {
                assert(t.items.contains_key((id, m).0));
            }
        }
    }
    assert forall|i: int| 0 <= i < item.extras.len() implies after.mimes.contains_key(
        (id, (#[trigger] item.extras[i]).0),
    ) by {
        if item.extras[i].0 == item.primary_mime {
            assert(two.mimes.contains_key((id, item.primary_mime)));
        }
    }
    assert forall|k: (Seq<char>, Seq<char>)| #[trigger] t.mimes.contains_key(k) implies after
        .mimes.contains_key(k) && after.mimes[k] == t.mimes[k] by {
        assert(two.mimes.contains_key(k) && two.mimes[k] == t.mimes[k]);
    }
}

/// Content that an item has already goes to that item: none is added, the item
/// was used now, what it holds stays, and so does every other item.
pub proof fn law_known_content_is_not_recorded_twice(
    t: Tables,
    found: Option<Seq<char>>,
    fresh: Seq<char>,
    item: Recorded,
    known: Seq<char>,
)
    requires
        t.wf(),
        t.is_found(blake3_hash(item.primary_content), found),
        !t.items.contains_key(fresh),
        t.items.contains_key(known),
        t.content(known) == item.primary_content,
    ensures
        ({
            let after = t.record(found, fresh, item);
            &&& found == Some(known)
            &&& after.items == t.items.insert(
                known,
                ItemRow { last_used_at: item.ts, ..t.items[known] },
            )
            &&& after.content(known) == item.primary_content
        }),
{
    law_record_keeps_one_item_per_content(t, found, fresh, item);
    law_record_stores_every_representation(t, found, fresh, item);
    assert(t.items[known].primary_hash == blake3_hash(item.primary_content));
    if let Some(f) = found {
        assert(t.items[f].primary_hash == t.items[known].primary_hash);
    }
    let after = t.record(found, fresh, item);
    assert(t.mimes.contains_key((known, t.items[known].primary_mime)));
    assert(after.items =~= t.items.insert(
        known,
        ItemRow { last_used_at: item.ts, ..t.items[known] },
    ));
}

/// Content that no item's hash stands for becomes an item of its own, with
/// this content, beside the others.
pub proof fn law_new_content_becomes_an_item(
    t: Tables,
    fresh: Seq<char>,
    item: Recorded,
)
    requires
        t.wf(),
        t.is_found(blake3_hash(item.primary_content), None),
        !t.items.contains_key(fresh),
    ensures
        ({
            let after = t.record(None, fresh, item);
            &&& forall|u: Seq<char>| #[trigger]
                t.items.contains_key(u) ==> t.content(u) != item.primary_content
            &&& after.items == t.items.insert(fresh, after.items[fresh])
            &&& after.items[fresh].created_at == item.ts
            &&& after.items[fresh].last_used_at == item.ts
            &&& after.items[fresh].kind == item.kind
            &&& after.items[fresh].primary_mime == item.primary_mime
            &&& after.items[fresh].preview == item.preview
            &&& after.content(fresh) == item.primary_content
        }),
{
    law_record_keeps_one_item_per_content(t, None, fresh, item);
    law_record_stores_every_representation(t, None, fresh, item);
    let after = t.record(None, fresh, item);
    assert(after.items =~= t.items.insert(fresh, after.items[fresh]));
}

/// Whether no item's content shares the hash of other content.
pub open spec fn no_collision(t: Tables, content: Seq<u8>) -> bool {
    forall|u: Seq<char>| #[trigger]
        t.items.contains_key(u) && blake3_hash(t.content(u)) == blake3_hash(content) ==> t.content(
            u,
        ) == content
}

/// Items are recorded by their content, as long as no two contents share a
/// hash. Content that an item has goes to that item: none is added, the item
/// was used now, and all else of it stays. Other content becomes an item of its
/// own, as it was recorded. Either way the representations that the item
/// lacked are added, what was stored stays, and so does every other item.
pub proof fn law_items_are_recorded_by_content(
    t: Tables,
    found: Option<Seq<char>>,
    fresh: Seq<char>,
    item: Recorded,
)
    requires
        t.wf(),
        t.is_found(blake3_hash(item.primary_content), found),
        !t.items.contains_key(fresh),
        no_collision(t, item.primary_content),
    ensures
        ({
            let after = t.record(found, fresh, item);
            let id = recorded_id(found, fresh);
            &&& found is Some == exists|u: Seq<char>| #[trigger]
                t.items.contains_key(u) && t.content(u) == item.primary_content
            &&& found matches Some(u) ==> t.items.contains_key(u) && t.content(u)
                == item.primary_content
            &&& after.items == t.items.insert(
                id,
                match found {
                    Some(_) => ItemRow { last_used_at: item.ts, ..t.items[id] },
                    None => ItemRow {
                        kind: item.kind,
                        primary_mime: item.primary_mime,
                        primary_hash: blake3_hash(item.primary_content),
                        preview: item.preview,
                        created_at: item.ts,
                        last_used_at: item.ts,
                    },
                },
            )
            &&& after.content(id) == item.primary_content
            &&& after.mimes.contains_key((id, item.primary_mime))
            &&& !t.mimes.contains_key((id, item.primary_mime)) ==> after.mimes[(
                id,
                item.primary_mime,
            )] == item.primary_content
            &&& forall|i: int|
                0 <= i < item.extras.len() ==> after.mimes.contains_key(
                    (id, (#[trigger] item.extras[i]).0),
                )
            &&& forall|i: int|
                0 <= i < item.extras.len() && (#[trigger] item.extras[i]).0 != item.primary_mime
                    && first_of_its_name(item.extras, i) && !t.mimes.contains_key(
                    (id, item.extras[i].0),
                ) ==> after.mimes[(id, item.extras[i].0)] == item.extras[i].1
            &&& forall|k: (Seq<char>, Seq<char>)| #[trigger]
                t.mimes.contains_key(k) ==> after.mimes.contains_key(k) && after.mimes[k]
                    == t.mimes[k]
            &&& forall|k: (Seq<char>, Seq<char>)| #[trigger]
                after.mimes.contains_key(k) ==> t.mimes.contains_key(k) || k.0 == id
        }),
{
    law_record_keeps_one_item_per_content(t, found, fresh, item);
    law_record_stores_every_representation(t, found, fresh, item);
    let after = t.record(found, fresh, item);
    let id = recorded_id(found, fresh);
    match found {
        Some(u) => {
            assert(t.items.contains_key(u) && t.content(u) == item.primary_content);
            assert(t.mimes.contains_key((u, t.items[u].primary_mime)));
        },
        None => {
            law_new_content_becomes_an_item(t, fresh, item);
        },
    }
    assert(after.items =~= t.items.insert(id, after.items[id]));
}

/// What was recorded is found again: a second item of the same content goes
/// by the id of the first.
pub proof fn law_recorded_content_is_found_again(
    t: Tables,
    found: Option<Seq<char>>,
    fresh: Seq<char>,
    item: Recorded,
    again: Option<Seq<char>>,
)
    requires
        t.wf(),
        t.is_found(blake3_hash(item.primary_content), found),
        !t.items.contains_key(fresh),
        t.record(found, fresh, item).is_found(blake3_hash(item.primary_content), again),
    ensures
        again == Some(recorded_id(found, fresh)),
{
    law_record_keeps_one_item_per_content(t, found, fresh, item);
    let after = t.record(found, fresh, item);
    let id = recorded_id(found, fresh);
    assert(after.items.contains_key(id));
    if let Some(a) = again {
        assert(after.items[a].primary_hash == after.items[id].primary_hash);
    }
}

// ---------------------------------------------------------------------------
// Pages
// ---------------------------------------------------------------------------

/// The representations among `rows` that belong to an item.
pub open spec fn rows_of(
    rows: Seq<(Seq<char>, (Seq<char>, Seq<u8>))>,
    uuid: Seq<char>,
) -> Seq<(Seq<char>, Seq<u8>)>
    decreases rows.len(),
{
    if rows.len() == 0 {
        Seq::empty()
    } else if rows.last().0 == uuid {
        rows_of(rows.drop_last(), uuid).push(rows.last().1)
    } else {
        rows_of(rows.drop_last(), uuid)
    }
}

/// What rows hold.
pub open spec fn row_views(rows: Seq<(String, MimeContent)>) -> Seq<
    (Seq<char>, (Seq<char>, Seq<u8>)),
> {
    rows.map_values(|r: (String, MimeContent)| (r.0@, r.1@))
}

/// Whether no later entry of a page has the same id.
pub open spec fn last_of_its_id(page: Seq<Entry>, i: int) -> bool {
    forall|k: int| i < k < page.len() ==> (#[trigger] page[k]).uuid@ != page[i].uuid@
}

fn is_last_of_its_id(page: &Vec<Entry>, i: usize) -> (r: bool)
    requires
        i < page@.len(),
    ensures
        r == last_of_its_id(page@, i as int),
{
    assert(page@.len() == page.len());
    let mut k: usize = i + 1;
    while k < page.len()
        invariant
            i < page@.len(),
            i < k <= page@.len(),
            forall|j: int| i < j < k ==> (#[trigger] page@[j]).uuid@ != page@[i as int].uuid@,
        decreases page.len() - k,
    {
        if text::str_eq(page[k].uuid.as_str(), page[i].uuid.as_str()) {
            return false;
        }
        k = k + 1;
    }
    true
}

/// Gives the entries of a page their representations, in the order of the
/// rows. Should an id occur more than once, its last entry gets them.
pub fn stitch(page: Vec<Entry>, rows: &Vec<(String, MimeContent)>) -> (r: Vec<Entry>)
    ensures
        r@.len() == page@.len(),
        forall|i: int|
            0 <= i < r@.len() ==> (#[trigger] r@[i])@ == (EntryView {
                mimes: if last_of_its_id(page@, i) {
                    page@[i]@.mimes + rows_of(row_views(rows@), page@[i].uuid@)
                } else {
                    page@[i]@.mimes
                },
                ..page@[i]@
            }),
{
    let mut out: Vec<Entry> = Vec::new();
    let ghost all = row_views(rows@);
    let mut i: usize = 0;
    while i < page.len()
        invariant
            all == row_views(rows@),
            i <= page@.len(),
            out@.len() == i,
            forall|k: int|
                0 <= k < i ==> (#[trigger] out@[k])@ == (EntryView {
                    mimes: if last_of_its_id(page@, k) {
                        page@[k]@.mimes + rows_of(all, page@[k].uuid@)
                    } else {
                        page@[k]@.mimes
                    },
                    ..page@[k]@
                }),
        decreases page.len() - i,
    {
        let e = &page[i];
        let mut mimes: Vec<MimeContent> = Vec::new();
        let mut k: usize = 0;
        proof {
            assert(model::contents(mimes@) =~= e@.mimes.take(0));
        }
        while k < e.mimes.len()
            invariant
                k <= e.mimes@.len(),
                model::contents(mimes@) == e@.mimes.take(k as int),
            decreases e.mimes.len() - k,
        {
            let ghost had = model::contents(mimes@);
            mimes.push(e.mimes[k].clone());
            proof {
                assert(model::contents(mimes@) =~= had.push(e.mimes@[k as int]@));
                assert(e@.mimes.take(k + 1) =~= e@.mimes.take(k as int).push(e@.mimes[k as int]));
            }
            k = k + 1;
        }
        proof {
            assert(e@.mimes.take(k as int) == e@.mimes);
        }
        if is_last_of_its_id(&page, i) {
            let mut j: usize = 0;
            proof {
                assert(all.take(0) == Seq::<(Seq<char>, (Seq<char>, Seq<u8>))>::empty());
                assert(e@.mimes + Seq::<(Seq<char>, Seq<u8>)>::empty() == e@.mimes);
            }
            while j < rows.len()
                invariant
                    all == row_views(rows@),
                    j <= rows@.len(),
                    model::contents(mimes@) == e@.mimes + rows_of(all.take(j as int), e.uuid@),
                decreases rows.len() - j,
            {
                proof {
                    assert(all.take(j + 1).drop_last() == all.take(j as int));
                    assert(all.take(j + 1).last() == (rows@[j as int].0@, rows@[j as int].1@));
                }
                if text::str_eq(rows[j].0.as_str(), e.uuid.as_str()) {
                    let ghost had = model::contents(mimes@);
                    mimes.push(rows[j].1.clone());
                    proof {
                        assert(model::contents(mimes@) =~= had.push(rows@[j as int].1@));
                        assert(model::contents(mimes@) =~= e@.mimes + rows_of(
                            all.take(j + 1),
                            e.uuid@,
                        ));
                    }
                }
                j = j + 1;
            }
            proof {
                assert(all.take(j as int) == all);
            }
        }
        let entry = Entry {
            uuid: e.uuid.clone(),
            kind: e.kind,
            primary_mime: e.primary_mime.clone(),
            preview: text::clone_opt(&e.preview),
            created_at: e.created_at,
            last_used_at: e.last_used_at,
            mimes,
        };
        out.push(entry);
        i = i + 1;
    }
    out
}

proof fn lemma_rows_of(rows: Seq<(Seq<char>, (Seq<char>, Seq<u8>))>, uuid: Seq<char>)
    ensures
        forall|c: (Seq<char>, Seq<u8>)| #[trigger]
            rows_of(rows, uuid).contains(c) <==> rows.contains((uuid, c)),
    decreases rows.len(),
{
    if rows.len() > 0 {
        let t = rows.drop_last();
        lemma_rows_of(t, uuid);
        assert(t.push(rows.last()) =~= rows);
        sorting::lemma_push_holds(t, rows.last());
        sorting::lemma_push_holds(rows_of(t, uuid), rows.last().1);
        assert forall|c: (Seq<char>, Seq<u8>)| #[trigger] rows_of(rows, uuid).contains(
            c,
        ) <==> rows.contains((uuid, c)) by {
            assert(rows.contains((uuid, c)) <==> t.contains((uuid, c)) || (uuid, c) == rows.last());
        }
    }
}

/// Each item of a page gets exactly the representations that were stored for it;
/// nothing else of it changes, and the order stays.
pub proof fn law_items_get_their_representations(
    page: Vec<Entry>,
    rows: Vec<(String, MimeContent)>,
    r: Vec<Entry>,
    i: int,
    c: (Seq<char>, Seq<u8>),
)
    requires
        call_ensures(stitch, (page, &rows), r),
        0 <= i < page@.len(),
        page@[i]@.mimes.len() == 0,
        forall|k: int| i < k < page@.len() ==> (#[trigger] page@[k]).uuid@ != page@[i].uuid@,
    ensures
        r@.len() == page@.len(),
        r@[i]@.uuid == page@[i]@.uuid && r@[i]@.kind == page@[i]@.kind && r@[i]@.primary_mime
            == page@[i]@.primary_mime && r@[i]@.preview == page@[i]@.preview,
        r@[i]@.mimes.contains(c) <==> row_views(rows@).contains((page@[i].uuid@, c)),
{
    assert(last_of_its_id(page@, i));
    let x = r@[i];
    let stored = rows_of(row_views(rows@), page@[i].uuid@);
    lemma_rows_of(row_views(rows@), page@[i].uuid@);
    assert(x@.mimes == page@[i]@.mimes + stored);
    assert(page@[i]@.mimes + stored =~= stored);
}

} // verus!
