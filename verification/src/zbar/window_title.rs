//! The title of the focused window.

use vstd::prelude::*;
use vstd::string::*;

use std::collections::HashMap;

use crate::json;
use crate::json::Json;
use crate::json::JsonView;
use crate::text;

verus! {

broadcast use vstd::std_specs::hash::group_hash_axioms;

/// Who tells the title.
#[derive(Clone, Copy, Debug, PartialEq, Eq, Structural)]
pub enum TitleSource {
    Sway,
    Niri,
    Nobody,
}

/// The source to use: sway where its socket accepts a connection, else niri
/// where it runs, else none.
pub fn detect_title_source(sway_answers: bool, niri_answers: bool) -> (r: TitleSource)
    ensures
        r == (if sway_answers {
            TitleSource::Sway
        } else if niri_answers {
            TitleSource::Niri
        } else {
            TitleSource::Nobody
        }),
{
    if sway_answers {
        TitleSource::Sway
    } else if niri_answers {
        TitleSource::Niri
    } else {
        TitleSource::Nobody
    }
}

/// What a tracker knows.
#[verifier::ext_equal]
pub struct Titles {
    pub titles: Map<u64, Seq<char>>,
    pub focused: Option<u64>,
}

impl Titles {
    /// The title of the focused window, if both are known.
    pub open spec fn current(self) -> Option<Seq<char>> {
        match self.focused {
            Some(id) => if self.titles.contains_key(id) {
                Some(self.titles[id])
            } else {
                None
            },
            None => None,
        }
    }

    /// After a description of one window: a window without an id says nothing.
    pub open spec fn upsert(self, w: JsonView) -> Titles {
        match json::number_member(w, "id"@) {
            Some(id) => Titles {
                titles: match json::text_member(w, "title"@) {
                    Some(t) => self.titles.insert(id, t),
                    None => self.titles,
                },
                focused: if json::true_member(w, "is_focused"@) {
                    Some(id)
                } else {
                    self.focused
                },
            },
            None => self,
        }
    }

    /// After the descriptions of several windows.
    pub open spec fn upsert_all(self, ws: Seq<JsonView>) -> Titles
        decreases ws.len(),
    {
        if ws.len() == 0 {
            self
        } else {
            self.upsert_all(ws.drop_last()).upsert(ws.last())
        }
    }

    /// After the event `kind` with its payload.
    pub open spec fn after(self, kind: Seq<char>, payload: JsonView) -> Titles {
        if kind == "WindowsChanged"@ {
            let cleared = Titles { titles: Map::empty(), focused: None };
            match payload.member("windows"@) {
                Some(JsonView::Array(ws)) => cleared.upsert_all(ws),
                _ => cleared,
            }
        } else if kind == "WindowOpenedOrChanged"@ {
            match payload.member("window"@) {
                Some(w) => self.upsert(w),
                None => self,
            }
        } else if kind == "WindowClosed"@ {
            match json::number_member(payload, "id"@) {
                Some(id) => Titles {
                    titles: self.titles.remove(id),
                    focused: if self.focused == Some(id) {
                        None
                    } else {
                        self.focused
                    },
                },
                None => self,
            }
        } else if kind == "WindowFocusChanged"@ {
            Titles { titles: self.titles, focused: json::number_member(payload, "id"@) }
        } else {
            self
        }
    }

    /// After all members of a message.
    pub open spec fn after_all(self, members: Seq<(Seq<char>, JsonView)>) -> Titles
        decreases members.len(),
    {
        if members.len() == 0 {
            self
        } else {
            self.after_all(members.drop_last()).after(members.last().0, members.last().1)
        }
    }

    /// After a message; what is no object says nothing.
    pub open spec fn after_message(self, event: JsonView) -> Titles {
        match event {
            JsonView::Object(m) => self.after_all(m),
            _ => self,
        }
    }
}

/// Follows niri's event stream.
pub struct NiriTitleTracker {
    titles: HashMap<u64, String>,
    focused: Option<u64>,
}

impl View for NiriTitleTracker {
    type V = Titles;

    closed spec fn view(&self) -> Titles {
        Titles {
            titles: self.titles@.map_values(|s: String| s@),
            focused: self.focused,
        }
    }
}

impl NiriTitleTracker {
    /// A tracker that knows nothing.
    pub fn new() -> (r: Self)
        ensures
            r@ == (Titles { titles: Map::empty(), focused: None }),
    {
        let r = NiriTitleTracker { titles: HashMap::new(), focused: None };
        proof {
            assert(r@.titles =~= Map::<u64, Seq<char>>::empty());
        }
        r
    }

    /// Takes one message; returns the focused window's title after it.
    pub fn apply(&mut self, event: &Json) -> (r: Option<String>)
        ensures
            final(self)@ == old(self)@.after_message(event@),
            text::opt(r) == final(self)@.current(),
    {
        if let Json::Object(members) = event {
            let ghost all = json::members_of(members@, members@.len());
            let ghost before = self@;
            let mut i: usize = 0;
            proof {
                json::lemma_members(members@, members@.len());
                assert(all.take(0) == Seq::<(Seq<char>, JsonView)>::empty());
            }
            while i < members.len()
                invariant
                    i <= members@.len(),
                    all.len() == members@.len(),
                    forall|k: int|
                        0 <= k < members@.len() ==> (#[trigger] all[k]) == (
                            members@[k].0@,
                            json::value_of(members@[k].1),
                        ),
                    self@ == before.after_all(all.take(i as int)),
                decreases members.len() - i,
            {
                proof {
                    assert(all.take(i + 1).drop_last() == all.take(i as int));
                    assert(all.take(i + 1).last() == all[i as int]);
                }
                self.apply_one(members[i].0.as_str(), &members[i].1);
                i = i + 1;
            }
            proof {
                assert(all.take(i as int) == all);
            }
        }
        self.current()
    }

    fn apply_one(&mut self, kind: &str, payload: &Json)
        ensures
            final(self)@ == old(self)@.after(kind@, payload@),
    {
        let ghost before = self@;
        if text::str_eq(kind, "WindowsChanged") {
            self.titles = HashMap::new();
            self.focused = None;
            let ghost cleared = Titles { titles: Map::empty(), focused: None };
            proof {
                assert(self@.titles =~= cleared.titles);
            }
            if let Some(Json::Array(ws)) = payload.get("windows") {
                let ghost all = json::values_of(ws@, ws@.len());
                let mut i: usize = 0;
                proof {
                    json::lemma_values(ws@, ws@.len());
                    assert(all.take(0) == Seq::<JsonView>::empty());
                }
                while i < ws.len()
                    invariant
                        i <= ws@.len(),
                        all.len() == ws@.len(),
                        forall|k: int|
                            0 <= k < ws@.len() ==> (#[trigger] all[k]) == json::value_of(ws@[k]),
                        self@ == cleared.upsert_all(all.take(i as int)),
                    decreases ws.len() - i,
                {
                    proof {
                        assert(all.take(i + 1).drop_last() == all.take(i as int));
                        assert(all.take(i + 1).last() == all[i as int]);
                    }
                    self.upsert_window(&ws[i]);
                    i = i + 1;
                }
                proof {
                    assert(all.take(i as int) == all);
                }
            }
        } else if text::str_eq(kind, "WindowOpenedOrChanged") {
            if let Some(w) = payload.get("window") {
                self.upsert_window(w);
            }
        } else if text::str_eq(kind, "WindowClosed") {
            if let Some(id) = payload.get_u64("id") {
                self.titles.remove(&id);
                if let Some(f) = self.focused {
                    if f == id {
                        self.focused = None;
                    }
                }
                proof {
                    assert(self@.titles =~= before.titles.remove(id));
                }
            }
        } else if text::str_eq(kind, "WindowFocusChanged") {
            self.focused = payload.get_u64("id");
        }
    }

    fn upsert_window(&mut self, w: &Json)
        ensures
            final(self)@ == old(self)@.upsert(w@),
    {
        let ghost before = self@;
        if let Some(id) = w.get_u64("id") {
            if let Some(title) = w.get_text("title") {
                self.titles.insert(id, title);
                proof {
                    assert(self@.titles =~= before.titles.insert(id, title@));
                }
            }
            if w.get_true("is_focused") {
                self.focused = Some(id);
            }
        }
    }

    /// The title of the focused window, if both are known.
    pub fn current(&self) -> (r: Option<String>)
        ensures
            text::opt(r) == self@.current(),
    {
        match self.focused {
            Some(id) => match self.titles.get(&id) {
                Some(t) => Some(t.clone()),
                None => None,
            },
            None => None,
        }
    }
}

/// Reads niri's event stream line by line.
pub struct NiriSession {
    tracker: NiriTitleTracker,
    last_emitted: Option<String>,
}

impl NiriSession {
    /// What the session knows of the windows.
    pub closed spec fn titles(&self) -> Titles {
        self.tracker@
    }

    /// The title told last.
    pub closed spec fn told(&self) -> Option<Seq<char>> {
        text::opt(self.last_emitted)
    }

    /// A session in which nothing was told yet.
    pub fn new() -> (r: Self)
        ensures
            r.titles() == (Titles { titles: Map::empty(), focused: None }),
            r.told() is None,
    {
        NiriSession { tracker: NiriTitleTracker::new(), last_emitted: None }
    }

    /// Takes a parsed line, if it was JSON; returns the title to tell, where
    /// it changed.
    pub fn on_event(&mut self, event: Option<Json>) -> (r: Option<Option<String>>)
        ensures
            final(self).titles() == (match event {
                Some(e) => old(self).titles().after_message(e@),
                None => old(self).titles(),
            }),
            match r {
                Some(t) => {
                    &&& event is Some
                    &&& text::opt(t) == final(self).titles().current()
                    &&& text::opt(t) != old(self).told()
                    &&& final(self).told() == text::opt(t)
                },
                None => {
                    &&& final(self).told() == old(self).told()
                    &&& event is Some ==> final(self).titles().current() == old(self).told()
                },
            },
    {
        match event {
            Some(e) => {
                let current = self.tracker.apply(&e);
                if text::opt_eq(&current, &self.last_emitted) {
                    None
                } else {
                    self.last_emitted = text::clone_opt(&current);
                    Some(current)
                }
            },
            None => None,
        }
    }

    /// Takes one line of the stream; what is not JSON is passed over.
    pub fn on_line(&mut self, line: &str) -> (r: Option<Option<String>>)
        ensures
            final(self).titles() == (match json::json_text(line@) {
                Some(e) => old(self).titles().after_message(e),
                None => old(self).titles(),
            }),
            match r {
                Some(t) => {
                    &&& json::json_text(line@) is Some
                    &&& text::opt(t) == final(self).titles().current()
                    &&& text::opt(t) != old(self).told()
                    &&& final(self).told() == text::opt(t)
                },
                None => {
                    &&& final(self).told() == old(self).told()
                    &&& json::json_text(line@) is Some ==> final(self).titles().current() == old(
                        self,
                    ).told()
                },
            },
    {
        let event = json::parse_json(line);
        self.on_event(event)
    }
}

/// The module's text.
#[derive(Debug)]
pub struct WindowTitleModule {
    pub title: Option<String>,
}

impl WindowTitleModule {
    /// The module before a title is told.
    pub fn new() -> (r: Self)
        ensures
            r.title is None,
    {
        WindowTitleModule { title: None }
    }

    /// Takes a title.
    pub fn update(&mut self, title: Option<String>)
        ensures
            final(self).title == title,
    {
        self.title = title;
    }

    /// What is drawn: nothing without a title.
    pub fn shown(&self) -> (r: String)
        ensures
            r@ == (match self.title {
                Some(t) => t@,
                None => Seq::<char>::empty(),
            }),
    {
        match &self.title {
            Some(t) => t.clone(),
            None => String::new(),
        }
    }
}

/// Closing the focused window leaves no title.
pub proof fn law_closing_the_focused_window_clears_the_title(
    t: Titles,
    payload: JsonView,
)
    requires
        t.focused is Some,
        json::number_member(payload, "id"@) == t.focused,
    ensures
        t.after("WindowClosed"@, payload).current() is None,
{
    reveal_strlit("WindowClosed");
    reveal_strlit("WindowsChanged");
    reveal_strlit("WindowOpenedOrChanged");
    assert("WindowClosed"@.len() != "WindowsChanged"@.len());
    assert("WindowClosed"@.len() != "WindowOpenedOrChanged"@.len());
}

/// A list of all windows of which none is focused leaves no title, whatever
/// was focused before.
pub proof fn law_a_list_without_focus_clears_the_title(
    t: Titles,
    payload: JsonView,
    ws: Seq<JsonView>,
)
    requires
        payload.member("windows"@) == Some(JsonView::Array(ws)),
        forall|i: int| 0 <= i < ws.len() ==> !json::true_member(#[trigger] ws[i], "is_focused"@),
    ensures
        t.after("WindowsChanged"@, payload).current() is None,
{
    lemma_no_focus(Titles { titles: Map::empty(), focused: None }, ws);
}

proof fn lemma_no_focus(t: Titles, ws: Seq<JsonView>)
    requires
        t.focused is None,
        forall|i: int| 0 <= i < ws.len() ==> !json::true_member(#[trigger] ws[i], "is_focused"@),
    ensures
        t.upsert_all(ws).focused is None,
    decreases ws.len(),
{
    if ws.len() > 0 {
        assert forall|i: int| 0 <= i < ws.drop_last().len() implies !json::true_member(
            #[trigger] ws.drop_last()[i],
            "is_focused"@,
        ) by {
            assert(ws.drop_last()[i] == ws[i]);
        }
        lemma_no_focus(t, ws.drop_last());
        assert(!json::true_member(ws[ws.len() - 1], "is_focused"@));
    }
}

proof fn lemma_event_names()
    ensures
        "WindowsChanged"@ != "WindowOpenedOrChanged"@,
        "WindowsChanged"@ != "WindowClosed"@,
        "WindowsChanged"@ != "WindowFocusChanged"@,
        "WindowOpenedOrChanged"@ != "WindowClosed"@,
        "WindowOpenedOrChanged"@ != "WindowFocusChanged"@,
        "WindowClosed"@ != "WindowFocusChanged"@,
{
    reveal_strlit("WindowsChanged");
    reveal_strlit("WindowOpenedOrChanged");
    reveal_strlit("WindowClosed");
    reveal_strlit("WindowFocusChanged");
    assert("WindowsChanged"@.len() == 14);
    assert("WindowOpenedOrChanged"@.len() == 21);
    assert("WindowClosed"@.len() == 12);
    assert("WindowFocusChanged"@.len() == 18);
}

/// Whether `n` is `t` but for the title of window `id`.
pub open spec fn same_but(t: Titles, n: Titles, id: u64) -> bool {
    forall|i: u64|
        i != id ==> (#[trigger] n.titles.contains_key(i) <==> t.titles.contains_key(i)) && (
        t.titles.contains_key(i) ==> n.titles[i] == t.titles[i])
}

/// A window that opens or changes has the title that is given, or keeps its
/// own, and takes the focus exactly if it says so. A window that is closed has
/// no title and no focus. A focus event moves the focus to the window that it
/// names, or to none. Nothing else changes.
pub proof fn law_titles_follow_the_events(t: Titles, payload: JsonView, w: JsonView, id: u64)
    ensures
        payload.member("window"@) == Some(w) && json::number_member(w, "id"@) == Some(id) ==> {
            let n = t.after("WindowOpenedOrChanged"@, payload);
            &&& same_but(t, n, id)
            &&& json::text_member(w, "title"@) is Some ==> n.titles.contains_key(id)
                && n.titles[id] == json::text_member(w, "title"@)->0
            &&& json::text_member(w, "title"@) is None ==> n.titles == t.titles
            &&& n.focused == (if json::true_member(w, "is_focused"@) {
                Some(id)
            } else {
                t.focused
            })
        },
        json::number_member(payload, "id"@) == Some(id) ==> {
            let n = t.after("WindowClosed"@, payload);
            &&& same_but(t, n, id)
            &&& !n.titles.contains_key(id)
            &&& n.focused == (if t.focused == Some(id) {
                None
            } else {
                t.focused
            })
        },
        ({
            let n = t.after("WindowFocusChanged"@, payload);
            &&& n.titles == t.titles
            &&& n.focused == json::number_member(payload, "id"@)
        }),
{
    lemma_event_names();
}

proof fn lemma_upsert_all(t: Titles, ws: Seq<JsonView>, k: int, id: u64)
    requires
        0 <= k < ws.len(),
        json::number_member(ws[k], "id"@) == Some(id),
        json::text_member(ws[k], "title"@) is Some,
        forall|j: int| k < j < ws.len() ==> json::number_member(#[trigger] ws[j], "id"@) != Some(id),
    ensures
        t.upsert_all(ws).titles.contains_key(id),
        t.upsert_all(ws).titles[id] == json::text_member(ws[k], "title"@)->0,
    decreases ws.len(),
{
    let front = ws.drop_last();
    if k < ws.len() - 1 {
        assert(front[k] == ws[k]);
        assert forall|j: int| k < j < front.len() implies json::number_member(
            #[trigger] front[j],
            "id"@,
        ) != Some(id) by {
            assert(ws[j] == front[j]);
        }
        lemma_upsert_all(t, front, k, id);
        assert(json::number_member(ws[ws.len() - 1], "id"@) != Some(id));
    }
}

proof fn lemma_upsert_all_stale(t: Titles, ws: Seq<JsonView>, id: u64)
    requires
        forall|j: int| 0 <= j < ws.len() ==> json::number_member(#[trigger] ws[j], "id"@) != Some(id),
    ensures
        t.upsert_all(ws).titles.contains_key(id) <==> t.titles.contains_key(id),
        t.upsert_all(ws).focused == Some(id) ==> t.focused == Some(id),
    decreases ws.len(),
{
    if ws.len() > 0 {
        let front = ws.drop_last();
        assert forall|j: int| 0 <= j < front.len() implies json::number_member(
            #[trigger] front[j],
            "id"@,
        ) != Some(id) by {
            assert(ws[j] == front[j]);
        }
        lemma_upsert_all_stale(t, front, id);
        assert(json::number_member(ws[ws.len() - 1], "id"@) != Some(id));
    }
}

/// A list of windows replaces everything: each listed window has its title, and
/// a window that is not listed has none and no focus.
pub proof fn law_list_replaces_everything(
    t: Titles,
    payload: JsonView,
    ws: Seq<JsonView>,
    k: int,
    id: u64,
)
    requires
        payload.member("windows"@) == Some(JsonView::Array(ws)),
    ensures
        0 <= k < ws.len() && json::number_member(ws[k], "id"@) == Some(id) && json::text_member(
            ws[k],
            "title"@,
        ) is Some && (forall|j: int|
            k < j < ws.len() ==> json::number_member(#[trigger] ws[j], "id"@) != Some(id)) ==> t.after(
            "WindowsChanged"@,
            payload,
        ).titles.contains_key(id) && t.after("WindowsChanged"@, payload).titles[id]
            == json::text_member(ws[k], "title"@)->0,
        (forall|j: int|
            0 <= j < ws.len() ==> json::number_member(#[trigger] ws[j], "id"@) != Some(id))
            ==> !t.after("WindowsChanged"@, payload).titles.contains_key(id) && t.after(
            "WindowsChanged"@,
            payload,
        ).focused != Some(id),
{
    lemma_event_names();
    let cleared = Titles { titles: Map::empty(), focused: None };
    if 0 <= k < ws.len() && json::number_member(ws[k], "id"@) == Some(id) && json::text_member(
        ws[k],
        "title"@,
    ) is Some && (forall|j: int|
        k < j < ws.len() ==> json::number_member(#[trigger] ws[j], "id"@) != Some(id)) {
        lemma_upsert_all(cleared, ws, k, id);
    }
    if forall|j: int|
        0 <= j < ws.len() ==> json::number_member(#[trigger] ws[j], "id"@) != Some(id) {
        lemma_upsert_all_stale(cleared, ws, id);
    }
}

/// The title that is shown is that of the window with the focus.
pub proof fn law_title_is_of_the_focus(t: Titles, id: u64)
    ensures
        t.focused == Some(id) && t.titles.contains_key(id) ==> t.current() == Some(t.titles[id]),
        t.focused is None ==> t.current() is None,
        t.focused == Some(id) && !t.titles.contains_key(id) ==> t.current() is None,
{
}

/// A title is told exactly when the one to show differs from the one told last,
/// and then it is the title of the window with the focus.
pub proof fn law_titles_are_told_when_they_change(
    s: &mut NiriSession,
    event: Json,
    r: Option<Option<String>>,
)
    requires
        call_ensures(NiriSession::on_event, (s, Some(event)), r),
    ensures
        r is Some <==> final(s).titles().current() != old(s).told(),
        r is Some ==> text::opt(r->0) == final(s).titles().current(),
        final(s).told() == final(s).titles().current(),
{
}

} // verus!
