//! Per-toplevel image capture: the list of toplevels, the negotiation of a
//! capture session and the captured frames.

use vstd::prelude::*;

use crate::sorting;
use crate::zwindows::screencopy::{FrameAction, ShmFormat};

verus! {

/// What the list has said of one toplevel, known by its handle's number.
pub struct ToplevelInfo {
    pub handle: u32,
    pub app_id: Option<String>,
    pub title: Option<String>,
    pub done: bool,
}

/// A change to one listed toplevel.
pub enum HandleEvent {
    AppId(String),
    Title(String),
    Done,
    Closed,
}

/// The toplevels in the order in which they were announced.
pub struct ToplevelList {
    pub toplevels: Vec<ToplevelInfo>,
}

/// The entry after an event of its handle.
pub open spec fn info_after(t: ToplevelInfo, event: HandleEvent) -> ToplevelInfo {
    match event {
        HandleEvent::AppId(s) => ToplevelInfo { app_id: Some(s), ..t },
        HandleEvent::Title(s) => ToplevelInfo { title: Some(s), ..t },
        HandleEvent::Done => ToplevelInfo { done: true, ..t },
        HandleEvent::Closed => ToplevelInfo { done: true, ..t },
    }
}

/// The position of the first entry with this handle.
pub open spec fn index_of_handle(s: Seq<ToplevelInfo>, handle: u32) -> Option<int>
    decreases s.len(),
{
    if s.len() == 0 {
        None
    } else if s[0].handle == handle {
        Some(0)
    } else {
        match index_of_handle(s.drop_first(), handle) {
            Some(i) => Some(i + 1),
            None => None,
        }
    }
}

proof fn lemma_index_of_handle(s: Seq<ToplevelInfo>, handle: u32, n: int)
    requires
        0 <= n <= s.len(),
        forall|k: int| 0 <= k < n ==> (#[trigger] s[k]).handle != handle,
    ensures
        n < s.len() && s[n].handle == handle ==> index_of_handle(s, handle) == Some(n),
        n == s.len() ==> index_of_handle(s, handle) is None,
    decreases n,
{
    if n > 0 {
        assert(s[0].handle != handle);
        assert forall|k: int| 0 <= k < n - 1 implies (#[trigger] s.drop_first()[k]).handle
            != handle by {
            assert(s[k + 1].handle != handle);
        }
        lemma_index_of_handle(s.drop_first(), handle, n - 1);
    }
}

/// Application id and title to file a capture under, and the handle to capture:
/// of each toplevel whose description is complete and which has an application id.
pub open spec fn targets(s: Seq<ToplevelInfo>) -> Seq<(u32, Seq<char>, Seq<char>)>
    decreases s.len(),
{
    if s.len() == 0 {
        Seq::empty()
    } else {
        let t = s.last();
        let rest = targets(s.drop_last());
        if t.done && t.app_id is Some {
            rest.push(
                (
                    t.handle,
                    t.app_id->0@,
                    match t.title {
                        Some(x) => x@,
                        None => Seq::empty(),
                    },
                ),
            )
        } else {
            rest
        }
    }
}

/// What a target says.
pub open spec fn target_view(t: (u32, String, String)) -> (u32, Seq<char>, Seq<char>) {
    (t.0, t.1@, t.2@)
}

impl ToplevelList {
    /// A newly announced toplevel.
    pub fn announce(&mut self, handle: u32)
        ensures
            final(self).toplevels@ == old(self).toplevels@.push(
                ToplevelInfo { handle, app_id: None, title: None, done: false },
            ),
    {
        self.toplevels.push(ToplevelInfo { handle, app_id: None, title: None, done: false });
    }

    /// An event of one handle; handles that were not announced are ignored.
    pub fn apply(&mut self, handle: u32, event: HandleEvent)
        ensures
            final(self).toplevels@ == match index_of_handle(old(self).toplevels@, handle) {
                Some(i) => old(self).toplevels@.update(
                    i,
                    info_after(old(self).toplevels@[i], event),
                ),
                None => old(self).toplevels@,
            },
    {
        let mut i: usize = 0;
        while i < self.toplevels.len()
            invariant
                i <= self.toplevels@.len(),
                self.toplevels@ == old(self).toplevels@,
                forall|k: int| 0 <= k < i ==> (#[trigger] self.toplevels@[k]).handle != handle,
            decreases self.toplevels.len() - i,
        {
            if self.toplevels[i].handle == handle {
                proof {
                    lemma_index_of_handle(old(self).toplevels@, handle, i as int);
                }
                let mut t = self.toplevels.remove(i);
                match event {
                    HandleEvent::AppId(s) => {
                        t.app_id = Some(s);
                    },
                    HandleEvent::Title(s) => {
                        t.title = Some(s);
                    },
                    HandleEvent::Done => {
                        t.done = true;
                    },
                    HandleEvent::Closed => {
                        t.done = true;
                    },
                }
                self.toplevels.insert(i, t);
                proof {
                    assert(self.toplevels@ == old(self).toplevels@.update(
                        i as int,
                        info_after(old(self).toplevels@[i as int], event),
                    ));
                }
                return ;
            }
            i = i + 1;
        }
        proof {
            lemma_index_of_handle(old(self).toplevels@, handle, i as int);
        }
    }

    /// What to capture, in order.
    pub fn capture_targets(&self) -> (r: Vec<(u32, String, String)>)
        ensures
            r@.map_values(|t: (u32, String, String)| target_view(t)) == targets(self.toplevels@),
    {
        let mut out: Vec<(u32, String, String)> = Vec::new();
        let mut i: usize = 0;
        while i < self.toplevels.len()
            invariant
                i <= self.toplevels@.len(),
                out@.map_values(|t: (u32, String, String)| target_view(t)) == targets(
                    self.toplevels@.take(i as int),
                ),
            decreases self.toplevels.len() - i,
        {
            let t = &self.toplevels[i];
            let ghost before = out@.map_values(|t: (u32, String, String)| target_view(t));
            proof {
                assert(self.toplevels@.take(i + 1).drop_last() == self.toplevels@.take(i as int));
            }
            if t.done {
                if let Some(app_id) = &t.app_id {
                    let title = match &t.title {
                        Some(x) => x.clone(),
                        None => String::new(),
                    };
                    let entry = (t.handle, app_id.clone(), title);
                    out.push(entry);
                    proof {
                        assert(out@.map_values(|t: (u32, String, String)| target_view(t))
                            == before.push(target_view(entry)));
                        assert(entry.2@ == match t.title {
                            Some(x) => x@,
                            None => Seq::empty(),
                        });
                    }
                }
            }
            i = i + 1;
        }
        proof {
            assert(self.toplevels@.take(i as int) == self.toplevels@);
        }
        out
    }
}

/// What the compositor says while a session is being negotiated.
#[derive(Debug, Clone, Copy, PartialEq, Eq, Structural)]
pub enum SessionEvent {
    BufferSize { width: u32, height: u32 },
    ShmFormat { format: ShmFormat },
    Done,
    Stopped,
}

/// What is known of a capture session.
#[derive(Debug, Clone, Copy, PartialEq, Eq)]
pub struct SessionState {
    pub buffer_size: Option<(u32, u32)>,
    pub shm_format: Option<ShmFormat>,
    pub done: bool,
    pub stopped: bool,
}

impl Default for SessionState {
    fn default() -> (r: Self)
        ensures
            r == (SessionState { buffer_size: None, shm_format: None, done: false, stopped: false }),
    {
        SessionState { buffer_size: None, shm_format: None, done: false, stopped: false }
    }
}

impl SessionState {
    /// The state after an event: the last size and the first format count.
    pub open spec fn after(self, event: SessionEvent) -> SessionState {
        match event {
            SessionEvent::BufferSize { width, height } => SessionState {
                buffer_size: Some((width, height)),
                ..self
            },
            SessionEvent::ShmFormat { format } => if self.shm_format is None {
                SessionState { shm_format: Some(format), ..self }
            } else {
                self
            },
            SessionEvent::Done => SessionState { done: true, ..self },
            SessionEvent::Stopped => SessionState { stopped: true, ..self },
        }
    }

    /// Records an event.
    pub fn apply(&mut self, event: SessionEvent)
        ensures
            *final(self) == old(self).after(event),
    {
        match event {
            SessionEvent::BufferSize { width, height } => {
                self.buffer_size = Some((width, height));
            },
            SessionEvent::ShmFormat { format } => {
                if self.shm_format.is_none() {
                    self.shm_format = Some(format);
                }
            },
            SessionEvent::Done => {
                self.done = true;
            },
            SessionEvent::Stopped => {
                self.stopped = true;
            },
        }
    }

    /// What to do next: a stopped session has failed; a negotiated one needs a
    /// buffer without row padding. A size whose row does not fit a 32-bit
    /// stride cannot be allocated and fails too.
    pub fn next(&self) -> (r: FrameAction)
        ensures
            r == (if self.stopped {
                FrameAction::Fail
            } else {
                match (self.done, self.buffer_size, self.shm_format) {
                    (true, Some(size), Some(format)) => if size.0 * 4 > u32::MAX {
                        FrameAction::Fail
                    } else {
                        FrameAction::Allocate(format, size.0, size.1, (size.0 * 4) as u32)
                    },
                    _ => FrameAction::Wait,
                }
            }),
    {
        if self.stopped {
            return FrameAction::Fail;
        }
        if self.done {
            if let (Some(size), Some(format)) = (self.buffer_size, self.shm_format) {
                if size.0 > 0x3fff_ffff {
                    return FrameAction::Fail;
                }
                return FrameAction::Allocate(format, size.0, size.1, size.0 * 4);
            }
        }
        FrameAction::Wait
    }
}

/// A handle event changes the toplevel of its handle, the first one, and says of
/// it what the event says.
pub proof fn law_handle_events(s: Seq<ToplevelInfo>, handle: u32, k: int, t: ToplevelInfo, text: String)
    ensures
        0 <= k < s.len() && s[k].handle == handle && (forall|j: int|
            0 <= j < k ==> (#[trigger] s[j]).handle != handle) ==> index_of_handle(s, handle)
            == Some(k),
        (forall|j: int| 0 <= j < s.len() ==> (#[trigger] s[j]).handle != handle) ==> index_of_handle(
            s,
            handle,
        ) is None,
        info_after(t, HandleEvent::AppId(text)) == (ToplevelInfo {
            handle: t.handle,
            app_id: Some(text),
            title: t.title,
            done: t.done,
        }),
        info_after(t, HandleEvent::Title(text)) == (ToplevelInfo {
            handle: t.handle,
            app_id: t.app_id,
            title: Some(text),
            done: t.done,
        }),
        info_after(t, HandleEvent::Done).done && info_after(t, HandleEvent::Closed).done,
        info_after(t, HandleEvent::Done).app_id == t.app_id && info_after(
            t,
            HandleEvent::Done,
        ).title == t.title,
{
    if 0 <= k < s.len() && s[k].handle == handle && (forall|j: int|
        0 <= j < k ==> (#[trigger] s[j]).handle != handle) {
        lemma_index_of_handle(s, handle, k);
    }
    if forall|j: int| 0 <= j < s.len() ==> (#[trigger] s[j]).handle != handle {
        lemma_index_of_handle(s, handle, s.len() as int);
    }
}

/// Captured are exactly the toplevels that are complete and have an application
/// id, each with its id and its title, if it has one.
pub proof fn law_targets_are_the_complete_toplevels(s: Seq<ToplevelInfo>)
    ensures
        forall|x: (u32, Seq<char>, Seq<char>)| #[trigger]
            targets(s).contains(x) <==> exists|k: int|
                {
                    &&& 0 <= k < s.len()
                    &&& (#[trigger] s[k]).done
                    &&& s[k].app_id is Some
                    &&& x.0 == s[k].handle
                    &&& x.1 == s[k].app_id->0@
                    &&& x.2 == (match s[k].title {
                        Some(t) => t@,
                        None => Seq::empty(),
                    })
                },
    decreases s.len(),
{
    if s.len() > 0 {
        let front = s.drop_last();
        let n = s.len() - 1;
        let t = s.last();
        law_targets_are_the_complete_toplevels(front);
        assert(s[n] == t);
        if t.app_id is Some {
            sorting::lemma_push_holds(
                targets(front),
                (
                    t.handle,
                    t.app_id->0@,
                    match t.title {
                        Some(x) => x@,
                        None => Seq::empty(),
                    },
                ),
            );
        }
        assert forall|x: (u32, Seq<char>, Seq<char>)| #[trigger] targets(s).contains(
            x,
        ) <==> exists|k: int|
            {
                &&& 0 <= k < s.len()
                &&& (#[trigger] s[k]).done
                &&& s[k].app_id is Some
                &&& x.0 == s[k].handle
                &&& x.1 == s[k].app_id->0@
                &&& x.2 == (match s[k].title {
                    Some(t) => t@,
                    None => Seq::empty(),
                })
            } by {
            assert forall|k: int| 0 <= k < n implies #[trigger] front[k] == s[k] by {}
            if targets(front).contains(x) {
                let k = choose|k: int|
                    {
                        &&& 0 <= k < front.len()
                        &&& (#[trigger] front[k]).done
                        &&& front[k].app_id is Some
                        &&& x.0 == front[k].handle
                        &&& x.1 == front[k].app_id->0@
                        &&& x.2 == (match front[k].title {
                            Some(t) => t@,
                            None => Seq::empty(),
                        })
                    };
                assert(s[k].done);
            }
            if exists|k: int|
                {
                    &&& 0 <= k < s.len()
                    &&& (#[trigger] s[k]).done
                    &&& s[k].app_id is Some
                    &&& x.0 == s[k].handle
                    &&& x.1 == s[k].app_id->0@
                    &&& x.2 == (match s[k].title {
                        Some(t) => t@,
                        None => Seq::empty(),
                    })
                } {
                let k = choose|k: int|
                    {
                        &&& 0 <= k < s.len()
                        &&& (#[trigger] s[k]).done
                        &&& s[k].app_id is Some
                        &&& x.0 == s[k].handle
                        &&& x.1 == s[k].app_id->0@
                        &&& x.2 == (match s[k].title {
                            Some(t) => t@,
                            None => Seq::empty(),
                        })
                    };
                if k < n {
                    assert(front[k].done);
                }
            }
        }
    }
}

/// A session remembers the last size and the first format, and that it is done
/// or stopped.
pub proof fn law_session_remembers(s: SessionState, e: SessionEvent)
    ensures
        match e {
            SessionEvent::BufferSize { width, height } => s.after(e).buffer_size == Some(
                (width, height),
            ),
            _ => s.after(e).buffer_size == s.buffer_size,
        },
        match e {
            SessionEvent::ShmFormat { format } => s.shm_format is None ==> s.after(e).shm_format
                == Some(format),
            _ => s.after(e).shm_format == s.shm_format,
        },
        s.shm_format is Some ==> s.after(e).shm_format == s.shm_format,
        s.after(e).done <==> s.done || e is Done,
        s.after(e).stopped <==> s.stopped || e is Stopped,
{
}

} // verus!
