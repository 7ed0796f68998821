//! Workspaces: the state that the compositor's workspace protocol builds up,
//! and what a bar shows of it.

use std::collections::HashMap;

use vstd::prelude::*;

use crate::sorting;
use crate::sorting::Ranked;
use crate::text;

verus! {

/// A workspace is known by its name.
#[derive(Debug, PartialEq, Eq, Hash)]
pub struct WorkspaceId(pub String);

#[derive(Debug, PartialEq, Eq)]
pub struct Workspace {
    pub id: WorkspaceId,
    pub name: String,
    pub active: bool,
    pub urgent: bool,
    /// Output (monitor) this workspace belongs to, if known.
    pub output: Option<String>,
}

#[derive(Debug, PartialEq, Eq)]
pub struct WorkspaceState {
    pub workspaces: Vec<Workspace>,
    pub active: Option<WorkspaceId>,
}

/// What a bar is told.
pub enum WorkspaceEvent {
    Snapshot(WorkspaceState),
    Focus(WorkspaceId),
    Disconnected,
}

#[verifier::ext_equal]
pub struct WsView {
    pub id: Seq<char>,
    pub name: Seq<char>,
    pub active: bool,
    pub urgent: bool,
    pub output: Option<Seq<char>>,
}

#[verifier::ext_equal]
pub struct StateView {
    pub workspaces: Seq<WsView>,
    pub active: Option<Seq<char>>,
}

impl View for Workspace {
    type V = WsView;

    open spec fn view(&self) -> WsView {
        WsView {
            id: self.id.0@,
            name: self.name@,
            active: self.active,
            urgent: self.urgent,
            output: text::opt(self.output),
        }
    }
}

/// The name in an optional id.
pub open spec fn id_view(o: Option<WorkspaceId>) -> Option<Seq<char>> {
    match o {
        Some(id) => Some(id.0@),
        None => None,
    }
}

impl View for WorkspaceState {
    type V = StateView;

    open spec fn view(&self) -> StateView {
        StateView { workspaces: sorting::views(self.workspaces@), active: id_view(self.active) }
    }
}

impl Clone for WorkspaceId {
    fn clone(&self) -> (r: Self)
        ensures
            r == *self,
    {
        WorkspaceId(self.0.clone())
    }
}

impl Clone for Workspace {
    fn clone(&self) -> (r: Self)
        ensures
            r == *self,
    {
        Workspace {
            id: self.id.clone(),
            name: self.name.clone(),
            active: self.active,
            urgent: self.urgent,
            output: text::clone_opt(&self.output),
        }
    }
}

impl Clone for WorkspaceState {
    fn clone(&self) -> (r: Self)
        ensures
            r@ == self@,
    {
        let mut workspaces: Vec<Workspace> = Vec::new();
        let mut i: usize = 0;
        while i < self.workspaces.len()
            invariant
                i <= self.workspaces@.len(),
                workspaces@ == self.workspaces@.take(i as int),
            decreases self.workspaces.len() - i,
        {
            workspaces.push(self.workspaces[i].clone());
            i = i + 1;
        }
        proof {
            assert(workspaces@ == self.workspaces@);
        }
        let active = match &self.active {
            Some(id) => Some(id.clone()),
            None => None,
        };
        WorkspaceState { workspaces, active }
    }
}

/// No workspaces.
pub open spec fn no_workspaces() -> StateView {
    StateView { workspaces: Seq::empty(), active: None }
}

impl Default for WorkspaceState {
    fn default() -> (r: Self)
        ensures
            r@ == no_workspaces(),
    {
        let r = WorkspaceState { workspaces: Vec::new(), active: None };
        proof {
            assert(r@ =~= no_workspaces());
        }
        r
    }
}

// ---------------------------------------------------------------------------
// Display order
// ---------------------------------------------------------------------------

/// Whether output `a` is listed before output `b`, or is the same; an unknown
/// output comes first.
pub open spec fn output_le(a: Option<Seq<char>>, b: Option<Seq<char>>) -> bool {
    match (a, b) {
        (None, _) => true,
        (Some(_), None) => false,
        (Some(x), Some(y)) => sorting::text_le(x, y),
    }
}

impl Ranked for Workspace {
    /// By output, then by name.
    open spec fn ranks(a: WsView, b: WsView) -> bool {
        if a.output == b.output {
            sorting::text_le(a.name, b.name)
        } else {
            output_le(a.output, b.output)
        }
    }

    proof fn ranks_total(a: WsView, b: WsView) {
        sorting::lemma_text_le_total(a.name, b.name);
        if let (Some(x), Some(y)) = (a.output, b.output) {
            sorting::lemma_text_le_total(x, y);
        }
    }

    proof fn ranks_transitive(a: WsView, b: WsView, c: WsView) {
        if a.output == b.output && b.output == c.output {
            sorting::lemma_text_le_transitive(a.name, b.name, c.name);
        }
        if let (Some(x), Some(y)) = (a.output, b.output) {
            if let Some(z) = c.output {
                if sorting::text_le(x, y) && sorting::text_le(y, z) {
                    sorting::lemma_text_le_transitive(x, y, z);
                    if x == z {
                        sorting::lemma_text_le_antisymmetric(x, y);
                    }
                }
            }
        }
    }

    fn may_precede(&self, other: &Self) -> (r: bool) {
        if text::opt_eq(&self.output, &other.output) {
            return sorting::str_precedes(self.name.as_str(), other.name.as_str());
        }
        match (&self.output, &other.output) {
            (None, _) => true,
            (Some(_), None) => false,
            (Some(x), Some(y)) => sorting::str_precedes(x.as_str(), y.as_str()),
        }
    }
}

// ---------------------------------------------------------------------------
// The protocol session
// ---------------------------------------------------------------------------

/// What is known of a workspace handle.
pub struct WsBuilder {
    pub name: Option<String>,
    pub active: bool,
    pub urgent: bool,
    /// The group that the workspace is in.
    pub group_pid: Option<u32>,
}

/// A group of workspaces: the outputs that show it, in the order in which they
/// came, each once, and the workspaces in it.
pub struct GroupState {
    pub outputs: Vec<u32>,
    pub workspaces: Vec<u32>,
}

#[verifier::ext_equal]
pub struct GroupView {
    pub outputs: Seq<u32>,
    pub workspaces: Seq<u32>,
}

impl View for GroupState {
    type V = GroupView;

    open spec fn view(&self) -> GroupView {
        GroupView { outputs: self.outputs@, workspaces: self.workspaces@ }
    }
}

impl GroupState {
    /// An empty group.
    pub fn new() -> (r: Self)
        ensures
            r@ == (GroupView { outputs: Seq::empty(), workspaces: Seq::empty() }),
    {
        GroupState { outputs: Vec::new(), workspaces: Vec::new() }
    }
}

/// `s` with `x` at the end, unless it is in it already.
pub open spec fn joined(s: Seq<u32>, x: u32) -> Seq<u32> {
    if s.contains(x) {
        s
    } else {
        s.push(x)
    }
}

/// `s` without `x`.
pub open spec fn left(s: Seq<u32>, x: u32) -> Seq<u32> {
    s.filter(|y: u32| y != x)
}

fn is_member(v: &Vec<u32>, x: u32) -> (r: bool)
    ensures
        r == v@.contains(x),
{
    let mut i: usize = 0;
    while i < v.len()
        invariant
            i <= v@.len(),
            forall|k: int| 0 <= k < i ==> v@[k] != x,
        decreases v.len() - i,
    {
        if v[i] == x {
            return true;
        }
        i = i + 1;
    }
    false
}

fn join(v: &mut Vec<u32>, x: u32)
    ensures
        final(v)@ == joined(old(v)@, x),
{
    if !is_member(v, x) {
        v.push(x);
    }
}

fn leave(v: &mut Vec<u32>, x: u32)
    ensures
        final(v)@ == left(old(v)@, x),
{
    let mut kept: Vec<u32> = Vec::new();
    let mut i: usize = 0;
    proof {
        reveal(Seq::filter);
    }
    while i < v.len()
        invariant
            i <= v@.len(),
            v@ == old(v)@,
            kept@ == left(v@.take(i as int), x),
        decreases v.len() - i,
    {
        proof {
            reveal(Seq::filter);
            assert(v@.take(i + 1).drop_last() == v@.take(i as int));
        }
        if v[i] != x {
            kept.push(v[i]);
        }
        i = i + 1;
    }
    proof {
        assert(v@.take(i as int) == v@);
    }
    *v = kept;
}

/// What the compositor says, by the numbers of the handles.
pub enum SessionEvent {
    OutputName { output: u32, name: String },
    Workspace { workspace: u32 },
    WorkspaceGroup { group: u32 },
    OutputEnter { group: u32, output: u32 },
    OutputLeave { group: u32, output: u32 },
    WorkspaceEnter { group: u32, workspace: u32 },
    WorkspaceLeave { group: u32, workspace: u32 },
    GroupRemoved { group: u32 },
    Name { workspace: u32, name: String },
    State { workspace: u32, active: bool, urgent: bool },
    Removed { workspace: u32 },
}

/// The workspaces by number, with that of `pid` replaced or added.
pub open spec fn put(s: Seq<(u32, WsBuilder)>, pid: u32, b: WsBuilder) -> Seq<(u32, WsBuilder)>
    decreases s.len(),
{
    if s.len() == 0 || pid < s[0].0 {
        seq![(pid, b)] + s
    } else if s[0].0 == pid {
        seq![(pid, b)] + s.drop_first()
    } else {
        seq![s[0]] + put(s.drop_first(), pid, b)
    }
}

/// Says of which entries the number is not `pid`.
pub open spec fn other_than(pid: u32) -> spec_fn((u32, WsBuilder)) -> bool {
    |e: (u32, WsBuilder)| e.0 != pid
}

/// The workspaces without that of `pid`.
pub open spec fn taken(s: Seq<(u32, WsBuilder)>, pid: u32) -> Seq<(u32, WsBuilder)> {
    s.filter(other_than(pid))
}

/// Strictly increasing numbers.
pub open spec fn by_number(s: Seq<(u32, WsBuilder)>) -> bool {
    forall|i: int, j: int| 0 <= i < j < s.len() ==> (#[trigger] s[i]).0 < (#[trigger] s[j]).0
}

/// The builder of `pid`, if there is one.
pub open spec fn builder_of(s: Seq<(u32, WsBuilder)>, pid: u32) -> Option<WsBuilder>
    decreases s.len(),
{
    if s.len() == 0 {
        None
    } else if s[0].0 == pid {
        Some(s[0].1)
    } else {
        builder_of(s.drop_first(), pid)
    }
}

/// What a session knows.
#[verifier::ext_equal]
pub struct SessionView {
    pub workspaces: Seq<(u32, WsBuilder)>,
    pub groups: Map<u32, GroupView>,
    pub outputs: Map<u32, String>,
}

/// The group of `pid`, an empty one if it is not known.
pub open spec fn group_or_new(m: Map<u32, GroupView>, pid: u32) -> GroupView {
    if m.contains_key(pid) {
        m[pid]
    } else {
        GroupView { outputs: Seq::empty(), workspaces: Seq::empty() }
    }
}

/// What an event does.
pub open spec fn after(s: SessionView, event: SessionEvent) -> SessionView {
    match event {
        SessionEvent::OutputName { output, name } => SessionView {
            outputs: s.outputs.insert(output, name),
            ..s
        },
        SessionEvent::Workspace { workspace } => SessionView {
            workspaces: put(
                s.workspaces,
                workspace,
                WsBuilder { name: None, active: false, urgent: false, group_pid: None },
            ),
            ..s
        },
        SessionEvent::WorkspaceGroup { group } => SessionView {
            groups: s.groups.insert(
                group,
                GroupView { outputs: Seq::empty(), workspaces: Seq::empty() },
            ),
            ..s
        },
        SessionEvent::OutputEnter { group, output } => {
            let g = group_or_new(s.groups, group);
            SessionView {
                groups: s.groups.insert(
                    group,
                    GroupView { outputs: joined(g.outputs, output), ..g },
                ),
                ..s
            }
        },
        SessionEvent::OutputLeave { group, output } => if s.groups.contains_key(group) {
            let g = s.groups[group];
            SessionView {
                groups: s.groups.insert(group, GroupView { outputs: left(g.outputs, output), ..g }),
                ..s
            }
        } else {
            s
        },
        SessionEvent::WorkspaceEnter { group, workspace } => {
            let g = group_or_new(s.groups, group);
            SessionView {
                groups: s.groups.insert(
                    group,
                    GroupView { workspaces: joined(g.workspaces, workspace), ..g },
                ),
                workspaces: match builder_of(s.workspaces, workspace) {
                    Some(b) => put(
                        s.workspaces,
                        workspace,
                        WsBuilder { group_pid: Some(group), ..b },
                    ),
                    None => s.workspaces,
                },
                ..s
            }
        },
        SessionEvent::WorkspaceLeave { group, workspace } => SessionView {
            groups: if s.groups.contains_key(group) {
                let g = s.groups[group];
                s.groups.insert(
                    group,
                    GroupView { workspaces: left(g.workspaces, workspace), ..g },
                )
            } else {
                s.groups
            },
            workspaces: match builder_of(s.workspaces, workspace) {
                Some(b) => if b.group_pid == Some(group) {
                    put(s.workspaces, workspace, WsBuilder { group_pid: None, ..b })
                } else {
                    s.workspaces
                },
                None => s.workspaces,
            },
            ..s
        },
        SessionEvent::GroupRemoved { group } => SessionView { groups: s.groups.remove(group), ..s },
        SessionEvent::Name { workspace, name } => match builder_of(s.workspaces, workspace) {
            Some(b) => SessionView {
                workspaces: put(s.workspaces, workspace, WsBuilder { name: Some(name), ..b }),
                ..s
            },
            None => s,
        },
        SessionEvent::State { workspace, active, urgent } => match builder_of(
            s.workspaces,
            workspace,
        ) {
            Some(b) => SessionView {
                workspaces: put(s.workspaces, workspace, WsBuilder { active, urgent, ..b }),
                ..s
            },
            None => s,
        },
        SessionEvent::Removed { workspace } => SessionView {
            workspaces: taken(s.workspaces, workspace),
            ..s
        },
    }
}

proof fn lemma_put(s: Seq<(u32, WsBuilder)>, pid: u32, b: WsBuilder, n: int)
    requires
        0 <= n <= s.len(),
        forall|k: int| 0 <= k < n ==> (#[trigger] s[k]).0 < pid,
    ensures
        n < s.len() && s[n].0 == pid ==> put(s, pid, b) == s.update(n, (pid, b)),
        n == s.len() || pid < s[n].0 ==> put(s, pid, b) == s.insert(n, (pid, b)),
        n < s.len() && s[n].0 == pid ==> builder_of(s, pid) == Some(s[n].1),
    decreases n,
{
    if n > 0 {
        assert(s[0].0 < pid);
        assert forall|k: int| 0 <= k < n - 1 implies (#[trigger] s.drop_first()[k]).0 < pid by {
            assert(s[k + 1].0 < pid);
        }
        lemma_put(s.drop_first(), pid, b, n - 1);
        if n < s.len() {
            assert(s.drop_first()[n - 1] == s[n]);
        }
        if n < s.len() && s[n].0 == pid {
            assert(put(s, pid, b) =~= s.update(n, (pid, b)));
        }
        if n == s.len() || pid < s[n].0 {
            assert(put(s, pid, b) =~= s.insert(n, (pid, b)));
        }
    } else {
        if s.len() > 0 && s[0].0 == pid {
            assert(put(s, pid, b) =~= s.update(0, (pid, b)));
        }
        if s.len() == 0 || pid < s[0].0 {
            assert(put(s, pid, b) =~= s.insert(0, (pid, b)));
        }
    }
}

proof fn lemma_no_builder(s: Seq<(u32, WsBuilder)>, pid: u32)
    requires
        forall|k: int| 0 <= k < s.len() ==> (#[trigger] s[k]).0 != pid,
    ensures
        builder_of(s, pid) is None,
    decreases s.len(),
{
    if s.len() > 0 {
        assert(s[0].0 != pid);
        assert forall|k: int| 0 <= k < s.drop_first().len() implies (
        #[trigger] s.drop_first()[k]).0 != pid by {
            assert(s[k + 1].0 != pid);
        }
        lemma_no_builder(s.drop_first(), pid);
    }
}

proof fn lemma_place(s: Seq<(u32, WsBuilder)>, pid: u32) -> (n: int)
    requires
        by_number(s),
    ensures
        0 <= n <= s.len(),
        forall|k: int| 0 <= k < n ==> (#[trigger] s[k]).0 < pid,
        n < s.len() ==> pid <= s[n].0,
    decreases s.len(),
{
    if s.len() == 0 || pid <= s[0].0 {
        0
    } else {
        let t = s.drop_first();
        assert forall|i: int, j: int| 0 <= i < j < t.len() implies (#[trigger] t[i]).0 < (
        #[trigger] t[j]).0 by {
            assert(s[i + 1].0 < s[j + 1].0);
        }
        let m = lemma_place(t, pid);
        assert forall|k: int| 0 <= k < m + 1 implies (#[trigger] s[k]).0 < pid by {
            if k > 0 {
                assert(t[k - 1].0 < pid);
            }
        }
        if m < t.len() {
            assert(t[m] == s[m + 1]);
        }
        m + 1
    }
}

proof fn lemma_taken(s: Seq<(u32, WsBuilder)>, pid: u32)
    requires
        by_number(s),
    ensures
        by_number(taken(s, pid)),
        forall|i: int|
            0 <= i < taken(s, pid).len() ==> s.contains(#[trigger] taken(s, pid)[i]),
    decreases s.len(),
{
    reveal(Seq::filter);
    if s.len() > 0 {
        let t = s.drop_last();
        assert forall|i: int, j: int| 0 <= i < j < t.len() implies (#[trigger] t[i]).0 < (
        #[trigger] t[j]).0 by {
            assert(s[i].0 < s[j].0);
        }
        lemma_taken(t, pid);
        let f = taken(t, pid);
        assert forall|i: int| 0 <= i < f.len() implies (#[trigger] f[i]).0 < s.last().0
            && s.contains(f[i]) by {
            assert(t.contains(f[i]));
            let k = choose|k: int| 0 <= k < t.len() && t[k] == f[i];
            assert(s[k].0 < s[s.len() - 1].0);
            assert(s[k] == f[i]);
        }
        assert(s.contains(s[s.len() - 1]));
    }
}

/// Every event keeps the workspaces in the order of their numbers, one for each.
pub proof fn law_events_keep_order(s: SessionView, event: SessionEvent)
    requires
        by_number(s.workspaces),
    ensures
        by_number(after(s, event).workspaces),
{
    let (pid, b) = match event {
        SessionEvent::Workspace { workspace } => (
            workspace,
            WsBuilder { name: None, active: false, urgent: false, group_pid: None },
        ),
        SessionEvent::WorkspaceEnter { group, workspace } => (
            workspace,
            WsBuilder { group_pid: Some(group), ..builder_of(s.workspaces, workspace)->0 },
        ),
        SessionEvent::WorkspaceLeave { group, workspace } => (
            workspace,
            WsBuilder { group_pid: None, ..builder_of(s.workspaces, workspace)->0 },
        ),
        SessionEvent::Name { workspace, name } => (
            workspace,
            WsBuilder { name: Some(name), ..builder_of(s.workspaces, workspace)->0 },
        ),
        SessionEvent::State { workspace, active, urgent } => (
            workspace,
            WsBuilder { active, urgent, ..builder_of(s.workspaces, workspace)->0 },
        ),
        SessionEvent::Removed { workspace } => (
            workspace,
            WsBuilder { name: None, active: false, urgent: false, group_pid: None },
        ),
        _ => (0, WsBuilder { name: None, active: false, urgent: false, group_pid: None }),
    };
    let n = lemma_place(s.workspaces, pid);
    lemma_put(s.workspaces, pid, b, n);
    lemma_taken(s.workspaces, pid);
}

/// One session with the compositor.
pub struct Session {
    pub workspaces: Vec<(u32, WsBuilder)>,
    pub groups: HashMap<u32, GroupState>,
    pub outputs: HashMap<u32, String>,
}

impl View for Session {
    type V = SessionView;

    open spec fn view(&self) -> SessionView {
        SessionView {
            workspaces: self.workspaces@,
            groups: self.groups@.map_values(|g: GroupState| g@),
            outputs: self.outputs@,
        }
    }
}

impl Session {
    /// The workspaces are in the order of their numbers.
    pub open spec fn wf(&self) -> bool {
        by_number(self.workspaces@)
    }

    /// A session that nothing has been said in.
    pub fn new() -> (r: Self)
        ensures
            r.wf(),
            r@ == (SessionView {
                workspaces: Seq::empty(),
                groups: Map::empty(),
                outputs: Map::empty(),
            }),
    {
        let r = Session { workspaces: Vec::new(), groups: HashMap::new(), outputs: HashMap::new() };
        proof {
            assert(r@.groups =~= Map::empty());
        }
        r
    }

    /// The place of `pid`: the number of workspaces with smaller numbers.
    fn place(&self, pid: u32) -> (n: usize)
        requires
            self.wf(),
        ensures
            n <= self.workspaces@.len(),
            forall|k: int| 0 <= k < n ==> (#[trigger] self.workspaces@[k]).0 < pid,
            n < self.workspaces@.len() ==> pid <= self.workspaces@[n as int].0,
    {
        let mut n: usize = 0;
        while n < self.workspaces.len() && self.workspaces[n].0 < pid
            invariant
                n <= self.workspaces@.len(),
                forall|k: int| 0 <= k < n ==> (#[trigger] self.workspaces@[k]).0 < pid,
            decreases self.workspaces.len() - n,
        {
            n = n + 1;
        }
        n
    }

    fn put_builder(&mut self, pid: u32, b: WsBuilder)
        requires
            old(self).wf(),
        ensures
            final(self).wf(),
            final(self).workspaces@ == put(old(self).workspaces@, pid, b),
            final(self).groups@ == old(self).groups@,
            final(self).outputs@ == old(self).outputs@,
    {
        let n: usize = self.place(pid);
        proof {
            lemma_put(self.workspaces@, pid, b, n as int);
        }
        if n < self.workspaces.len() && self.workspaces[n].0 == pid {
            self.workspaces.set(n, (pid, b));
        } else {
            self.workspaces.insert(n, (pid, b));
        }
    }

    /// Takes the builder of `pid` out, to be put back changed.
    fn copy_builder(&self, pid: u32) -> (r: Option<WsBuilder>)
        requires
            self.wf(),
        ensures
            r == builder_of(self.workspaces@, pid),
    {
        let n: usize = self.place(pid);
        if n < self.workspaces.len() && self.workspaces[n].0 == pid {
            let b = &self.workspaces[n].1;
            proof {
                lemma_put(self.workspaces@, pid, *b, n as int);
            }
            Some(
                WsBuilder {
                    name: text::clone_opt(&b.name),
                    active: b.active,
                    urgent: b.urgent,
                    group_pid: b.group_pid,
                },
            )
        } else {
            proof {
                assert forall|k: int| 0 <= k < self.workspaces@.len() implies (
                #[trigger] self.workspaces@[k]).0 != pid by {
                    if k > n {
                        assert(self.workspaces@[n as int].0 < self.workspaces@[k].0);
                    }
                }
                lemma_no_builder(self.workspaces@, pid);
            }
            None
        }
    }

    fn take_group(&mut self, group: u32) -> (r: Option<GroupState>)
        ensures
            final(self).workspaces@ == old(self).workspaces@,
            final(self).outputs@ == old(self).outputs@,
            final(self).groups@ == old(self).groups@.remove(group),
            match r {
                Some(g) => old(self).groups@.contains_key(group) && g == old(self).groups@[group],
                None => !old(self).groups@.contains_key(group) && final(self).groups@ == old(
                    self,
                ).groups@,
            },
    {
        broadcast use vstd::std_specs::hash::group_hash_axioms;

        let r = self.groups.remove(&group);
        proof {
            assert(self.groups@ =~= old(self).groups@.remove(group));
            if r is None {
                assert(self.groups@ =~= old(self).groups@);
            }
        }
        r
    }

    fn put_group(&mut self, group: u32, g: GroupState)
        ensures
            final(self).workspaces@ == old(self).workspaces@,
            final(self).outputs@ == old(self).outputs@,
            final(self).groups@ == old(self).groups@.insert(group, g),
    {
        broadcast use vstd::std_specs::hash::group_hash_axioms;

        self.groups.insert(group, g);
    }

    /// Takes in an event.
    pub fn apply(&mut self, event: SessionEvent)
        requires
            old(self).wf(),
        ensures
            final(self).wf(),
            final(self)@ == after(old(self)@, event),
    {
        broadcast use vstd::std_specs::hash::group_hash_axioms;

        let ghost before = self@;
        match event {
            SessionEvent::OutputName { output, name } => {
                self.outputs.insert(output, name);
            },
            SessionEvent::Workspace { workspace } => {
                self.put_builder(
                    workspace,
                    WsBuilder { name: None, active: false, urgent: false, group_pid: None },
                );
            },
            SessionEvent::WorkspaceGroup { group } => {
                self.put_group(group, GroupState::new());
            },
            SessionEvent::OutputEnter { group, output } => {
                let mut g = match self.take_group(group) {
                    Some(g) => g,
                    None => GroupState::new(),
                };
                join(&mut g.outputs, output);
                self.put_group(group, g);
            },
            SessionEvent::OutputLeave { group, output } => {
                if let Some(g) = self.take_group(group) {
                    let mut g = g;
                    leave(&mut g.outputs, output);
                    self.put_group(group, g);
                }
            },
            SessionEvent::WorkspaceEnter { group, workspace } => {
                let mut g = match self.take_group(group) {
                    Some(g) => g,
                    None => GroupState::new(),
                };
                join(&mut g.workspaces, workspace);
                self.put_group(group, g);
                if let Some(b) = self.copy_builder(workspace) {
                    let mut b = b;
                    b.group_pid = Some(group);
                    self.put_builder(workspace, b);
                }
            },
            SessionEvent::WorkspaceLeave { group, workspace } => {
                if let Some(g) = self.take_group(group) {
                    let mut g = g;
                    leave(&mut g.workspaces, workspace);
                    self.put_group(group, g);
                }
                if let Some(b) = self.copy_builder(workspace) {
                    let inside = match b.group_pid {
                        Some(p) => p == group,
                        None => false,
                    };
                    if inside {
                        let mut b = b;
                        b.group_pid = None;
                        self.put_builder(workspace, b);
                    }
                }
            },
            SessionEvent::GroupRemoved { group } => {
                self.take_group(group);
            },
            SessionEvent::Name { workspace, name } => {
                if let Some(b) = self.copy_builder(workspace) {
                    let mut b = b;
                    b.name = Some(name);
                    self.put_builder(workspace, b);
                }
            },
            SessionEvent::State { workspace, active, urgent } => {
                if let Some(b) = self.copy_builder(workspace) {
                    let mut b = b;
                    b.active = active;
                    b.urgent = urgent;
                    self.put_builder(workspace, b);
                }
            },
            SessionEvent::Removed { workspace } => {
                self.drop_builder(workspace);
            },
        }
        proof {
            assert(self@.groups =~= after(before, event).groups);
            assert(self@ =~= after(before, event));
        }
    }

    fn drop_builder(&mut self, pid: u32)
        requires
            old(self).wf(),
        ensures
            final(self).wf(),
            final(self).workspaces@ == taken(old(self).workspaces@, pid),
            final(self).groups@ == old(self).groups@,
            final(self).outputs@ == old(self).outputs@,
    {
        let ghost s = self.workspaces@;
        proof {
            lemma_taken(s, pid);
        }
        let mut i: usize = 0;
        while i < self.workspaces.len()
            invariant
                i <= self.workspaces@.len(),
                self.workspaces@ == s,
                s == old(self).workspaces@,
                self.groups@ == old(self).groups@,
                self.outputs@ == old(self).outputs@,
                by_number(s),
                forall|k: int| 0 <= k < i ==> (#[trigger] s[k]).0 != pid,
            decreases self.workspaces.len() - i,
        {
            if self.workspaces[i].0 == pid {
                self.workspaces.remove(i);
                proof {
                    lemma_taken_is_remove(s, pid, i as int);
                    assert(self.workspaces@ == s.remove(i as int));
                    lemma_taken(s, pid);
                }
                return ;
            }
            i = i + 1;
        }
        proof {
            lemma_taken_nothing(s, pid);
        }
    }
}

proof fn lemma_taken_nothing(s: Seq<(u32, WsBuilder)>, pid: u32)
    requires
        forall|k: int| 0 <= k < s.len() ==> (#[trigger] s[k]).0 != pid,
    ensures
        taken(s, pid) == s,
    decreases s.len(),
{
    reveal(Seq::filter);
    if s.len() > 0 {
        let t = s.drop_last();
        assert forall|k: int| 0 <= k < t.len() implies (#[trigger] t[k]).0 != pid by {
            assert(s[k].0 != pid);
        }
        lemma_taken_nothing(t, pid);
        assert(s[s.len() - 1].0 != pid);
        assert(t.push(s.last()) == s);
    } else {
        assert(taken(s, pid) =~= s);
    }
}

proof fn lemma_taken_is_remove(s: Seq<(u32, WsBuilder)>, pid: u32, i: int)
    requires
        by_number(s),
        0 <= i < s.len(),
        s[i].0 == pid,
    ensures
        taken(s, pid) == s.remove(i),
{
    let p = other_than(pid);
    let head = s.take(i);
    let tail = s.skip(i + 1);
    assert(s == head.push(s[i]) + tail);
    Seq::filter_distributes_over_add(head.push(s[i]), tail, p);
    assert forall|k: int| 0 <= k < head.len() implies (#[trigger] head[k]).0 != pid by {
        assert(s[k].0 < s[i].0);
    }
    assert forall|k: int| 0 <= k < tail.len() implies (#[trigger] tail[k]).0 != pid by {
        assert(tail[k] == s[i + 1 + k]);
        assert(s[i].0 < s[i + 1 + k].0);
    }
    lemma_taken_nothing(head, pid);
    lemma_taken_nothing(tail, pid);
    reveal(Seq::filter);
    assert(head.push(s[i]).drop_last() == head);
    assert(!p(head.push(s[i]).last()));
    assert(s.remove(i) =~= head + tail);
}


// ---------------------------------------------------------------------------
// Snapshots
// ---------------------------------------------------------------------------

/// The name of the first of the given outputs that has one.
pub open spec fn first_named(o: Seq<u32>, names: Map<u32, String>) -> Option<Seq<char>>
    decreases o.len(),
{
    if o.len() == 0 {
        None
    } else if names.contains_key(o[0]) {
        Some(names[o[0]]@)
    } else {
        first_named(o.drop_first(), names)
    }
}

/// The output that shows the workspaces of a group.
pub open spec fn group_output(s: SessionView, group: Option<u32>) -> Option<Seq<char>> {
    match group {
        Some(g) => if s.groups.contains_key(g) {
            first_named(s.groups[g].outputs, s.outputs)
        } else {
            None
        },
        None => None,
    }
}

/// What is shown of a workspace that has a name.
pub open spec fn row_of(s: SessionView, b: WsBuilder) -> WsView {
    WsView {
        id: b.name->0@,
        name: b.name->0@,
        active: b.active,
        urgent: b.urgent,
        output: group_output(s, b.group_pid),
    }
}

/// The workspaces that have names, in the order of their numbers, with the numbers.
pub open spec fn rows_of(s: SessionView, w: Seq<(u32, WsBuilder)>) -> Seq<(u32, WsView)>
    decreases w.len(),
{
    if w.len() == 0 {
        Seq::empty()
    } else {
        let rest = rows_of(s, w.drop_last());
        if w.last().1.name is Some {
            rest.push((w.last().0, row_of(s, w.last().1)))
        } else {
            rest
        }
    }
}

/// The name of the first active workspace.
pub open spec fn first_active(w: Seq<WsView>) -> Option<Seq<char>>
    decreases w.len(),
{
    if w.len() == 0 {
        None
    } else if w[0].active {
        Some(w[0].id)
    } else {
        first_active(w.drop_first())
    }
}

/// Whether `shown` is what is to be shown of a session: the named workspaces by
/// output and name, and the first active one.
pub open spec fn is_snapshot(s: SessionView, shown: StateView) -> bool {
    &&& sorting::is_stable_sort(
        rows_of(s, s.workspaces).map_values(|r: (u32, WsView)| r.1),
        shown.workspaces,
        |a: WsView, b: WsView| Workspace::ranks(a, b),
    )
    &&& shown.active == first_active(shown.workspaces)
}

/// A handle to activate a workspace by.
pub struct Handle {
    pub name: String,
    pub output: Option<String>,
    pub pid: u32,
}

#[verifier::ext_equal]
pub struct HandleView {
    pub name: Seq<char>,
    pub output: Option<Seq<char>>,
    pub pid: u32,
}

impl View for Handle {
    type V = HandleView;

    open spec fn view(&self) -> HandleView {
        HandleView { name: self.name@, output: text::opt(self.output), pid: self.pid }
    }
}

/// The handles with `x` in the place of the one for the same name and output,
/// or at the end.
pub open spec fn with_handle(h: Seq<HandleView>, x: HandleView) -> Seq<HandleView>
    decreases h.len(),
{
    if h.len() == 0 {
        seq![x]
    } else if h[0].name == x.name && h[0].output == x.output {
        seq![x] + h.drop_first()
    } else {
        seq![h[0]] + with_handle(h.drop_first(), x)
    }
}

/// The handles of the given rows: of two with the same name and output, the
/// one with the greater number.
pub open spec fn handles_of(rows: Seq<(u32, WsView)>) -> Seq<HandleView>
    decreases rows.len(),
{
    if rows.len() == 0 {
        Seq::empty()
    } else {
        let (pid, w) = rows.last();
        with_handle(
            handles_of(rows.drop_last()),
            HandleView { name: w.name, output: w.output, pid },
        )
    }
}

/// The first handle with this name and output.
pub open spec fn exact_handle(
    h: Seq<HandleView>,
    name: Seq<char>,
    output: Option<Seq<char>>,
) -> Option<u32>
    decreases h.len(),
{
    if h.len() == 0 {
        None
    } else if h[0].name == name && h[0].output == output {
        Some(h[0].pid)
    } else {
        exact_handle(h.drop_first(), name, output)
    }
}

/// The first handle with this name.
pub open spec fn named_handle(h: Seq<HandleView>, name: Seq<char>) -> Option<u32>
    decreases h.len(),
{
    if h.len() == 0 {
        None
    } else if h[0].name == name {
        Some(h[0].pid)
    } else {
        named_handle(h.drop_first(), name)
    }
}

/// The handle to activate: that of the name and output, else any of the name.
pub open spec fn handle_for(
    h: Seq<HandleView>,
    name: Seq<char>,
    output: Option<Seq<char>>,
) -> Option<u32> {
    match exact_handle(h, name, output) {
        Some(pid) => Some(pid),
        None => named_handle(h, name),
    }
}

/// A workspace that a snapshot names can be activated by its name and output.
pub proof fn law_shown_workspaces_can_be_activated(rows: Seq<(u32, WsView)>, i: int)
    requires
        0 <= i < rows.len(),
    ensures
        exact_handle(handles_of(rows), rows[i].1.name, rows[i].1.output) is Some,
    decreases rows.len(),
{
    let (pid, w) = rows.last();
    let x = HandleView { name: w.name, output: w.output, pid };
    let h = handles_of(rows.drop_last());
    if i < rows.len() - 1 {
        law_shown_workspaces_can_be_activated(rows.drop_last(), i);
        lemma_with_handle_keeps(h, x, rows[i].1.name, rows[i].1.output);
    } else {
        lemma_with_handle_finds(h, x);
    }
}

proof fn lemma_with_handle_keeps(
    h: Seq<HandleView>,
    x: HandleView,
    name: Seq<char>,
    output: Option<Seq<char>>,
)
    requires
        exact_handle(h, name, output) is Some,
    ensures
        exact_handle(with_handle(h, x), name, output) is Some,
    decreases h.len(),
{
    let t = with_handle(h, x);
    if h[0].name == x.name && h[0].output == x.output {
        assert(t.drop_first() == h.drop_first());
    } else {
        assert(t.drop_first() == with_handle(h.drop_first(), x));
        assert(t[0] == h[0]);
        if !(h[0].name == name && h[0].output == output) {
            lemma_with_handle_keeps(h.drop_first(), x, name, output);
        }
    }
}

proof fn lemma_with_handle_finds(h: Seq<HandleView>, x: HandleView)
    ensures
        exact_handle(with_handle(h, x), x.name, x.output) == Some(x.pid),
    decreases h.len(),
{
    let t = with_handle(h, x);
    if h.len() > 0 && !(h[0].name == x.name && h[0].output == x.output) {
        assert(t.drop_first() == with_handle(h.drop_first(), x));
        assert(t[0] == h[0]);
        lemma_with_handle_finds(h.drop_first(), x);
    } else {
        assert(t[0] == x);
    }
}

proof fn lemma_with_handle(h: Seq<HandleView>, x: HandleView, n: int)
    requires
        0 <= n <= h.len(),
        forall|k: int|
            0 <= k < n ==> !((#[trigger] h[k]).name == x.name && h[k].output == x.output),
    ensures
        n < h.len() && h[n].name == x.name && h[n].output == x.output ==> with_handle(h, x)
            == h.update(n, x),
        n == h.len() ==> with_handle(h, x) == h.push(x),
    decreases n,
{
    if n > 0 {
        assert(!(h[0].name == x.name && h[0].output == x.output));
        let t = h.drop_first();
        assert forall|k: int| 0 <= k < n - 1 implies !((#[trigger] t[k]).name == x.name
            && t[k].output == x.output) by {
            assert(t[k] == h[k + 1]);
        }
        lemma_with_handle(t, x, n - 1);
        if n < h.len() {
            assert(t[n - 1] == h[n]);
        }
        if n < h.len() && h[n].name == x.name && h[n].output == x.output {
            assert(with_handle(h, x) =~= h.update(n, x));
        }
        if n == h.len() {
            assert(with_handle(h, x) =~= h.push(x));
        }
    } else if h.len() > 0 {
        if h[0].name == x.name && h[0].output == x.output {
            assert(with_handle(h, x) =~= h.update(0, x));
        }
    } else {
        assert(with_handle(h, x) =~= h.push(x));
    }
}

fn put_handle(handles: &mut Vec<Handle>, x: Handle)
    ensures
        sorting::views(final(handles)@) == with_handle(sorting::views(old(handles)@), x@),
{
    let ghost h = sorting::views(handles@);
    let mut i: usize = 0;
    while i < handles.len()
        invariant
            i <= handles@.len(),
            handles@ == old(handles)@,
            h == sorting::views(handles@),
            forall|k: int|
                0 <= k < i ==> !((#[trigger] h[k]).name == x@.name && h[k].output == x@.output),
        decreases handles.len() - i,
    {
        if text::str_eq(handles[i].name.as_str(), x.name.as_str()) && text::opt_eq(
            &handles[i].output,
            &x.output,
        ) {
            proof {
                assert(h[i as int] == handles@[i as int]@);
                lemma_with_handle(h, x@, i as int);
            }
            handles.set(i, x);
            proof {
                assert(sorting::views(handles@) =~= h.update(i as int, x@));
            }
            return ;
        }
        proof {
            assert(h[i as int] == handles@[i as int]@);
        }
        i = i + 1;
    }
    proof {
        lemma_with_handle(h, x@, i as int);
    }
    handles.push(x);
    proof {
        assert(sorting::views(handles@) =~= h.push(x@));
    }
}

impl Session {
    /// The name of the output that shows a group: of its outputs, the first
    /// whose name is known.
    pub fn output_name_for_group(&self, group_pid: u32) -> (r: Option<String>)
        ensures
            text::opt(r) == group_output(self@, Some(group_pid)),
    {
        broadcast use vstd::std_specs::hash::group_hash_axioms;

        match self.groups.get(&group_pid) {
            None => None,
            Some(g) => {
                proof {
                    assert(self@.groups[group_pid] == g@);
                    assert(g.outputs@.skip(0) == g.outputs@);
                }
                let mut i: usize = 0;
                while i < g.outputs.len()
                    invariant
                        i <= g.outputs@.len(),
                        group_output(self@, Some(group_pid)) == first_named(
                            g.outputs@.skip(i as int),
                            self.outputs@,
                        ),
                    decreases g.outputs.len() - i,
                {
                    if let Some(name) = self.outputs.get(&g.outputs[i]) {
                        return Some(name.clone());
                    }
                    proof {
                        assert(g.outputs@.skip(i as int).drop_first() == g.outputs@.skip(i + 1));
                    }
                    i = i + 1;
                }
                None
            },
        }
    }

    /// The state to show, and the handles to activate workspaces by.
    pub fn snapshot(&self) -> (r: (WorkspaceState, Vec<Handle>))
        ensures
            is_snapshot(self@, r.0@),
            sorting::views(r.1@) == handles_of(rows_of(self@, self@.workspaces)),
    {
        let ghost w = self.workspaces@;
        let mut handles: Vec<Handle> = Vec::new();
        let mut workspaces: Vec<Workspace> = Vec::new();
        let mut i: usize = 0;
        proof {
            assert(sorting::views(handles@) =~= handles_of(rows_of(self@, w.take(0))));
            assert(sorting::views(workspaces@) =~= rows_of(self@, w.take(0)).map_values(
                |r: (u32, WsView)| r.1,
            ));
        }
        while i < self.workspaces.len()
            invariant
                i <= self.workspaces@.len(),
                w == self.workspaces@,
                sorting::views(handles@) == handles_of(rows_of(self@, w.take(i as int))),
                sorting::views(workspaces@) == rows_of(self@, w.take(i as int)).map_values(
                    |r: (u32, WsView)| r.1,
                ),
            decreases self.workspaces.len() - i,
        {
            let pid: u32 = self.workspaces[i].0;
            let b = &self.workspaces[i].1;
            let ghost rows = rows_of(self@, w.take(i as int));
            let ghost had = sorting::views(workspaces@);
            proof {
                assert(w.take(i + 1).drop_last() == w.take(i as int));
            }
            if let Some(name) = &b.name {
                let output = match b.group_pid {
                    Some(g) => self.output_name_for_group(g),
                    None => None,
                };
                let row = Workspace {
                    id: WorkspaceId(name.clone()),
                    name: name.clone(),
                    active: b.active,
                    urgent: b.urgent,
                    output: text::clone_opt(&output),
                };
                let handle = Handle { name: name.clone(), output, pid };
                proof {
                    assert(row@ == row_of(self@, *b));
                    let next = rows_of(self@, w.take(i + 1));
                    assert(next == rows.push((pid, row@)));
                    assert(next.drop_last() == rows);
                    assert(next.map_values(|r: (u32, WsView)| r.1) =~= rows.map_values(
                        |r: (u32, WsView)| r.1,
                    ).push(row@));
                }
                put_handle(&mut handles, handle);
                workspaces.push(row);
                proof {
                    assert(sorting::views(workspaces@) =~= had.push(row@));
                }
            }
            i = i + 1;
        }
        proof {
            assert(w.take(i as int) == w);
        }
        let workspaces = sorting::stable_sort(workspaces);
        let active = active_id(&workspaces);
        (WorkspaceState { workspaces, active }, handles)
    }
}

fn active_id(w: &Vec<Workspace>) -> (r: Option<WorkspaceId>)
    ensures
        id_view(r) == first_active(sorting::views(w@)),
{
    let ghost all = sorting::views(w@);
    let mut i: usize = 0;
    proof {
        assert(all.skip(0) == all);
    }
    while i < w.len()
        invariant
            i <= w@.len(),
            all == sorting::views(w@),
            first_active(all) == first_active(all.skip(i as int)),
        decreases w.len() - i,
    {
        proof {
            assert(all.skip(i as int)[0] == w@[i as int]@);
            assert(all.skip(i as int).drop_first() == all.skip(i + 1));
        }
        if w[i].active {
            return Some(w[i].id.clone());
        }
        i = i + 1;
    }
    None
}

fn same_id(a: &Option<WorkspaceId>, b: &Option<WorkspaceId>) -> (r: bool)
    ensures
        r == (id_view(*a) == id_view(*b)),
{
    match (a, b) {
        (Some(x), Some(y)) => text::str_eq(x.0.as_str(), y.0.as_str()),
        (None, None) => true,
        _ => false,
    }
}

/// Whether two states show the same.
pub fn same_state(a: &WorkspaceState, b: &WorkspaceState) -> (r: bool)
    ensures
        r == (a@ == b@),
{
    if a.workspaces.len() != b.workspaces.len() {
        proof {
            assert(a@.workspaces.len() != b@.workspaces.len());
        }
        return false;
    }
    let mut i: usize = 0;
    while i < a.workspaces.len()
        invariant
            a.workspaces@.len() == b.workspaces@.len(),
            i <= a.workspaces@.len(),
            forall|k: int| 0 <= k < i ==> (#[trigger] a.workspaces@[k])@ == b.workspaces@[k]@,
        decreases a.workspaces.len() - i,
    {
        let x = &a.workspaces[i];
        let y = &b.workspaces[i];
        let same = text::str_eq(x.id.0.as_str(), y.id.0.as_str()) && text::str_eq(
            x.name.as_str(),
            y.name.as_str(),
        ) && x.active == y.active && x.urgent == y.urgent && text::opt_eq(&x.output, &y.output);
        if !same {
            proof {
                assert(a@.workspaces[i as int] == x@ && b@.workspaces[i as int] == y@);
            }
            return false;
        }
        i = i + 1;
    }
    proof {
        assert(a@.workspaces =~= b@.workspaces);
    }
    same_id(&a.active, &b.active)
}

/// What all bars share: the last state that was sent out, and the handles.
pub struct Hub {
    pub last: Option<WorkspaceState>,
    pub handles: Vec<Handle>,
}

/// What an optional state shows.
pub open spec fn last_view(o: Option<WorkspaceState>) -> Option<StateView> {
    match o {
        Some(s) => Some(s@),
        None => None,
    }
}

impl Hub {
    /// Nothing sent yet.
    pub fn new() -> (r: Self)
        ensures
            r.last is None,
            r.handles@.len() == 0,
    {
        Hub { last: None, handles: Vec::new() }
    }

    /// The compositor has finished a batch of changes. The handles are always
    /// renewed; the state is sent out if it differs from the one sent last.
    pub fn flush(&mut self, session: &Session) -> (r: Option<WorkspaceState>)
        ensures
            final(self).last is Some,
            is_snapshot(session@, final(self).last->0@),
            sorting::views(final(self).handles@) == handles_of(
                rows_of(session@, session@.workspaces),
            ),
            match r {
                Some(s) => s@ == final(self).last->0@ && last_view(old(self).last) != Some(s@),
                None => last_view(final(self).last) == last_view(old(self).last),
            },
    {
        let (state, handles) = session.snapshot();
        self.handles = handles;
        let same = match &self.last {
            Some(l) => same_state(l, &state),
            None => false,
        };
        if same {
            return None;
        }
        self.last = Some(state.clone());
        Some(state)
    }

    /// The session has ended: handles and state are void.
    pub fn disconnect(&mut self) -> (r: WorkspaceEvent)
        ensures
            final(self).last is None,
            final(self).handles@.len() == 0,
            r == WorkspaceEvent::Disconnected,
    {
        self.last = None;
        self.handles = Vec::new();
        WorkspaceEvent::Disconnected
    }

    /// What a bar that joins late is told at once: the last state, if there is one.
    pub fn replay(&self) -> (r: Option<WorkspaceState>)
        ensures
            last_view(r) == last_view(self.last),
    {
        match &self.last {
            Some(s) => Some(s.clone()),
            None => None,
        }
    }

    /// The handle to activate for a workspace on an output.
    pub fn activate(&self, id: &WorkspaceId, output: Option<&str>) -> (r: Option<u32>)
        ensures
            r == handle_for(sorting::views(self.handles@), id.0@, text::opt_str(output)),
    {
        let ghost h = sorting::views(self.handles@);
        let ghost o = text::opt_str(output);
        let mut i: usize = 0;
        proof {
            assert(h.skip(0) == h);
        }
        while i < self.handles.len()
            invariant
                i <= self.handles@.len(),
                h == sorting::views(self.handles@),
                o == text::opt_str(output),
                exact_handle(h, id.0@, o) == exact_handle(h.skip(i as int), id.0@, o),
            decreases self.handles.len() - i,
        {
            let x = &self.handles[i];
            proof {
                assert(h.skip(i as int)[0] == x@);
                assert(h.skip(i as int).drop_first() == h.skip(i + 1));
            }
            let there = match (&x.output, output) {
                (Some(a), Some(b)) => text::str_eq(a.as_str(), b),
                (None, None) => true,
                _ => false,
            };
            if there && text::str_eq(x.name.as_str(), id.0.as_str()) {
                return Some(x.pid);
            }
            i = i + 1;
        }
        let mut j: usize = 0;
        while j < self.handles.len()
            invariant
                j <= self.handles@.len(),
                h == sorting::views(self.handles@),
                o == text::opt_str(output),
                exact_handle(h, id.0@, o) is None,
                named_handle(h, id.0@) == named_handle(h.skip(j as int), id.0@),
            decreases self.handles.len() - j,
        {
            let x = &self.handles[j];
            proof {
                assert(h.skip(j as int)[0] == x@);
                assert(h.skip(j as int).drop_first() == h.skip(j + 1));
            }
            if text::str_eq(x.name.as_str(), id.0.as_str()) {
                return Some(x.pid);
            }
            j = j + 1;
        }
        None
    }
}

/// How long to wait before the first reconnection attempt, in milliseconds.
pub const FIRST_DELAY_MS: u64 = 1000;

/// The longest wait between two reconnection attempts, in milliseconds.
pub const MAX_DELAY_MS: u64 = 30_000;

/// The wait after `delay_ms`: twice as long, up to the longest.
pub fn next_delay(delay_ms: u64) -> (r: u64)
    ensures
        r == (if 2 * delay_ms < MAX_DELAY_MS {
            (2 * delay_ms) as u64
        } else {
            MAX_DELAY_MS
        }),
{
    if delay_ms < MAX_DELAY_MS / 2 {
        2 * delay_ms
    } else {
        MAX_DELAY_MS
    }
}

// ---------------------------------------------------------------------------
// The bar's module
// ---------------------------------------------------------------------------

/// What one bar shows of the workspaces.
pub struct WorkspacesModule {
    pub state: WorkspaceState,
    /// The output that the bar is on, if known.
    pub output_name: Option<String>,
}

/// How a workspace is painted.
#[derive(Debug, Clone, Copy, PartialEq, Eq, Structural)]
pub enum PillStyle {
    Active,
    Urgent,
    Idle,
}

/// The workspaces with exactly those named `id` active.
pub open spec fn focused(w: Seq<WsView>, id: Seq<char>) -> Seq<WsView> {
    w.map_values(|x: WsView| WsView { active: x.id == id, ..x })
}

/// The state after an event.
pub open spec fn state_after(s: StateView, event: WorkspaceEvent) -> StateView {
    match event {
        WorkspaceEvent::Snapshot(n) => n@,
        WorkspaceEvent::Focus(id) => StateView {
            workspaces: focused(s.workspaces, id.0@),
            active: Some(id.0@),
        },
        WorkspaceEvent::Disconnected => no_workspaces(),
    }
}

/// Whether a click on this bar moves the focus away from workspace `x`: it is
/// on the bar's output, or the bar does not know its output.
pub open spec fn on_output(x: WsView, output: Option<Seq<char>>) -> bool {
    output is None || x.output == output
}

/// Whether a bar on `output` shows workspace `x`: unless both outputs are known
/// and differ.
pub open spec fn is_visible(x: WsView, output: Option<Seq<char>>) -> bool {
    output is None || x.output is None || x.output == output
}

impl WorkspacesModule {
    /// A bar on `output_name`, with nothing to show yet.
    pub fn new(output_name: Option<String>) -> (r: Self)
        ensures
            r.state@ == no_workspaces(),
            r.output_name == output_name,
    {
        WorkspacesModule { state: WorkspaceState::default(), output_name }
    }

    /// Takes in an event.
    pub fn apply(&mut self, ev: WorkspaceEvent)
        ensures
            final(self).state@ == state_after(old(self).state@, ev),
            final(self).output_name == old(self).output_name,
    {
        match ev {
            WorkspaceEvent::Snapshot(s) => {
                self.state = s;
            },
            WorkspaceEvent::Focus(id) => {
                let ghost w = self.state@.workspaces;
                let mut i: usize = 0;
                while i < self.state.workspaces.len()
                    invariant
                        i <= self.state.workspaces@.len(),
                        self.state.workspaces@.len() == w.len(),
                        self.output_name == old(self).output_name,
                        forall|k: int|
                            0 <= k < i ==> (#[trigger] self.state.workspaces@[k])@ == (WsView {
                                active: w[k].id == id.0@,
                                ..w[k]
                            }),
                        forall|k: int|
                            i <= k < w.len() ==> (#[trigger] self.state.workspaces@[k])@ == w[k],
                    decreases self.state.workspaces.len() - i,
                {
                    let mut x = self.state.workspaces[i].clone();
                    x.active = text::str_eq(x.id.0.as_str(), id.0.as_str());
                    self.state.workspaces.set(i, x);
                    i = i + 1;
                }
                self.state.active = Some(id);
                proof {
                    assert(self.state@.workspaces =~= focused(w, id.0@));
                }
            },
            WorkspaceEvent::Disconnected => {
                self.state = WorkspaceState::default();
            },
        }
    }

    /// Shows a click on a workspace before the compositor confirms it: on this
    /// bar's output the target becomes the active workspace.
    pub fn activate_optimistic(&mut self, target: &WorkspaceId)
        ensures
            final(self).output_name == old(self).output_name,
            final(self).state@ == (StateView {
                workspaces: old(self).state@.workspaces.map_values(
                    |x: WsView|
                        if on_output(x, text::opt(old(self).output_name)) {
                            WsView { active: x.id == target.0@, ..x }
                        } else {
                            x
                        },
                ),
                active: Some(target.0@),
            }),
    {
        let ghost w = self.state@.workspaces;
        let ghost o = text::opt(self.output_name);
        let mut i: usize = 0;
        while i < self.state.workspaces.len()
            invariant
                i <= self.state.workspaces@.len(),
                self.state.workspaces@.len() == w.len(),
                self.output_name == old(self).output_name,
                o == text::opt(self.output_name),
                forall|k: int|
                    0 <= k < i ==> (#[trigger] self.state.workspaces@[k])@ == (if on_output(
                        w[k],
                        o,
                    ) {
                        WsView { active: w[k].id == target.0@, ..w[k] }
                    } else {
                        w[k]
                    }),
                forall|k: int| i <= k < w.len() ==> (#[trigger] self.state.workspaces@[k])@ == w[k],
            decreases self.state.workspaces.len() - i,
        {
            if self.output_name.is_none() || text::opt_eq(
                &self.state.workspaces[i].output,
                &self.output_name,
            ) {
                let mut x = self.state.workspaces[i].clone();
                x.active = text::str_eq(x.id.0.as_str(), target.0.as_str());
                self.state.workspaces.set(i, x);
            }
            i = i + 1;
        }
        self.state.active = Some(target.clone());
        proof {
            assert(self.state@.workspaces =~= w.map_values(
                |x: WsView|
                    if on_output(x, o) {
                        WsView { active: x.id == target.0@, ..x }
                    } else {
                        x
                    },
            ));
        }
    }

    /// Whether the bar shows workspace number `ix` of its state.
    pub fn shows(&self, ix: usize) -> (r: bool)
        requires
            ix < self.state.workspaces@.len(),
        ensures
            r == is_visible(self.state@.workspaces[ix as int], text::opt(self.output_name)),
    {
        let ws = &self.state.workspaces[ix];
        match (&self.output_name, &ws.output) {
            (Some(my), Some(theirs)) => text::str_eq(my.as_str(), theirs.as_str()),
            _ => true,
        }
    }
}

/// How a workspace is painted: active before urgent.
pub fn pill_style(ws: &Workspace) -> (r: PillStyle)
    ensures
        r == (if ws.active {
            PillStyle::Active
        } else if ws.urgent {
            PillStyle::Urgent
        } else {
            PillStyle::Idle
        }),
{
    if ws.active {
        PillStyle::Active
    } else if ws.urgent {
        PillStyle::Urgent
    } else {
        PillStyle::Idle
    }
}

// ---------------------------------------------------------------------------
// Outputs
// ---------------------------------------------------------------------------

/// What is known of an output that has been announced under a registry name.
pub struct OutputProbeEntry {
    pub registry_name: u32,
    pub name: Option<String>,
    pub width: i32,
}

/// The outputs in the order in which they were announced.
pub struct OutputProbe {
    pub entries: Vec<OutputProbeEntry>,
}

/// The position of the first entry with this registry name.
pub open spec fn entry_of(s: Seq<OutputProbeEntry>, registry_name: u32) -> Option<int>
    decreases s.len(),
{
    if s.len() == 0 {
        None
    } else if s[0].registry_name == registry_name {
        Some(0)
    } else {
        match entry_of(s.drop_first(), registry_name) {
            Some(i) => Some(i + 1),
            None => None,
        }
    }
}

proof fn lemma_entry_of(s: Seq<OutputProbeEntry>, registry_name: u32, n: int)
    requires
        0 <= n <= s.len(),
        forall|k: int| 0 <= k < n ==> (#[trigger] s[k]).registry_name != registry_name,
    ensures
        n < s.len() && s[n].registry_name == registry_name ==> entry_of(s, registry_name) == Some(
            n,
        ),
        n == s.len() ==> entry_of(s, registry_name) is None,
    decreases n,
{
    if n > 0 {
        assert(s[0].registry_name != registry_name);
        assert forall|k: int| 0 <= k < n - 1 implies (#[trigger] s.drop_first()[k]).registry_name
            != registry_name by {
            assert(s[k + 1].registry_name != registry_name);
        }
        lemma_entry_of(s.drop_first(), registry_name, n - 1);
    }
}

/// Name and width of each output that has a name.
pub open spec fn named_outputs(s: Seq<OutputProbeEntry>) -> Seq<(Seq<char>, i32)>
    decreases s.len(),
{
    if s.len() == 0 {
        Seq::empty()
    } else {
        let rest = named_outputs(s.drop_last());
        match s.last().name {
            Some(n) => rest.push((n@, s.last().width)),
            None => rest,
        }
    }
}

impl OutputProbe {
    /// An output is announced.
    pub fn announce(&mut self, registry_name: u32)
        ensures
            final(self).entries@ == old(self).entries@.push(
                OutputProbeEntry { registry_name, name: None, width: 0 },
            ),
    {
        self.entries.push(OutputProbeEntry { registry_name, name: None, width: 0 });
    }

    fn find(&self, registry_name: u32) -> (r: Option<usize>)
        ensures
            match r {
                Some(i) => i < self.entries@.len() && entry_of(self.entries@, registry_name)
                    == Some(i as int),
                None => entry_of(self.entries@, registry_name) is None,
            },
    {
        let mut i: usize = 0;
        while i < self.entries.len()
            invariant
                i <= self.entries@.len(),
                forall|k: int|
                    0 <= k < i ==> (#[trigger] self.entries@[k]).registry_name != registry_name,
            decreases self.entries.len() - i,
        {
            if self.entries[i].registry_name == registry_name {
                proof {
                    lemma_entry_of(self.entries@, registry_name, i as int);
                }
                return Some(i);
            }
            i = i + 1;
        }
        proof {
            lemma_entry_of(self.entries@, registry_name, i as int);
        }
        None
    }

    /// An output's name arrives.
    pub fn on_name(&mut self, registry_name: u32, name: String)
        ensures
            final(self).entries@ == match entry_of(old(self).entries@, registry_name) {
                Some(i) => old(self).entries@.update(
                    i,
                    OutputProbeEntry { name: Some(name), ..old(self).entries@[i] },
                ),
                None => old(self).entries@,
            },
    {
        if let Some(i) = self.find(registry_name) {
            let width: i32 = self.entries[i].width;
            let registry_name: u32 = self.entries[i].registry_name;
            self.entries.set(i, OutputProbeEntry { registry_name, name: Some(name), width });
        }
    }

    /// An output's mode arrives; only the current mode counts.
    pub fn on_mode(&mut self, registry_name: u32, width: i32, current: bool)
        ensures
            final(self).entries@ == match entry_of(old(self).entries@, registry_name) {
                Some(i) => if current {
                    old(self).entries@.update(
                        i,
                        OutputProbeEntry { width, ..old(self).entries@[i] },
                    )
                } else {
                    old(self).entries@
                },
                None => old(self).entries@,
            },
    {
        if let Some(i) = self.find(registry_name) {
            if current {
                let registry_name: u32 = self.entries[i].registry_name;
                let name = text::clone_opt(&self.entries[i].name);
                self.entries.set(i, OutputProbeEntry { registry_name, name, width });
            }
        }
    }

    /// Name and width of each output whose name arrived.
    pub fn named(&self) -> (r: Vec<(String, i32)>)
        ensures
            r@.map_values(|e: (String, i32)| (e.0@, e.1)) == named_outputs(self.entries@),
    {
        let mut out: Vec<(String, i32)> = Vec::new();
        let mut i: usize = 0;
        while i < self.entries.len()
            invariant
                i <= self.entries@.len(),
                out@.map_values(|e: (String, i32)| (e.0@, e.1)) == named_outputs(
                    self.entries@.take(i as int),
                ),
            decreases self.entries.len() - i,
        {
            let ghost had = out@.map_values(|e: (String, i32)| (e.0@, e.1));
            proof {
                assert(self.entries@.take(i + 1).drop_last() == self.entries@.take(i as int));
            }
            if let Some(n) = &self.entries[i].name {
                out.push((n.clone(), self.entries[i].width));
                proof {
                    assert(out@.map_values(|e: (String, i32)| (e.0@, e.1)) =~= had.push(
                        (n@, self.entries@[i as int].width),
                    ));
                }
            }
            i = i + 1;
        }
        proof {
            assert(self.entries@.take(i as int) == self.entries@);
        }
        out
    }
}

// ---------------------------------------------------------------------------
// Laws of the session
// ---------------------------------------------------------------------------

proof fn lemma_put_holds(s: Seq<(u32, WsBuilder)>, pid: u32, b: WsBuilder)
    requires
        by_number(s),
    ensures
        forall|e: (u32, WsBuilder)| #[trigger]
            put(s, pid, b).contains(e) <==> e == (pid, b) || (s.contains(e) && e.0 != pid),
{
    let n = lemma_place(s, pid);
    lemma_put(s, pid, b, n);
    let p = put(s, pid, b);
    assert(p[n] == (pid, b));
    assert forall|e: (u32, WsBuilder)| #[trigger] p.contains(e) <==> e == (pid, b) || (s.contains(
        e,
    ) && e.0 != pid) by {
        let there = n < s.len() && s[n].0 == pid;
        if p.contains(e) {
            let i = choose|i: int| 0 <= i < p.len() && p[i] == e;
            if there {
                if i != n {
                    assert(s[i] == e);
                    if i > n {
                        assert(s[n].0 < s[i].0);
                    }
                }
            } else if i < n {
                assert(s[i] == e);
            } else if i > n {
                assert(s[i - 1] == e);
                assert(pid < s[n].0);
                if i - 1 > n {
                    assert(s[n].0 < s[i - 1].0);
                }
            }
        }
        if s.contains(e) && e.0 != pid {
            let i = choose|i: int| 0 <= i < s.len() && s[i] == e;
            if there || i < n {
                assert(p[i] == e);
            } else {
                assert(p[i + 1] == e);
            }
        }
    }
}

proof fn lemma_taken_holds(s: Seq<(u32, WsBuilder)>, pid: u32)
    ensures
        forall|e: (u32, WsBuilder)| #[trigger]
            taken(s, pid).contains(e) <==> s.contains(e) && e.0 != pid,
{
    broadcast use vstd::seq_lib::group_filter_ensures;

    let p = other_than(pid);
    assert forall|e: (u32, WsBuilder)| #[trigger] taken(s, pid).contains(e) <==> s.contains(e)
        && e.0 != pid by {
        if taken(s, pid).contains(e) {
            s.lemma_filter_contains_rev(p, e);
            let i = choose|i: int| 0 <= i < s.filter(p).len() && s.filter(p)[i] == e;
            assert(p(s.filter(p)[i]));
        }
        if s.contains(e) && e.0 != pid {
            assert(p(e));
            let i = choose|i: int| 0 <= i < s.len() && s[i] == e;
            assert(p(s[i]));
        }
    }
}

proof fn lemma_builder_holds(s: Seq<(u32, WsBuilder)>, pid: u32)
    requires
        by_number(s),
    ensures
        forall|b: WsBuilder| #[trigger]
            s.contains((pid, b)) <==> builder_of(s, pid) == Some(b),
{
    let n = lemma_place(s, pid);
    if n < s.len() && s[n].0 == pid {
        lemma_put(s, pid, s[n].1, n);
        assert(s.contains(s[n]));
        assert(s[n] == (pid, s[n].1));
        assert forall|b: WsBuilder| #[trigger] s.contains((pid, b)) implies b == s[n].1 by {
            let i = choose|i: int| 0 <= i < s.len() && s[i] == (pid, b);
            if i > n {
                assert(s[n].0 < s[i].0);
            }
        }
    } else {
        assert forall|k: int| 0 <= k < s.len() implies (#[trigger] s[k]).0 != pid by {
            if k > n {
                assert(s[n].0 < s[k].0);
            }
        }
        lemma_no_builder(s, pid);
    }
}

/// A state event sets both flags of its workspace to what it says, whatever
/// they were; name and group stay, and so does every other workspace, group and
/// output. A workspace that is not known stays unknown.
pub proof fn law_state_is_as_said(s: SessionView, workspace: u32, active: bool, urgent: bool)
    requires
        by_number(s.workspaces),
    ensures
        ({
            let t = after(s, SessionEvent::State { workspace, active, urgent });
            &&& t.groups == s.groups
            &&& t.outputs == s.outputs
            &&& forall|e: (u32, WsBuilder)|
                e.0 != workspace ==> (#[trigger] t.workspaces.contains(e)
                    <==> s.workspaces.contains(e))
            &&& forall|b: WsBuilder| #[trigger]
                t.workspaces.contains((workspace, b)) ==> b.active == active && b.urgent == urgent
            &&& forall|b: WsBuilder| #[trigger]
                s.workspaces.contains((workspace, b)) ==> t.workspaces.contains(
                    (
                        workspace,
                        WsBuilder { name: b.name, active, urgent, group_pid: b.group_pid },
                    ),
                )
            &&& (exists|b: WsBuilder| #[trigger] t.workspaces.contains((workspace, b))) ==> exists|
                b: WsBuilder,
            | #[trigger]
                s.workspaces.contains((workspace, b))
        }),
{
    lemma_builder_holds(s.workspaces, workspace);
    if let Some(b) = builder_of(s.workspaces, workspace) {
        assert(s.workspaces.contains((workspace, b)));
        lemma_put_holds(s.workspaces, workspace, WsBuilder { active, urgent, ..b });
    }
}

/// A name event names its workspace and changes nothing else.
pub proof fn law_name_is_as_said(s: SessionView, workspace: u32, name: String)
    requires
        by_number(s.workspaces),
    ensures
        ({
            let t = after(s, SessionEvent::Name { workspace, name });
            &&& t.groups == s.groups
            &&& t.outputs == s.outputs
            &&& forall|e: (u32, WsBuilder)|
                e.0 != workspace ==> (#[trigger] t.workspaces.contains(e)
                    <==> s.workspaces.contains(e))
            &&& forall|b: WsBuilder| #[trigger]
                t.workspaces.contains((workspace, b)) ==> b.name == Some(name)
            &&& forall|b: WsBuilder| #[trigger]
                s.workspaces.contains((workspace, b)) ==> t.workspaces.contains(
                    (
                        workspace,
                        WsBuilder {
                            name: Some(name),
                            active: b.active,
                            urgent: b.urgent,
                            group_pid: b.group_pid,
                        },
                    ),
                )
            &&& (exists|b: WsBuilder| #[trigger] t.workspaces.contains((workspace, b))) ==> exists|
                b: WsBuilder,
            | #[trigger]
                s.workspaces.contains((workspace, b))
        }),
{
    lemma_builder_holds(s.workspaces, workspace);
    if let Some(b) = builder_of(s.workspaces, workspace) {
        assert(s.workspaces.contains((workspace, b)));
        lemma_put_holds(s.workspaces, workspace, WsBuilder { name: Some(name), ..b });
    }
}

/// A new workspace is known from then on, without name, flags or group; a
/// removed one is not known any more. Neither changes anything else.
pub proof fn law_workspaces_come_and_go(s: SessionView, workspace: u32)
    requires
        by_number(s.workspaces),
    ensures
        ({
            let t = after(s, SessionEvent::Workspace { workspace });
            &&& t.groups == s.groups
            &&& t.outputs == s.outputs
            &&& forall|e: (u32, WsBuilder)| #[trigger]
                t.workspaces.contains(e) <==> if e.0 == workspace {
                    e.1.name is None && !e.1.active && !e.1.urgent && e.1.group_pid is None
                } else {
                    s.workspaces.contains(e)
                }
        }),
        ({
            let t = after(s, SessionEvent::Removed { workspace });
            &&& t.groups == s.groups
            &&& t.outputs == s.outputs
            &&& forall|e: (u32, WsBuilder)| #[trigger]
                t.workspaces.contains(e) <==> e.0 != workspace && s.workspaces.contains(e)
        }),
{
    lemma_put_holds(
        s.workspaces,
        workspace,
        WsBuilder { name: None, active: false, urgent: false, group_pid: None },
    );
    lemma_taken_holds(s.workspaces, workspace);
}

/// A workspace that enters a group is in that group and in the group's list,
/// once; everything else known of it stays, and so does everything else.
pub proof fn law_workspace_enters_group(s: SessionView, group: u32, workspace: u32)
    requires
        by_number(s.workspaces),
    ensures
        ({
            let t = after(s, SessionEvent::WorkspaceEnter { group, workspace });
            &&& t.outputs == s.outputs
            &&& forall|e: (u32, WsBuilder)|
                e.0 != workspace ==> (#[trigger] t.workspaces.contains(e)
                    <==> s.workspaces.contains(e))
            &&& forall|b: WsBuilder| #[trigger]
                t.workspaces.contains((workspace, b)) ==> b.group_pid == Some(group)
            &&& forall|b: WsBuilder| #[trigger]
                s.workspaces.contains((workspace, b)) ==> t.workspaces.contains(
                    (
                        workspace,
                        WsBuilder {
                            name: b.name,
                            active: b.active,
                            urgent: b.urgent,
                            group_pid: Some(group),
                        },
                    ),
                )
            &&& t.groups.contains_key(group)
            &&& t.groups[group].workspaces.contains(workspace)
            &&& forall|g: u32| #[trigger]
                t.groups.contains_key(g) <==> g == group || s.groups.contains_key(g)
            &&& forall|g: u32|
                g != group && #[trigger] s.groups.contains_key(g) ==> t.groups[g] == s.groups[g]
            &&& s.groups.contains_key(group) ==> t.groups[group].outputs == s.groups[group].outputs
            &&& !s.groups.contains_key(group) ==> t.groups[group].outputs.len() == 0
            &&& forall|w: u32|
                w != workspace ==> (#[trigger] t.groups[group].workspaces.contains(w)
                    <==> s.groups.contains_key(group) && s.groups[group].workspaces.contains(w))
            &&& (s.groups.contains_key(group) ==> s.groups[group].workspaces.no_duplicates())
                ==> t.groups[group].workspaces.no_duplicates()
        }),
{
    lemma_builder_holds(s.workspaces, workspace);
    if let Some(b) = builder_of(s.workspaces, workspace) {
        assert(s.workspaces.contains((workspace, b)));
        lemma_put_holds(s.workspaces, workspace, WsBuilder { group_pid: Some(group), ..b });
    }
    lemma_joined_holds(group_or_new(s.groups, group).workspaces, workspace);
}

proof fn lemma_joined_holds(s: Seq<u32>, x: u32)
    ensures
        forall|y: u32| #[trigger] joined(s, x).contains(y) <==> y == x || s.contains(y),
        s.no_duplicates() ==> joined(s, x).no_duplicates(),
        s.is_prefix_of(joined(s, x)),
{
    let t = joined(s, x);
    assert forall|y: u32| #[trigger] t.contains(y) <==> y == x || s.contains(y) by {
        if !s.contains(x) {
            assert(t[s.len() as int] == x);
            if s.contains(y) {
                let i = choose|i: int| 0 <= i < s.len() && s[i] == y;
                assert(t[i] == y);
            }
        }
    }
}

proof fn lemma_left_holds(s: Seq<u32>, x: u32)
    ensures
        forall|y: u32| #[trigger] left(s, x).contains(y) <==> y != x && s.contains(y),
    decreases s.len(),
{
    reveal(Seq::filter);
    if s.len() > 0 {
        let t = s.drop_last();
        lemma_left_holds(t, x);
        let f = left(t, x);
        assert forall|y: u32| #[trigger] left(s, x).contains(y) <==> y != x && s.contains(y) by {
            assert(s =~= t.push(s.last()));
            assert(f.push(s.last()).contains(y) <==> f.contains(y) || y == s.last()) by {
                assert(f.push(s.last())[f.len() as int] == s.last());
                if f.contains(y) {
                    let i = choose|i: int| 0 <= i < f.len() && f[i] == y;
                    assert(f.push(s.last())[i] == y);
                }
            }
            assert(s.contains(y) <==> t.contains(y) || y == s.last()) by {
                assert(s[t.len() as int] == s.last());
                if t.contains(y) {
                    let i = choose|i: int| 0 <= i < t.len() && t[i] == y;
                    assert(s[i] == y);
                }
            }
        }
    }
}

/// A workspace that leaves its group is in none; leaving a group that it is not
/// in changes nothing of it. The group's list loses it, and nothing else
/// changes.
pub proof fn law_workspace_leaves_group(s: SessionView, group: u32, workspace: u32)
    requires
        by_number(s.workspaces),
    ensures
        ({
            let t = after(s, SessionEvent::WorkspaceLeave { group, workspace });
            &&& t.outputs == s.outputs
            &&& t.groups.dom() == s.groups.dom()
            &&& forall|e: (u32, WsBuilder)|
                e.0 != workspace || e.1.group_pid is Some && e.1.group_pid != Some(group) ==> (
                #[trigger] t.workspaces.contains(e) <==> s.workspaces.contains(e))
            &&& forall|b: WsBuilder| #[trigger]
                t.workspaces.contains((workspace, b)) ==> b.group_pid != Some(group)
            &&& forall|b: WsBuilder| #[trigger]
                s.workspaces.contains((workspace, b)) && (b.group_pid is None || b.group_pid
                    == Some(group)) ==> t.workspaces.contains(
                    (
                        workspace,
                        WsBuilder {
                            name: b.name,
                            active: b.active,
                            urgent: b.urgent,
                            group_pid: None,
                        },
                    ),
                )
            &&& forall|g: u32|
                g != group && #[trigger] s.groups.contains_key(g) ==> t.groups[g] == s.groups[g]
            &&& s.groups.contains_key(group) ==> {
                &&& t.groups[group].outputs == s.groups[group].outputs
                &&& forall|w: u32| #[trigger]
                    t.groups[group].workspaces.contains(w) <==> w != workspace
                        && s.groups[group].workspaces.contains(w)
            }
        }),
{
    let t = after(s, SessionEvent::WorkspaceLeave { group, workspace });
    lemma_builder_holds(s.workspaces, workspace);
    if let Some(b) = builder_of(s.workspaces, workspace) {
        assert(s.workspaces.contains((workspace, b)));
        lemma_put_holds(s.workspaces, workspace, WsBuilder { group_pid: None, ..b });
    }
    if s.groups.contains_key(group) {
        lemma_left_holds(s.groups[group].workspaces, workspace);
    }
    assert(t.groups.dom() =~= s.groups.dom());
}

/// An output that enters a group is listed there once, after those that were;
/// one that leaves is not listed any more. The workspaces, the other groups and
/// the outputs' names stay.
pub proof fn law_outputs_enter_and_leave(s: SessionView, group: u32, output: u32)
    ensures
        ({
            let t = after(s, SessionEvent::OutputEnter { group, output });
            &&& t.workspaces == s.workspaces
            &&& t.outputs == s.outputs
            &&& t.groups.contains_key(group)
            &&& forall|g: u32| #[trigger]
                t.groups.contains_key(g) <==> g == group || s.groups.contains_key(g)
            &&& forall|g: u32|
                g != group && #[trigger] s.groups.contains_key(g) ==> t.groups[g] == s.groups[g]
            &&& t.groups[group].outputs.contains(output)
            &&& forall|o: u32|
                o != output ==> (#[trigger] t.groups[group].outputs.contains(o)
                    <==> s.groups.contains_key(group) && s.groups[group].outputs.contains(o))
            &&& s.groups.contains_key(group) ==> {
                &&& t.groups[group].workspaces == s.groups[group].workspaces
                &&& s.groups[group].outputs.is_prefix_of(t.groups[group].outputs)
                &&& s.groups[group].outputs.no_duplicates()
                    ==> t.groups[group].outputs.no_duplicates()
            }
            &&& !s.groups.contains_key(group) ==> t.groups[group].workspaces.len() == 0
        }),
        ({
            let t = after(s, SessionEvent::OutputLeave { group, output });
            &&& t.workspaces == s.workspaces
            &&& t.outputs == s.outputs
            &&& t.groups.dom() == s.groups.dom()
            &&& forall|g: u32|
                g != group && #[trigger] s.groups.contains_key(g) ==> t.groups[g] == s.groups[g]
            &&& s.groups.contains_key(group) ==> {
                &&& t.groups[group].workspaces == s.groups[group].workspaces
                &&& forall|o: u32| #[trigger]
                    t.groups[group].outputs.contains(o) <==> o != output
                        && s.groups[group].outputs.contains(o)
            }
        }),
{
    lemma_joined_holds(group_or_new(s.groups, group).outputs, output);
    let t = after(s, SessionEvent::OutputLeave { group, output });
    if s.groups.contains_key(group) {
        lemma_left_holds(s.groups[group].outputs, output);
    }
    assert(t.groups.dom() =~= s.groups.dom());
}

/// A new group is known and empty, a removed one is not known, and an output is
/// called what was said last; nothing else changes.
pub proof fn law_groups_and_outputs_are_as_said(
    s: SessionView,
    group: u32,
    output: u32,
    name: String,
)
    ensures
        ({
            let t = after(s, SessionEvent::WorkspaceGroup { group });
            &&& t.workspaces == s.workspaces
            &&& t.outputs == s.outputs
            &&& t.groups.contains_key(group)
            &&& t.groups[group].outputs.len() == 0
            &&& t.groups[group].workspaces.len() == 0
            &&& forall|g: u32|
                g != group ==> (#[trigger] t.groups.contains_key(g) <==> s.groups.contains_key(g))
            &&& forall|g: u32|
                g != group && #[trigger] s.groups.contains_key(g) ==> t.groups[g] == s.groups[g]
        }),
        ({
            let t = after(s, SessionEvent::GroupRemoved { group });
            &&& t.workspaces == s.workspaces
            &&& t.outputs == s.outputs
            &&& !t.groups.contains_key(group)
            &&& forall|g: u32|
                g != group ==> (#[trigger] t.groups.contains_key(g) <==> s.groups.contains_key(g))
            &&& forall|g: u32|
                g != group && #[trigger] s.groups.contains_key(g) ==> t.groups[g] == s.groups[g]
        }),
        ({
            let t = after(s, SessionEvent::OutputName { output, name });
            &&& t.workspaces == s.workspaces
            &&& t.groups == s.groups
            &&& t.outputs.contains_key(output)
            &&& t.outputs[output] == name
            &&& forall|o: u32|
                o != output ==> (#[trigger] t.outputs.contains_key(o)
                    <==> s.outputs.contains_key(o))
            &&& forall|o: u32|
                o != output && #[trigger] s.outputs.contains_key(o) ==> t.outputs[o] == s.outputs[o]
        }),
{
}

/// What a row of events does, one after the other.
pub open spec fn after_all(s: SessionView, events: Seq<SessionEvent>) -> SessionView
    decreases events.len(),
{
    if events.len() == 0 {
        s
    } else {
        after(after_all(s, events.drop_last()), events.last())
    }
}

/// Whether an event may change the flags of a workspace: it gives its state,
/// announces it or takes it away.
pub open spec fn is_about_flags(event: SessionEvent, workspace: u32) -> bool {
    match event {
        SessionEvent::State { workspace: w, .. } => w == workspace,
        SessionEvent::Workspace { workspace: w } => w == workspace,
        SessionEvent::Removed { workspace: w } => w == workspace,
        _ => false,
    }
}

/// The last state that was given for a workspace that was known then is the one
/// it has, whatever else has happened since, and it is the only one.
pub proof fn law_last_state_counts(
    s: SessionView,
    events: Seq<SessionEvent>,
    k: int,
    workspace: u32,
    active: bool,
    urgent: bool,
)
    requires
        by_number(s.workspaces),
        0 <= k < events.len(),
        events[k] == (SessionEvent::State { workspace, active, urgent }),
        exists|b: WsBuilder| #[trigger]
            after_all(s, events.take(k)).workspaces.contains((workspace, b)),
        forall|j: int|
            k < j < events.len() ==> !is_about_flags(#[trigger] events[j], workspace),
    ensures
        by_number(after_all(s, events).workspaces),
        exists|b: WsBuilder| #[trigger]
            after_all(s, events).workspaces.contains((workspace, b)),
        forall|b: WsBuilder| #[trigger]
            after_all(s, events).workspaces.contains((workspace, b)) ==> b.active == active
                && b.urgent == urgent,
    decreases events.len(),
{
    let before = events.drop_last();
    let m = after_all(s, before);
    let t = after_all(s, events);
    lemma_events_keep_order(s, before);
    law_events_keep_order(m, events.last());
    if k == events.len() - 1 {
        assert(events.take(k) == before);
        law_state_is_as_said(m, workspace, active, urgent);
    } else {
        assert(before.take(k) == events.take(k));
        assert(before[k] == events[k]);
        assert forall|j: int| k < j < before.len() implies !is_about_flags(
            #[trigger] before[j],
            workspace,
        ) by {
            assert(before[j] == events[j]);
        }
        law_last_state_counts(s, before, k, workspace, active, urgent);
        let b = choose|b: WsBuilder| #[trigger] m.workspaces.contains((workspace, b));
        assert(!is_about_flags(events[events.len() - 1], workspace));
        match events.last() {
            SessionEvent::State { workspace: w, active: a, urgent: u } => {
                law_state_is_as_said(m, w, a, u);
                assert(t.workspaces.contains((workspace, b)));
            },
            SessionEvent::Name { workspace: w, name } => {
                law_name_is_as_said(m, w, name);
                lemma_builder_holds(m.workspaces, workspace);
                lemma_builder_holds(t.workspaces, workspace);
                if w != workspace {
                    assert(t.workspaces.contains((workspace, b)));
                }
            },
            SessionEvent::Workspace { workspace: w } => {
                law_workspaces_come_and_go(m, w);
                assert(t.workspaces.contains((workspace, b)));
            },
            SessionEvent::Removed { workspace: w } => {
                law_workspaces_come_and_go(m, w);
                assert(t.workspaces.contains((workspace, b)));
            },
            SessionEvent::WorkspaceEnter { group, workspace: w } => {
                law_workspace_enters_group(m, group, w);
                lemma_builder_holds(m.workspaces, workspace);
                lemma_builder_holds(t.workspaces, workspace);
                if w != workspace {
                    assert(t.workspaces.contains((workspace, b)));
                }
            },
            SessionEvent::WorkspaceLeave { group, workspace: w } => {
                law_workspace_leaves_group(m, group, w);
                lemma_builder_holds(m.workspaces, workspace);
                lemma_builder_holds(t.workspaces, workspace);
                if w != workspace || b.group_pid is Some && b.group_pid != Some(group) {
                    assert(t.workspaces.contains((workspace, b)));
                }
            },
            _ => {
                assert(t.workspaces == m.workspaces);
            },
        }
    }
}

proof fn lemma_events_keep_order(s: SessionView, events: Seq<SessionEvent>)
    requires
        by_number(s.workspaces),
    ensures
        by_number(after_all(s, events).workspaces),
    decreases events.len(),
{
    if events.len() > 0 {
        lemma_events_keep_order(s, events.drop_last());
        law_events_keep_order(after_all(s, events.drop_last()), events.last());
    }
}

// ---------------------------------------------------------------------------
// Laws of what is shown
// ---------------------------------------------------------------------------

proof fn lemma_first_named(o: Seq<u32>, names: Map<u32, String>)
    ensures
        first_named(o, names) is None ==> forall|i: int|
            0 <= i < o.len() ==> !names.contains_key(#[trigger] o[i]),
        first_named(o, names) is Some ==> exists|k: int|
            {
                &&& 0 <= k < o.len()
                &&& names.contains_key(#[trigger] o[k])
                &&& first_named(o, names) == Some(names[o[k]]@)
                &&& forall|i: int| 0 <= i < k ==> !names.contains_key(#[trigger] o[i])
            },
    decreases o.len(),
{
    if o.len() > 0 {
        if names.contains_key(o[0]) {
            assert(0 <= 0 < o.len() && names.contains_key(o[0]));
        } else {
            let t = o.drop_first();
            lemma_first_named(t, names);
            if first_named(t, names) is Some {
                let k = choose|k: int|
                    {
                        &&& 0 <= k < t.len()
                        &&& names.contains_key(#[trigger] t[k])
                        &&& first_named(t, names) == Some(names[t[k]]@)
                        &&& forall|i: int| 0 <= i < k ==> !names.contains_key(#[trigger] t[i])
                    };
                assert(o[k + 1] == t[k]);
                assert forall|i: int| 0 <= i < k + 1 implies !names.contains_key(
                    #[trigger] o[i],
                ) by {
                    if i > 0 {
                        assert(t[i - 1] == o[i]);
                    }
                }
            } else {
                assert forall|i: int| 0 <= i < o.len() implies !names.contains_key(
                    #[trigger] o[i],
                ) by {
                    if i > 0 {
                        assert(t[i - 1] == o[i]);
                    }
                }
            }
        }
    }
}

/// A group is shown on the first of its outputs that has a name. It is shown on
/// none if none of them has one, or if the group is not known.
pub proof fn law_group_is_on_its_first_named_output(s: SessionView, group: u32)
    ensures
        group_output(s, None) is None,
        !s.groups.contains_key(group) ==> group_output(s, Some(group)) is None,
        s.groups.contains_key(group) ==> {
            let o = s.groups[group].outputs;
            &&& group_output(s, Some(group)) is None ==> forall|i: int|
                0 <= i < o.len() ==> !s.outputs.contains_key(#[trigger] o[i])
            &&& forall|k: int|
                {
                    &&& 0 <= k < o.len()
                    &&& s.outputs.contains_key(#[trigger] o[k])
                    &&& forall|i: int| 0 <= i < k ==> !s.outputs.contains_key(#[trigger] o[i])
                } ==> group_output(s, Some(group)) == Some(s.outputs[o[k]]@)
        },
{
    if s.groups.contains_key(group) {
        lemma_first_named(s.groups[group].outputs, s.outputs);
    }
}

proof fn lemma_rows(s: SessionView, w: Seq<(u32, WsBuilder)>)
    ensures
        forall|i: int|
            0 <= i < w.len() && (#[trigger] w[i]).1.name is Some ==> rows_of(s, w).contains(
                (w[i].0, row_of(s, w[i].1)),
            ),
        forall|r: (u32, WsView)| #[trigger]
            rows_of(s, w).contains(r) ==> exists|i: int|
                0 <= i < w.len() && (#[trigger] w[i]).1.name is Some && r == (
                    w[i].0,
                    row_of(s, w[i].1),
                ),
    decreases w.len(),
{
    if w.len() > 0 {
        let t = w.drop_last();
        lemma_rows(s, t);
        let rest = rows_of(s, t);
        let all = rows_of(s, w);
        assert forall|i: int| 0 <= i < w.len() && (#[trigger] w[i]).1.name is Some implies
            all.contains((w[i].0, row_of(s, w[i].1))) by {
            if i < t.len() {
                assert(t[i] == w[i]);
                let k = choose|k: int|
                    0 <= k < rest.len() && rest[k] == (w[i].0, row_of(s, w[i].1));
                assert(all[k] == rest[k]);
            } else {
                assert(all[rest.len() as int] == (w[i].0, row_of(s, w[i].1)));
            }
        }
        assert forall|r: (u32, WsView)| #[trigger] all.contains(r) implies exists|i: int|
            0 <= i < w.len() && (#[trigger] w[i]).1.name is Some && r == (
                w[i].0,
                row_of(s, w[i].1),
            ) by {
            let k = choose|k: int| 0 <= k < all.len() && all[k] == r;
            if k < rest.len() {
                assert(rest[k] == r);
                assert(rest.contains(r));
                let i = choose|i: int|
                    0 <= i < t.len() && (#[trigger] t[i]).1.name is Some && r == (
                        t[i].0,
                        row_of(s, t[i].1),
                    );
                assert(w[i] == t[i]);
            } else {
                assert(w[w.len() - 1] == w.last());
            }
        }
    }
}

proof fn lemma_first_active(w: Seq<WsView>)
    ensures
        first_active(w) is None ==> forall|i: int|
            0 <= i < w.len() ==> !(#[trigger] w[i]).active,
        first_active(w) is Some ==> exists|k: int|
            {
                &&& 0 <= k < w.len()
                &&& (#[trigger] w[k]).active
                &&& first_active(w) == Some(w[k].id)
                &&& forall|i: int| 0 <= i < k ==> !(#[trigger] w[i]).active
            },
    decreases w.len(),
{
    if w.len() > 0 {
        let t = w.drop_first();
        if w[0].active {
            assert(0 <= 0 < w.len() && w[0].active);
        } else {
            lemma_first_active(t);
            if first_active(t) is Some {
                let k = choose|k: int|
                    {
                        &&& 0 <= k < t.len()
                        &&& (#[trigger] t[k]).active
                        &&& first_active(t) == Some(t[k].id)
                        &&& forall|i: int| 0 <= i < k ==> !(#[trigger] t[i]).active
                    };
                assert(w[k + 1] == t[k]);
                assert forall|i: int| 0 <= i < k + 1 implies !(#[trigger] w[i]).active by {
                    if i > 0 {
                        assert(t[i - 1] == w[i]);
                    }
                }
            } else {
                assert forall|i: int| 0 <= i < w.len() implies !(#[trigger] w[i]).active by {
                    if i > 0 {
                        assert(t[i - 1] == w[i]);
                    }
                }
            }
        }
    }
}

/// A snapshot shows each workspace that has a name, under that name, with the
/// flags that it has and on the output of its group, and shows nothing else.
pub proof fn law_snapshot_shows_the_named_workspaces(s: SessionView, shown: StateView)
    requires
        is_snapshot(s, shown),
    ensures
        forall|pid: u32, b: WsBuilder| #[trigger]
            s.workspaces.contains((pid, b)) && b.name is Some ==> exists|k: int|
                {
                    &&& 0 <= k < shown.workspaces.len()
                    &&& (#[trigger] shown.workspaces[k]).name == b.name->0@
                    &&& shown.workspaces[k].id == b.name->0@
                    &&& shown.workspaces[k].active == b.active
                    &&& shown.workspaces[k].urgent == b.urgent
                    &&& shown.workspaces[k].output == group_output(s, b.group_pid)
                },
        forall|k: int|
            0 <= k < shown.workspaces.len() ==> exists|pid: u32, b: WsBuilder|
                {
                    &&& #[trigger] s.workspaces.contains((pid, b))
                    &&& b.name is Some
                    &&& (#[trigger] shown.workspaces[k]).name == b.name->0@
                    &&& shown.workspaces[k].id == b.name->0@
                    &&& shown.workspaces[k].active == b.active
                    &&& shown.workspaces[k].urgent == b.urgent
                    &&& shown.workspaces[k].output == group_output(s, b.group_pid)
                },
{
    let w = s.workspaces;
    let rows = rows_of(s, w);
    let input = rows.map_values(|r: (u32, WsView)| r.1);
    let ranks = |a: WsView, b: WsView| Workspace::ranks(a, b);
    lemma_rows(s, w);
    assert forall|a: WsView| #[trigger] ranks(a, a) by {
        Workspace::ranks_total(a, a);
    }
    sorting::law_sorting_loses_nothing(input, shown.workspaces, ranks);
    assert forall|pid: u32, b: WsBuilder| #[trigger]
        w.contains((pid, b)) && b.name is Some implies exists|k: int|
        {
            &&& 0 <= k < shown.workspaces.len()
            &&& (#[trigger] shown.workspaces[k]).name == b.name->0@
            &&& shown.workspaces[k].id == b.name->0@
            &&& shown.workspaces[k].active == b.active
            &&& shown.workspaces[k].urgent == b.urgent
            &&& shown.workspaces[k].output == group_output(s, b.group_pid)
        } by {
        let i = choose|i: int| 0 <= i < w.len() && w[i] == (pid, b);
        assert(w[i].1.name is Some);
        let j = choose|j: int| 0 <= j < rows.len() && rows[j] == (w[i].0, row_of(s, w[i].1));
        assert(input[j] == row_of(s, b));
        assert(input.contains(row_of(s, b)));
        assert(shown.workspaces.contains(row_of(s, b)));
    }
    assert forall|k: int| 0 <= k < shown.workspaces.len() implies exists|pid: u32, b: WsBuilder|
        {
            &&& #[trigger] w.contains((pid, b))
            &&& b.name is Some
            &&& (#[trigger] shown.workspaces[k]).name == b.name->0@
            &&& shown.workspaces[k].id == b.name->0@
            &&& shown.workspaces[k].active == b.active
            &&& shown.workspaces[k].urgent == b.urgent
            &&& shown.workspaces[k].output == group_output(s, b.group_pid)
        } by {
        let x = shown.workspaces[k];
        assert(shown.workspaces.contains(x));
        assert(input.contains(x));
        let j = choose|j: int| 0 <= j < input.len() && input[j] == x;
        assert(rows[j].1 == x);
        assert(rows.contains(rows[j]));
        let i = choose|i: int|
            0 <= i < w.len() && (#[trigger] w[i]).1.name is Some && rows[j] == (
                w[i].0,
                row_of(s, w[i].1),
            );
        assert(w.contains((w[i].0, w[i].1)));
    }
}

/// A snapshot lists first the workspaces without an output, then those of each
/// output together, the outputs in the order of their names, and those of one
/// output by name. The active workspace is the first listed one that is active,
/// and there is none only if none is.
pub proof fn law_snapshot_is_in_order(s: SessionView, shown: StateView)
    requires
        is_snapshot(s, shown),
    ensures
        forall|i: int, j: int|
            0 <= i < j < shown.workspaces.len() ==> {
                let a = #[trigger] shown.workspaces[i];
                let b = #[trigger] shown.workspaces[j];
                &&& b.output is None ==> a.output is None
                &&& a.output == b.output ==> sorting::text_le(a.name, b.name)
                &&& a.output is Some && b.output is Some ==> sorting::text_le(
                    a.output->0,
                    b.output->0,
                )
            },
        shown.active is None ==> forall|i: int|
            0 <= i < shown.workspaces.len() ==> !(#[trigger] shown.workspaces[i]).active,
        forall|k: int|
            {
                &&& 0 <= k < shown.workspaces.len()
                &&& (#[trigger] shown.workspaces[k]).active
                &&& forall|i: int| 0 <= i < k ==> !(#[trigger] shown.workspaces[i]).active
            } ==> shown.active == Some(shown.workspaces[k].id),
        shown.active is Some ==> exists|k: int|
            0 <= k < shown.workspaces.len() && (#[trigger] shown.workspaces[k]).active
                && shown.active == Some(shown.workspaces[k].id),
{
    let rows = rows_of(s, s.workspaces);
    let input = rows.map_values(|r: (u32, WsView)| r.1);
    let ranks = |a: WsView, b: WsView| Workspace::ranks(a, b);
    assert forall|a: WsView| #[trigger] ranks(a, a) by {
        Workspace::ranks_total(a, a);
    }
    sorting::law_sorting_loses_nothing(input, shown.workspaces, ranks);
    assert forall|i: int, j: int| 0 <= i < j < shown.workspaces.len() implies {
        let a = #[trigger] shown.workspaces[i];
        let b = #[trigger] shown.workspaces[j];
        &&& b.output is None ==> a.output is None
        &&& a.output == b.output ==> sorting::text_le(a.name, b.name)
        &&& a.output is Some && b.output is Some ==> sorting::text_le(a.output->0, b.output->0)
    } by {
        let a = shown.workspaces[i];
        let b = shown.workspaces[j];
        assert(ranks(a, b));
        if a.output is Some {
            sorting::lemma_text_le_total(a.output->0, a.output->0);
        }
    }
    lemma_first_active(shown.workspaces);
}

proof fn lemma_with_handle_exact(
    h: Seq<HandleView>,
    x: HandleView,
    name: Seq<char>,
    output: Option<Seq<char>>,
)
    ensures
        exact_handle(with_handle(h, x), name, output) == if name == x.name && output == x.output {
            Some(x.pid)
        } else {
            exact_handle(h, name, output)
        },
        forall|i: int|
            0 <= i < with_handle(h, x).len() ==> (#[trigger] with_handle(h, x)[i]) == x
                || h.contains(with_handle(h, x)[i]),
    decreases h.len(),
{
    let t = with_handle(h, x);
    if h.len() == 0 {
        assert(t[0] == x);
        assert(t.drop_first() =~= Seq::empty());
        assert(exact_handle(t.drop_first(), name, output) is None);
    } else if h[0].name == x.name && h[0].output == x.output {
        assert(t.drop_first() == h.drop_first());
        assert(t[0] == x);
        assert forall|i: int| 0 <= i < t.len() implies (#[trigger] t[i]) == x || h.contains(
            t[i],
        ) by {
            if i > 0 {
                assert(t[i] == h[i]);
            }
        }
    } else {
        let r = with_handle(h.drop_first(), x);
        lemma_with_handle_exact(h.drop_first(), x, name, output);
        assert(t.drop_first() == r);
        assert(t[0] == h[0]);
        assert forall|i: int| 0 <= i < t.len() implies (#[trigger] t[i]) == x || h.contains(
            t[i],
        ) by {
            if i > 0 {
                assert(t[i] == r[i - 1]);
                if r[i - 1] != x {
                    let k = choose|k: int|
                        0 <= k < h.drop_first().len() && h.drop_first()[k] == r[i - 1];
                    assert(h[k + 1] == t[i]);
                }
            } else {
                assert(h.contains(h[0]));
            }
        }
    }
}

proof fn lemma_exact_handles(rows: Seq<(u32, WsView)>, name: Seq<char>, output: Option<Seq<char>>)
    ensures
        exact_handle(handles_of(rows), name, output) is None ==> forall|i: int|
            0 <= i < rows.len() ==> !((#[trigger] rows[i]).1.name == name && rows[i].1.output
                == output),
        forall|i: int|
            {
                &&& 0 <= i < rows.len()
                &&& (#[trigger] rows[i]).1.name == name
                &&& rows[i].1.output == output
                &&& forall|j: int|
                    i < j < rows.len() ==> !((#[trigger] rows[j]).1.name == name
                        && rows[j].1.output == output)
            } ==> exact_handle(handles_of(rows), name, output) == Some(rows[i].0),
        exact_handle(handles_of(rows), name, output) is Some ==> exists|i: int|
            0 <= i < rows.len() && (#[trigger] rows[i]).1.name == name && rows[i].1.output == output
                && exact_handle(handles_of(rows), name, output) == Some(rows[i].0),
        forall|k: int|
            0 <= k < handles_of(rows).len() ==> exists|i: int|
                0 <= i < rows.len() && (#[trigger] rows[i]).1.name == (#[trigger] handles_of(
                    rows,
                )[k]).name && rows[i].0 == handles_of(rows)[k].pid,
    decreases rows.len(),
{
    if rows.len() > 0 {
        let t = rows.drop_last();
        let (pid, w) = rows.last();
        let x = HandleView { name: w.name, output: w.output, pid };
        let h = handles_of(t);
        lemma_exact_handles(t, name, output);
        lemma_with_handle_exact(h, x, name, output);
        let n = rows.len() - 1;
        let e = exact_handle(handles_of(rows), name, output);
        assert(rows[n] == rows.last());
        assert(forall|i: int| 0 <= i < n ==> #[trigger] t[i] == rows[i]);
        if !(name == w.name && output == w.output) {
            assert(e == exact_handle(h, name, output));
            if e is None {
                assert forall|i: int| 0 <= i < rows.len() implies !((
                #[trigger] rows[i]).1.name == name && rows[i].1.output == output) by {
                    if i < n {
                        assert(t[i] == rows[i]);
                    }
                }
            } else {
                let i = choose|i: int|
                    0 <= i < t.len() && (#[trigger] t[i]).1.name == name && t[i].1.output == output
                        && exact_handle(h, name, output) == Some(t[i].0);
                assert(rows[i] == t[i]);
            }
            assert forall|i: int|
                {
                    &&& 0 <= i < rows.len()
                    &&& (#[trigger] rows[i]).1.name == name
                    &&& rows[i].1.output == output
                    &&& forall|j: int|
                        i < j < rows.len() ==> !((#[trigger] rows[j]).1.name == name
                            && rows[j].1.output == output)
                } implies e == Some(rows[i].0) by {
                assert(t[i] == rows[i]);
                assert forall|j: int| i < j < t.len() implies !((#[trigger] t[j]).1.name == name
                    && t[j].1.output == output) by {
                    assert(t[j] == rows[j]);
                }
            }
        }
        let all = handles_of(rows);
        assert forall|k: int| 0 <= k < all.len() implies exists|i: int|
            0 <= i < rows.len() && (#[trigger] rows[i]).1.name == (#[trigger] all[k]).name
                && rows[i].0 == all[k].pid by {
            if all[k] == x {
                assert(rows[n].1.name == x.name);
            } else {
                let m = choose|m: int| 0 <= m < h.len() && h[m] == all[k];
                let i = choose|i: int|
                    0 <= i < t.len() && (#[trigger] t[i]).1.name == h[m].name && t[i].0 == h[m].pid;
                assert(rows[i] == t[i]);
            }
        }
    }
}

proof fn lemma_named_handle(h: Seq<HandleView>, name: Seq<char>)
    ensures
        named_handle(h, name) is None ==> forall|i: int|
            0 <= i < h.len() ==> (#[trigger] h[i]).name != name,
        named_handle(h, name) is Some ==> exists|i: int|
            0 <= i < h.len() && (#[trigger] h[i]).name == name && named_handle(h, name) == Some(
                h[i].pid,
            ),
    decreases h.len(),
{
    if h.len() > 0 {
        let t = h.drop_first();
        lemma_named_handle(t, name);
        if h[0].name != name {
            if named_handle(t, name) is Some {
                let i = choose|i: int|
                    0 <= i < t.len() && (#[trigger] t[i]).name == name && named_handle(t, name)
                        == Some(t[i].pid);
                assert(h[i + 1] == t[i]);
            } else {
                assert forall|i: int| 0 <= i < h.len() implies (#[trigger] h[i]).name != name by {
                    if i > 0 {
                        assert(h[i] == t[i - 1]);
                    }
                }
            }
        } else {
            assert(h[0].name == name);
        }
    }
}

proof fn lemma_exact_is_named(h: Seq<HandleView>, name: Seq<char>, output: Option<Seq<char>>)
    requires
        exact_handle(h, name, output) is Some,
    ensures
        exists|i: int| 0 <= i < h.len() && (#[trigger] h[i]).name == name,
    decreases h.len(),
{
    if h[0].name == name {
        assert(h[0].name == name);
    } else {
        let t = h.drop_first();
        lemma_exact_is_named(t, name, output);
        let i = choose|i: int| 0 <= i < t.len() && (#[trigger] t[i]).name == name;
        assert(h[i + 1] == t[i]);
    }
}

/// What is activated for a name and an output is a workspace of that name: the
/// last of those on that output, or one on another output if there is none
/// there. Nothing is activated only if no workspace has the name.
pub proof fn law_activation_finds_the_workspace(
    rows: Seq<(u32, WsView)>,
    name: Seq<char>,
    output: Option<Seq<char>>,
)
    ensures
        forall|i: int|
            {
                &&& 0 <= i < rows.len()
                &&& (#[trigger] rows[i]).1.name == name
                &&& rows[i].1.output == output
                &&& forall|j: int|
                    i < j < rows.len() ==> !((#[trigger] rows[j]).1.name == name
                        && rows[j].1.output == output)
            } ==> handle_for(handles_of(rows), name, output) == Some(rows[i].0),
        handle_for(handles_of(rows), name, output) is Some ==> exists|i: int|
            0 <= i < rows.len() && (#[trigger] rows[i]).1.name == name && handle_for(
                handles_of(rows),
                name,
                output,
            ) == Some(rows[i].0),
        handle_for(handles_of(rows), name, output) is None ==> forall|i: int|
            0 <= i < rows.len() ==> (#[trigger] rows[i]).1.name != name,
{
    let h = handles_of(rows);
    lemma_exact_handles(rows, name, output);
    lemma_named_handle(h, name);
    if exact_handle(h, name, output) is None && named_handle(h, name) is Some {
        let k = choose|k: int|
            0 <= k < h.len() && (#[trigger] h[k]).name == name && named_handle(h, name) == Some(
                h[k].pid,
            );
        let i = choose|i: int|
            0 <= i < rows.len() && (#[trigger] rows[i]).1.name == h[k].name && rows[i].0
                == h[k].pid;
        assert(rows[i].1.name == name);
    }
    if handle_for(h, name, output) is None {
        assert forall|i: int| 0 <= i < rows.len() implies (#[trigger] rows[i]).1.name != name by {
            if rows[i].1.name == name {
                law_shown_workspaces_can_be_activated(rows, i);
                lemma_exact_is_named(h, name, rows[i].1.output);
            }
        }
    }
}

/// The rows that handles are made of are the named workspaces, each with its
/// number.
pub proof fn law_rows_carry_the_numbers(s: SessionView, w: Seq<(u32, WsBuilder)>)
    ensures
        forall|i: int|
            0 <= i < w.len() && (#[trigger] w[i]).1.name is Some ==> exists|k: int|
                {
                    &&& 0 <= k < rows_of(s, w).len()
                    &&& (#[trigger] rows_of(s, w)[k]).0 == w[i].0
                    &&& rows_of(s, w)[k].1.name == w[i].1.name->0@
                    &&& rows_of(s, w)[k].1.output == group_output(s, w[i].1.group_pid)
                },
        forall|r: (u32, WsView)| #[trigger]
            rows_of(s, w).contains(r) ==> exists|i: int|
                {
                    &&& 0 <= i < w.len()
                    &&& (#[trigger] w[i]).1.name is Some
                    &&& r.0 == w[i].0
                    &&& r.1.name == w[i].1.name->0@
                    &&& r.1.output == group_output(s, w[i].1.group_pid)
                },
{
    lemma_rows(s, w);
    let rows = rows_of(s, w);
    assert forall|i: int| 0 <= i < w.len() && (#[trigger] w[i]).1.name is Some implies exists|
        k: int,
    |
        {
            &&& 0 <= k < rows.len()
            &&& (#[trigger] rows[k]).0 == w[i].0
            &&& rows[k].1.name == w[i].1.name->0@
            &&& rows[k].1.output == group_output(s, w[i].1.group_pid)
        } by {
        let k = choose|k: int| 0 <= k < rows.len() && rows[k] == (w[i].0, row_of(s, w[i].1));
        assert(rows[k].0 == w[i].0);
    }
}

/// What a bar is told takes effect whole: a focus event makes exactly the
/// workspaces of that name active and changes nothing else of them, a snapshot
/// replaces everything, and a lost connection leaves nothing.
pub proof fn law_bar_shows_what_it_is_told(s: StateView, id: WorkspaceId, n: WorkspaceState)
    ensures
        ({
            let t = state_after(s, WorkspaceEvent::Focus(id));
            &&& t.active == Some(id.0@)
            &&& t.workspaces.len() == s.workspaces.len()
            &&& forall|i: int|
                0 <= i < s.workspaces.len() ==> {
                    &&& ((#[trigger] t.workspaces[i]).active <==> s.workspaces[i].id == id.0@)
                    &&& t.workspaces[i].id == s.workspaces[i].id
                    &&& t.workspaces[i].name == s.workspaces[i].name
                    &&& t.workspaces[i].urgent == s.workspaces[i].urgent
                    &&& t.workspaces[i].output == s.workspaces[i].output
                }
        }),
        state_after(s, WorkspaceEvent::Snapshot(n)) == n@,
        state_after(s, WorkspaceEvent::Disconnected).workspaces.len() == 0,
        state_after(s, WorkspaceEvent::Disconnected).active is None,
{
}

/// A bar that does not know its output shows every workspace, and a workspace
/// that has no output is shown on every bar; otherwise a bar shows those of its
/// own output. A click moves the focus of every workspace if the bar does not
/// know its output, and else of those on its output alone.
pub proof fn law_bar_shows_its_own_output(x: WsView, output: Option<Seq<char>>)
    ensures
        output is None ==> is_visible(x, output) && on_output(x, output),
        x.output is None ==> is_visible(x, output),
        output is Some && x.output is None ==> !on_output(x, output),
        output is Some && x.output is Some ==> {
            &&& is_visible(x, output) <==> x.output->0 == output->0
            &&& on_output(x, output) <==> x.output->0 == output->0
        },
{
}

/// The entry of a registry name is the first that has it, and there is none
/// only if no entry has it.
pub proof fn law_entry_is_the_first(s: Seq<OutputProbeEntry>, registry_name: u32)
    ensures
        entry_of(s, registry_name) is None ==> forall|i: int|
            0 <= i < s.len() ==> (#[trigger] s[i]).registry_name != registry_name,
        forall|i: int|
            {
                &&& 0 <= i < s.len()
                &&& (#[trigger] s[i]).registry_name == registry_name
                &&& forall|j: int|
                    0 <= j < i ==> (#[trigger] s[j]).registry_name != registry_name
            } ==> entry_of(s, registry_name) == Some(i),
    decreases s.len(),
{
    assert forall|i: int|
        {
            &&& 0 <= i < s.len()
            &&& (#[trigger] s[i]).registry_name == registry_name
            &&& forall|j: int| 0 <= j < i ==> (#[trigger] s[j]).registry_name != registry_name
        } implies entry_of(s, registry_name) == Some(i) by {
        lemma_entry_of(s, registry_name, i);
    }
    if s.len() > 0 && entry_of(s, registry_name) is None {
        law_entry_is_the_first(s.drop_first(), registry_name);
        assert forall|i: int| 0 <= i < s.len() implies (#[trigger] s[i]).registry_name
            != registry_name by {
            if i > 0 {
                assert(s.drop_first()[i - 1] == s[i]);
            }
        }
    }
}

/// The named outputs are those whose name arrived, with their widths, and no
/// others.
pub proof fn law_named_outputs(s: Seq<OutputProbeEntry>)
    ensures
        forall|i: int|
            0 <= i < s.len() && (#[trigger] s[i]).name is Some ==> named_outputs(s).contains(
                (s[i].name->0@, s[i].width),
            ),
        forall|o: (Seq<char>, i32)| #[trigger]
            named_outputs(s).contains(o) ==> exists|i: int|
                0 <= i < s.len() && (#[trigger] s[i]).name is Some && o == (
                    s[i].name->0@,
                    s[i].width,
                ),
    decreases s.len(),
{
    if s.len() > 0 {
        let t = s.drop_last();
        law_named_outputs(t);
        let rest = named_outputs(t);
        let all = named_outputs(s);
        assert forall|i: int| 0 <= i < s.len() && (#[trigger] s[i]).name is Some implies
            all.contains((s[i].name->0@, s[i].width)) by {
            if i < t.len() {
                assert(t[i] == s[i]);
                let k = choose|k: int|
                    0 <= k < rest.len() && rest[k] == (s[i].name->0@, s[i].width);
                assert(all[k] == rest[k]);
            } else {
                assert(all[rest.len() as int] == (s[i].name->0@, s[i].width));
            }
        }
        assert forall|o: (Seq<char>, i32)| #[trigger] all.contains(o) implies exists|i: int|
            0 <= i < s.len() && (#[trigger] s[i]).name is Some && o == (
                s[i].name->0@,
                s[i].width,
            ) by {
            let k = choose|k: int| 0 <= k < all.len() && all[k] == o;
            if k < rest.len() {
                assert(o == rest[k]);
                assert(rest.contains(o));
                let i = choose|i: int|
                    0 <= i < t.len() && (#[trigger] t[i]).name is Some && o == (
                        t[i].name->0@,
                        t[i].width,
                    );
                assert(s[i] == t[i]);
            } else {
                assert(s[s.len() - 1] == s.last());
            }
        }
    }
}

/// Waits double from one attempt to the next until they reach half a minute,
/// and then stay there.
pub proof fn law_waits_double(delay_ms: u64, r: u64)
    requires
        call_ensures(next_delay, (delay_ms,), r),
    ensures
        delay_ms <= 15_000 ==> r == delay_ms + delay_ms,
        delay_ms > 15_000 ==> r == 30_000,
{
}

/// A workspace that is active is painted so, urgent or not; one that is urgent
/// and not active is painted urgent; any other is idle.
pub proof fn law_active_before_urgent(ws: Workspace, r: PillStyle)
    requires
        call_ensures(pill_style, (&ws,), r),
    ensures
        r == PillStyle::Active <==> ws.active,
        r == PillStyle::Urgent <==> ws.urgent && !ws.active,
{
}

/// A bar shows a workspace by the same rule whichever way it is asked, and the
/// handle it activates is the one that the rule finds.
pub proof fn law_bar_asks_by_the_rules(m: WorkspacesModule, ix: usize, shown: bool)
    requires
        ix < m.state.workspaces@.len(),
        call_ensures(WorkspacesModule::shows, (&m, ix), shown),
    ensures
        m.output_name is None ==> shown,
        m.state.workspaces@[ix as int].output is None ==> shown,
        m.output_name is Some && m.state.workspaces@[ix as int].output is Some ==> (shown
            <==> m.output_name->0@ == m.state.workspaces@[ix as int].output->0@),
{
}

/// When a session takes in the state of a workspace that it knows, both flags of
/// that workspace are what was said, whatever they were; its name and its group
/// stay, and so do all other workspaces and every group and output.
pub proof fn law_session_takes_the_state(
    s: &mut Session,
    workspace: u32,
    active: bool,
    urgent: bool,
    i: int,
)
    requires
        old(s).wf(),
        call_ensures(Session::apply, (s, SessionEvent::State { workspace, active, urgent }), ()),
        0 <= i < old(s).workspaces@.len(),
    ensures
        final(s).wf(),
        old(s).workspaces@[i].0 == workspace ==> final(s).workspaces@.contains(
            (
                workspace,
                WsBuilder {
                    name: old(s).workspaces@[i].1.name,
                    active,
                    urgent,
                    group_pid: old(s).workspaces@[i].1.group_pid,
                },
            ),
        ),
        old(s).workspaces@[i].0 != workspace ==> final(s).workspaces@.contains(
            old(s).workspaces@[i],
        ),
        forall|e: (u32, WsBuilder)| #[trigger]
            final(s).workspaces@.contains(e) ==> if e.0 == workspace {
                e.1.active == active && e.1.urgent == urgent
            } else {
                old(s).workspaces@.contains(e)
            },
        final(s)@.groups == old(s)@.groups,
        final(s)@.outputs == old(s)@.outputs,
{
    law_state_is_as_said(old(s)@, workspace, active, urgent);
    law_events_keep_order(old(s)@, SessionEvent::State { workspace, active, urgent });
    assert(old(s).workspaces@.contains(old(s).workspaces@[i]));
    assert(old(s).workspaces@[i] == (old(s).workspaces@[i].0, old(s).workspaces@[i].1));
    assert forall|e: (u32, WsBuilder)| #[trigger] final(s).workspaces@.contains(
        e,
    ) implies if e.0 == workspace {
        e.1.active == active && e.1.urgent == urgent
    } else {
        old(s).workspaces@.contains(e)
    } by {
        assert(e == (e.0, e.1));
    }
}

/// A click on a bar makes, on the bar's output, exactly the target active, and
/// leaves the workspaces of other outputs and everything else as it was; a bar
/// that does not know its output does so for all of them.
pub proof fn law_click_is_shown_at_once(m: &mut WorkspacesModule, target: WorkspaceId, i: int)
    requires
        call_ensures(WorkspacesModule::activate_optimistic, (m, &target), ()),
        0 <= i < old(m).state@.workspaces.len(),
    ensures
        final(m).output_name == old(m).output_name,
        final(m).state@.active == Some(target.0@),
        final(m).state@.workspaces.len() == old(m).state@.workspaces.len(),
        ({
            let x = old(m).state@.workspaces[i];
            let y = final(m).state@.workspaces[i];
            &&& y.id == x.id && y.name == x.name && y.urgent == x.urgent && y.output == x.output
            &&& old(m).output_name is None || x.output == Some(old(m).output_name->0@) ==> (y.active
                <==> x.id == target.0@)
            &&& old(m).output_name is Some && x.output != Some(old(m).output_name->0@) ==> y.active
                == x.active
        }),
{
}

/// After a batch of changes a hub has what the session shows now, and sends it
/// out exactly if it had sent nothing, or something else, before.
pub proof fn law_hub_sends_what_changed(h: &mut Hub, session: Session, r: Option<WorkspaceState>)
    requires
        call_ensures(Hub::flush, (h, &session), r),
    ensures
        final(h).last is Some,
        is_snapshot(session@, final(h).last->0@),
        r is Some <==> old(h).last is None || old(h).last->0@ != final(h).last->0@,
        r is Some ==> r->0@ == final(h).last->0@,
{
}

} // verus!
