//! Window geometries out of the sway tree, and the framing of the i3 IPC
//! protocol that the tree is asked for with.

use vstd::prelude::*;

use crate::text;
use crate::wire;
use crate::wire::ByteOrder;

verus! {

/// One visible toplevel of the tree.
///
/// `output_name` names the output that shows it; `rect` is in absolute
/// compositor pixels.
#[derive(Debug, PartialEq, Eq)]
pub struct WindowGeom {
    pub app_id: String,
    pub title: String,
    pub output_name: String,
    pub rect: Rect,
}

#[derive(Debug, Clone, Copy, PartialEq, Eq, Structural)]
pub struct Rect {
    pub x: i32,
    pub y: i32,
    pub width: u32,
    pub height: u32,
}

/// The part of a tree node that is read.
pub struct RawNode {
    pub name: Option<String>,
    pub node_type: Option<String>,
    pub app_id: Option<String>,
    pub visible: Option<bool>,
    pub focused: Option<bool>,
    pub rect: Option<Rect>,
    pub nodes: Vec<RawNode>,
    pub floating_nodes: Vec<RawNode>,
    pub window_properties: Option<WindowProperties>,
}

pub struct WindowProperties {
    pub class: Option<String>,
}

/// What a [`WindowGeom`] says.
pub struct GeomView {
    pub app_id: Seq<char>,
    pub title: Seq<char>,
    pub output_name: Seq<char>,
    pub rect: Rect,
}

impl View for WindowGeom {
    type V = GeomView;

    open spec fn view(&self) -> GeomView {
        GeomView {
            app_id: self.app_id@,
            title: self.title@,
            output_name: self.output_name@,
            rect: self.rect,
        }
    }
}

/// The characters of an optional string, none if there is no string.
pub open spec fn text_or_empty(o: Option<String>) -> Seq<char> {
    match o {
        Some(s) => s@,
        None => Seq::empty(),
    }
}

/// The window class of an X11 client.
pub open spec fn class_of(node: RawNode) -> Option<String> {
    match node.window_properties {
        Some(p) => p.class,
        None => None,
    }
}

/// The application id of a window, or the window class of an X11 client.
pub open spec fn id_of(node: RawNode) -> Seq<char> {
    if node.app_id is Some {
        text_or_empty(node.app_id)
    } else {
        text_or_empty(class_of(node))
    }
}

/// A container, tiled or floating, with an application id or a window class.
pub open spec fn is_window(node: RawNode) -> bool {
    &&& text::opt(node.node_type) == Some("con"@) || text::opt(node.node_type) == Some(
        "floating_con"@,
    )
    &&& node.app_id is Some || class_of(node) is Some
}

/// The output that the children of `node` are on.
pub open spec fn output_below(node: RawNode, output: Option<Seq<char>>) -> Option<Seq<char>> {
    if text::opt(node.node_type) == Some("output"@) {
        text::opt(node.name)
    } else {
        output
    }
}

/// What `node` itself contributes: itself, if it is a visible window with a
/// rectangle on a known output.
pub open spec fn own_window(node: RawNode, output: Option<Seq<char>>) -> Seq<GeomView> {
    match (node.rect, output) {
        (Some(rect), Some(output_name)) => if is_window(node) && node.visible == Some(true) {
            seq![
                GeomView {
                    app_id: id_of(node),
                    title: text_or_empty(node.name),
                    output_name,
                    rect,
                },
            ]
        } else {
            Seq::empty()
        },
        _ => Seq::empty(),
    }
}

/// The visible windows of the tree below `node`, in depth-first order, tiled
/// children before floating ones.
pub open spec fn windows_of(node: RawNode, output: Option<Seq<char>>) -> Seq<GeomView>
    decreases node, 0nat,
{
    let o = output_below(node, output);
    own_window(node, o) + windows_in(node.nodes@, node.nodes@.len(), o) + windows_in(
        node.floating_nodes@,
        node.floating_nodes@.len(),
        o,
    )
}

/// The visible windows of the first `n` of the given trees.
pub open spec fn windows_in(nodes: Seq<RawNode>, n: nat, output: Option<Seq<char>>) -> Seq<GeomView>
    decreases nodes, n,
{
    if n == 0 || n > nodes.len() {
        Seq::empty()
    } else {
        windows_in(nodes, (n - 1) as nat, output) + windows_of(nodes[n - 1], output)
    }
}

/// The views of a list of windows.
pub open spec fn geoms(v: Seq<WindowGeom>) -> Seq<GeomView> {
    v.map_values(|g: WindowGeom| g@)
}

fn is_text(o: &Option<String>, s: &str) -> (r: bool)
    ensures
        r == (text::opt(*o) == Some(s@)),
{
    match o {
        Some(t) => text::str_eq(t.as_str(), s),
        None => false,
    }
}

fn text_or_default(o: &Option<String>) -> (r: String)
    ensures
        r@ == text_or_empty(*o),
{
    match o {
        Some(s) => s.clone(),
        None => String::new(),
    }
}

fn window_class(node: &RawNode) -> (r: &Option<String>)
    ensures
        *r == class_of(*node),
{
    match &node.window_properties {
        Some(p) => &p.class,
        None => &None,
    }
}

fn window_id(node: &RawNode) -> (r: String)
    ensures
        r@ == id_of(*node),
{
    match &node.app_id {
        Some(a) => a.clone(),
        None => text_or_default(window_class(node)),
    }
}

/// Appends the visible windows of the tree below `node`.
pub fn walk(node: &RawNode, output: Option<&str>, out: &mut Vec<WindowGeom>)
    ensures
        geoms(final(out)@) == geoms(old(out)@) + windows_of(
            *node,
            text::opt_str(output),
        ),
    decreases node,
{
    let here: Option<&str> = if is_text(&node.node_type, "output") {
        match &node.name {
            Some(n) => Some(n.as_str()),
            None => None,
        }
    } else {
        output
    };
    let ghost above = text::opt_str(output);
    let ghost o = output_below(*node, above);
    proof {
        assert(o == text::opt_str(here));
    }
    let class = window_class(node);
    let container = is_text(&node.node_type, "con") || is_text(&node.node_type, "floating_con");
    let window = container && (node.app_id.is_some() || class.is_some());
    let visible = match node.visible {
        Some(v) => v,
        None => false,
    };
    let ghost start = geoms(out@);
    if window && visible {
        if let (Some(rect), Some(name)) = (&node.rect, here) {
            let app_id = window_id(node);
            let title = text_or_default(&node.name);
            let geom = WindowGeom { app_id, title, output_name: name.to_owned(), rect: *rect };
            out.push(geom);
            proof {
                assert(geoms(out@) == start + seq![geom@]);
            }
        }
    }
    proof {
        assert(geoms(out@) == start + own_window(*node, o));
    }
    let mut i: usize = 0;
    while i < node.nodes.len()
        invariant
            i <= node.nodes@.len(),
            o == text::opt_str(here),
            geoms(out@) == start + own_window(*node, o) + windows_in(node.nodes@, i as nat, o),
        decreases node.nodes.len() - i,
    {
        walk(&node.nodes[i], here, out);
        i = i + 1;
        proof {
            assert(geoms(out@) == start + own_window(*node, o) + windows_in(
                node.nodes@,
                i as nat,
                o,
            ));
        }
    }
    let ghost tiled = start + own_window(*node, o) + windows_in(
        node.nodes@,
        node.nodes@.len(),
        o,
    );
    let mut j: usize = 0;
    while j < node.floating_nodes.len()
        invariant
            j <= node.floating_nodes@.len(),
            o == text::opt_str(here),
            geoms(out@) == tiled + windows_in(node.floating_nodes@, j as nat, o),
        decreases node.floating_nodes.len() - j,
    {
        walk(&node.floating_nodes[j], here, out);
        j = j + 1;
        proof {
            assert(geoms(out@) == tiled + windows_in(node.floating_nodes@, j as nat, o));
        }
    }
    proof {
        assert(geoms(out@) == start + windows_of(*node, above));
    }
}

/// The visible windows of a whole tree.
pub fn collect_windows(root: &RawNode) -> (r: Vec<WindowGeom>)
    ensures
        geoms(r@) == windows_of(*root, None),
{
    let mut out: Vec<WindowGeom> = Vec::new();
    walk(root, None, &mut out);
    proof {
        assert(geoms(Seq::<WindowGeom>::empty()) + windows_of(*root, None) == windows_of(
            *root,
            None,
        ));
    }
    out
}

// ---------------------------------------------------------------------------
// The focus
// ---------------------------------------------------------------------------

/// The id and the title of the first focused node of the tree below `node`, in
/// depth-first order, tiled children before floating ones.
pub open spec fn focused_in(node: RawNode) -> Option<(Seq<char>, Seq<char>)>
    decreases node, 0nat,
{
    if node.focused == Some(true) {
        Some((id_of(node), text_or_empty(node.name)))
    } else {
        let tiled = focused_among(node.nodes@, node.nodes@.len());
        if tiled is Some {
            tiled
        } else {
            focused_among(node.floating_nodes@, node.floating_nodes@.len())
        }
    }
}

/// The same for the trees below the first `n` of `nodes`.
pub open spec fn focused_among(nodes: Seq<RawNode>, n: nat) -> Option<(Seq<char>, Seq<char>)>
    decreases nodes, n,
{
    if n == 0 || n > nodes.len() {
        None
    } else {
        let before = focused_among(nodes, (n - 1) as nat);
        if before is Some {
            before
        } else {
            focused_in(nodes[n - 1])
        }
    }
}

/// What two optional texts hold.
pub open spec fn both(o: Option<(String, String)>) -> Option<(Seq<char>, Seq<char>)> {
    match o {
        Some((a, b)) => Some((a@, b@)),
        None => None,
    }
}

proof fn lemma_focused_among_grows(nodes: Seq<RawNode>, i: nat, n: nat)
    requires
        i <= n <= nodes.len(),
        focused_among(nodes, i) is Some,
    ensures
        focused_among(nodes, n) == focused_among(nodes, i),
    decreases n,
{
    if i < n {
        lemma_focused_among_grows(nodes, i, (n - 1) as nat);
    }
}

/// The id and the title of the window that has the focus.
pub fn focused_window(node: &RawNode) -> (r: Option<(String, String)>)
    ensures
        both(r) == focused_in(*node),
    decreases node,
{
    if let Some(true) = node.focused {
        return Some((window_id(node), text_or_default(&node.name)));
    }
    let mut i: usize = 0;
    while i < node.nodes.len()
        invariant
            i <= node.nodes@.len(),
            node.focused != Some(true),
            focused_among(node.nodes@, i as nat) is None,
        decreases node.nodes.len() - i,
    {
        let found = focused_window(&node.nodes[i]);
        if found.is_some() {
            proof {
                lemma_focused_among_grows(node.nodes@, (i + 1) as nat, node.nodes@.len());
            }
            return found;
        }
        i = i + 1;
    }
    let mut j: usize = 0;
    while j < node.floating_nodes.len()
        invariant
            j <= node.floating_nodes@.len(),
            node.focused != Some(true),
            focused_among(node.nodes@, node.nodes@.len()) is None,
            focused_among(node.floating_nodes@, j as nat) is None,
        decreases node.floating_nodes.len() - j,
    {
        let found = focused_window(&node.floating_nodes[j]);
        if found.is_some() {
            proof {
                lemma_focused_among_grows(
                    node.floating_nodes@,
                    (j + 1) as nat,
                    node.floating_nodes@.len(),
                );
            }
            return found;
        }
        j = j + 1;
    }
    None
}

// ---------------------------------------------------------------------------
// Framing
// ---------------------------------------------------------------------------

/// The message type that asks for the tree.
pub const MSG_GET_TREE: u32 = 4;

/// Length of a message header.
pub const HEADER_LEN: usize = 14;

/// Why a message could not be read.
#[derive(Debug, Clone, Copy, PartialEq, Eq, Structural)]
pub enum SwayTreeError {
    /// The header does not begin with the protocol's magic bytes.
    BadMagic,
}

/// The bytes that every message begins with: `i3-ipc`.
pub open spec fn magic() -> Seq<u8> {
    seq![0x69, 0x33, 0x2d, 0x69, 0x70, 0x63]
}

/// A message on the wire.
pub open spec fn message(msg_type: u32, payload: Seq<u8>) -> Seq<u8> {
    magic() + wire::word_bytes(payload.len(), 4, ByteOrder::Little) + wire::word_bytes(
        msg_type as nat,
        4,
        ByteOrder::Little,
    ) + payload
}

/// The payload length and the message type that a header announces.
pub open spec fn header(b: Seq<u8>) -> Result<(u32, u32), SwayTreeError> {
    if b.subrange(0, 6) == magic() {
        Ok(
            (
                wire::word(b, 6, 4, ByteOrder::Little) as u32,
                wire::word(b, 10, 4, ByteOrder::Little) as u32,
            ),
        )
    } else {
        Err(SwayTreeError::BadMagic)
    }
}

fn push_magic(out: &mut Vec<u8>)
    ensures
        final(out)@ == old(out)@ + magic(),
{
    out.push(0x69);
    out.push(0x33);
    out.push(0x2d);
    out.push(0x69);
    out.push(0x70);
    out.push(0x63);
    proof {
        assert(out@ == old(out)@ + magic());
    }
}

/// Frames a message.
pub fn write_message(msg_type: u32, payload: &[u8]) -> (r: Vec<u8>)
    requires
        payload@.len() <= u32::MAX,
    ensures
        r@ == message(msg_type, payload@),
{
    let mut buf: Vec<u8> = Vec::new();
    push_magic(&mut buf);
    wire::push_u32(&mut buf, payload.len() as u32, ByteOrder::Little);
    wire::push_u32(&mut buf, msg_type, ByteOrder::Little);
    let ghost head = buf@;
    let mut i: usize = 0;
    while i < payload.len()
        invariant
            i <= payload@.len(),
            buf@ == head + payload@.take(i as int),
        decreases payload.len() - i,
    {
        buf.push(payload[i]);
        i = i + 1;
        proof {
            assert(buf@ == head + payload@.take(i as int));
        }
    }
    proof {
        assert(payload@.take(payload@.len() as int) == payload@);
        assert(buf@ == message(msg_type, payload@));
    }
    buf
}

/// Reads a message header: the length of the payload that follows it, and the
/// message type.
pub fn read_header(b: &[u8]) -> (r: Result<(u32, u32), SwayTreeError>)
    requires
        b@.len() == HEADER_LEN,
    ensures
        r == header(b@),
{
    let ok = b[0] == 0x69 && b[1] == 0x33 && b[2] == 0x2d && b[3] == 0x69 && b[4] == 0x70 && b[5]
        == 0x63;
    proof {
        let s = b@.subrange(0, 6);
        if ok {
            assert(s == magic());
        } else if s == magic() {
            assert(s[0] == 0x69 && s[1] == 0x33 && s[2] == 0x2d && s[3] == 0x69 && s[4] == 0x70
                && s[5] == 0x63);
        }
    }
    if !ok {
        return Err(SwayTreeError::BadMagic);
    }
    Ok((wire::read_u32(b, 6, ByteOrder::Little), wire::read_u32(b, 10, ByteOrder::Little)))
}

/// The header of a framed message announces its payload's length and its type,
/// and the payload follows it.
pub proof fn law_message_round_trip(msg_type: u32, payload: Seq<u8>)
    requires
        payload.len() <= u32::MAX,
    ensures
        ({
            let m = message(msg_type, payload);
            &&& m.len() == HEADER_LEN + payload.len()
            &&& header(m.take(HEADER_LEN as int)) == Ok::<(u32, u32), SwayTreeError>(
                (payload.len() as u32, msg_type),
            )
            &&& m.skip(HEADER_LEN as int) == payload
        }),
{
    let len_bytes = wire::word_bytes(payload.len(), 4, ByteOrder::Little);
    let type_bytes = wire::word_bytes(msg_type as nat, 4, ByteOrder::Little);
    reveal_with_fuel(wire::pow256, 5);
    wire::lemma_word_round_trip(payload.len(), 4, ByteOrder::Little);
    wire::lemma_word_round_trip(msg_type as nat, 4, ByteOrder::Little);
    let m = message(msg_type, payload);
    let h = m.take(HEADER_LEN as int);
    assert(m.skip(HEADER_LEN as int) == payload);
    assert(h.subrange(0, 6) == magic());
    assert forall|k: int| 0 <= k < 4 implies #[trigger] h[6 + k] == len_bytes[0 + k] by {}
    assert forall|k: int| 0 <= k < 4 implies #[trigger] h[10 + k] == type_bytes[0 + k] by {}
    wire::lemma_word_local(h, 6, len_bytes, 0, 4, ByteOrder::Little);
    wire::lemma_word_local(h, 10, type_bytes, 0, 4, ByteOrder::Little);
}

// ---------------------------------------------------------------------------
// Laws of the tree
// ---------------------------------------------------------------------------

/// Whether a row of nodes leads down the tree from `root`, each node being a
/// tiled or a floating child of the one before.
pub open spec fn is_path(root: RawNode, path: Seq<RawNode>) -> bool {
    &&& path.len() > 0
    &&& path[0] == root
    &&& forall|k: int|
        0 < k < path.len() ==> path[k - 1].nodes@.contains(#[trigger] path[k])
            || path[k - 1].floating_nodes@.contains(path[k])
}

/// Whether `name` is the name of the nearest output on the way down a path.
pub open spec fn is_nearest_output(path: Seq<RawNode>, name: Seq<char>) -> bool {
    exists|k: int|
        {
            &&& 0 <= k < path.len()
            &&& text::opt((#[trigger] path[k]).node_type) == Some("output"@)
            &&& text::opt(path[k].name) == Some(name)
            &&& forall|j: int|
                k < j < path.len() ==> text::opt((#[trigger] path[j]).node_type) != Some("output"@)
        }
}

/// The output at the end of a path that starts on `output`.
spec fn output_along(path: Seq<RawNode>, output: Option<Seq<char>>) -> Option<Seq<char>>
    decreases path.len(),
{
    if path.len() == 0 {
        output
    } else {
        output_along(path.drop_first(), output_below(path[0], output))
    }
}

proof fn lemma_windows_in(nodes: Seq<RawNode>, n: nat, output: Option<Seq<char>>, g: GeomView)
    requires
        n <= nodes.len(),
    ensures
        windows_in(nodes, n, output).contains(g) <==> exists|i: int|
            0 <= i < n && windows_of(#[trigger] nodes[i], output).contains(g),
    decreases n,
{
    if n > 0 {
        lemma_windows_in(nodes, (n - 1) as nat, output, g);
        let a = windows_in(nodes, (n - 1) as nat, output);
        let b = windows_of(nodes[n - 1], output);
        lemma_contains_of_both(a, b, g);
        if b.contains(g) {
            assert(0 <= n - 1 < n && windows_of(nodes[n - 1], output).contains(g));
        }
        if exists|i: int| 0 <= i < n && windows_of(#[trigger] nodes[i], output).contains(g) {
            let i = choose|i: int|
                0 <= i < n && windows_of(#[trigger] nodes[i], output).contains(g);
            if i < n - 1 {
                assert(a.contains(g));
            }
        }
    }
}

proof fn lemma_contains_of_both(a: Seq<GeomView>, b: Seq<GeomView>, g: GeomView)
    ensures
        (a + b).contains(g) <==> a.contains(g) || b.contains(g),
{
    if a.contains(g) {
        let i = choose|i: int| 0 <= i < a.len() && a[i] == g;
        assert((a + b)[i] == g);
    }
    if b.contains(g) {
        let i = choose|i: int| 0 <= i < b.len() && b[i] == g;
        assert((a + b)[a.len() + i] == g);
    }
}

proof fn lemma_path_on(node: RawNode, child: RawNode, p: Seq<RawNode>)
    requires
        node.nodes@.contains(child) || node.floating_nodes@.contains(child),
        is_path(child, p),
    ensures
        is_path(node, seq![node] + p),
        (seq![node] + p).drop_first() == p,
        (seq![node] + p).last() == p.last(),
{
    let q = seq![node] + p;
    assert(q.drop_first() =~= p);
    assert forall|k: int| 0 < k < q.len() implies q[k - 1].nodes@.contains(#[trigger] q[k])
        || q[k - 1].floating_nodes@.contains(q[k]) by {
        if k > 1 {
            assert(q[k] == p[k - 1]);
            assert(q[k - 1] == p[k - 2]);
        }
    }
}

proof fn lemma_path_off(node: RawNode, q: Seq<RawNode>)
    requires
        is_path(node, q),
        q.len() > 1,
    ensures
        node.nodes@.contains(q[1]) || node.floating_nodes@.contains(q[1]),
        is_path(q[1], q.drop_first()),
        q.drop_first().last() == q.last(),
{
    let p = q.drop_first();
    assert forall|k: int| 0 < k < p.len() implies p[k - 1].nodes@.contains(#[trigger] p[k])
        || p[k - 1].floating_nodes@.contains(p[k]) by {
        assert(q[k + 1] == p[k]);
        assert(q[k] == p[k - 1]);
    }
}

proof fn lemma_windows(node: RawNode, output: Option<Seq<char>>, g: GeomView)
    ensures
        windows_of(node, output).contains(g) <==> exists|path: Seq<RawNode>| #[trigger]
            is_path(node, path) && own_window(path.last(), output_along(path, output)).contains(g),
    decreases node,
{
    let o = output_below(node, output);
    let own = own_window(node, o);
    let tiled = windows_in(node.nodes@, node.nodes@.len(), o);
    let floating = windows_in(node.floating_nodes@, node.floating_nodes@.len(), o);
    lemma_contains_of_both(own + tiled, floating, g);
    lemma_contains_of_both(own, tiled, g);
    lemma_windows_in(node.nodes@, node.nodes@.len(), o, g);
    lemma_windows_in(node.floating_nodes@, node.floating_nodes@.len(), o, g);
    let start = seq![node];
    assert(is_path(node, start));
    assert(start.drop_first() =~= Seq::empty());
    assert(output_along(start.drop_first(), o) == o);
    if windows_of(node, output).contains(g) {
        if own.contains(g) {
            assert(own_window(start.last(), output_along(start, output)).contains(g));
        } else if tiled.contains(g) {
            let i = choose|i: int|
                0 <= i < node.nodes@.len() && windows_of(#[trigger] node.nodes@[i], o).contains(g);
            lemma_windows(node.nodes@[i], o, g);
            let p = choose|p: Seq<RawNode>| #[trigger]
                is_path(node.nodes@[i], p) && own_window(p.last(), output_along(p, o)).contains(g);
            lemma_path_on(node, node.nodes@[i], p);
        } else {
            let i = choose|i: int|
                0 <= i < node.floating_nodes@.len() && windows_of(
                    #[trigger] node.floating_nodes@[i],
                    o,
                ).contains(g);
            lemma_windows(node.floating_nodes@[i], o, g);
            let p = choose|p: Seq<RawNode>| #[trigger]
                is_path(node.floating_nodes@[i], p) && own_window(
                    p.last(),
                    output_along(p, o),
                ).contains(g);
            lemma_path_on(node, node.floating_nodes@[i], p);
        }
    }
    if exists|path: Seq<RawNode>| #[trigger]
        is_path(node, path) && own_window(path.last(), output_along(path, output)).contains(g) {
        let q = choose|q: Seq<RawNode>| #[trigger]
            is_path(node, q) && own_window(q.last(), output_along(q, output)).contains(g);
        if q.len() == 1 {
            assert(q.drop_first() =~= Seq::empty());
            assert(output_along(q.drop_first(), o) == o);
        } else {
            lemma_path_off(node, q);
            if node.nodes@.contains(q[1]) {
                let i = choose|i: int| 0 <= i < node.nodes@.len() && node.nodes@[i] == q[1];
                lemma_windows(node.nodes@[i], o, g);
                assert(tiled.contains(g));
            } else {
                let i = choose|i: int|
                    0 <= i < node.floating_nodes@.len() && node.floating_nodes@[i] == q[1];
                lemma_windows(node.floating_nodes@[i], o, g);
                assert(floating.contains(g));
            }
        }
    }
}

proof fn lemma_output_along(path: Seq<RawNode>, output: Option<Seq<char>>) -> (k: int)
    ensures
        -1 <= k < path.len(),
        k >= 0 ==> text::opt(path[k].node_type) == Some("output"@),
        forall|j: int|
            k < j < path.len() ==> text::opt((#[trigger] path[j]).node_type) != Some("output"@),
        output_along(path, output) == (if k >= 0 {
            text::opt(path[k].name)
        } else {
            output
        }),
    decreases path.len(),
{
    if path.len() == 0 {
        -1
    } else {
        let t = path.drop_first();
        let m = lemma_output_along(t, output_below(path[0], output));
        assert forall|j: int| m + 1 < j < path.len() implies text::opt(
            (#[trigger] path[j]).node_type,
        ) != Some("output"@) by {
            assert(t[j - 1] == path[j]);
        }
        if m >= 0 {
            assert(t[m] == path[m + 1]);
            m + 1
        } else if text::opt(path[0].node_type) == Some("output"@) {
            0
        } else {
            -1
        }
    }
}

/// The listed windows are exactly these: the containers, tiled or floating, at
/// any depth below the root through tiled and floating children, that have an
/// application id or a window class, are visible, have a rectangle and stand
/// below an output. Each is listed with its id, else its class, its title, its
/// rectangle and the name of the nearest output above it.
pub proof fn law_windows_are_the_reachable_ones(root: RawNode, g: GeomView)
    ensures
        windows_of(root, None).contains(g) <==> exists|path: Seq<RawNode>|
            {
                &&& #[trigger] is_path(root, path)
                &&& text::opt(path.last().node_type) == Some("con"@) || text::opt(
                    path.last().node_type,
                ) == Some("floating_con"@)
                &&& path.last().visible == Some(true)
                &&& path.last().rect == Some(g.rect)
                &&& is_nearest_output(path, g.output_name)
                &&& match (path.last().app_id, path.last().window_properties) {
                    (Some(id), _) => g.app_id == id@,
                    (None, Some(p)) => p.class is Some && g.app_id == p.class->0@,
                    (None, None) => false,
                }
                &&& match path.last().name {
                    Some(t) => g.title == t@,
                    None => g.title.len() == 0,
                }
            },
{
    lemma_windows(root, None, g);
    assert forall|path: Seq<RawNode>| #[trigger] is_path(root, path) implies {
        own_window(path.last(), output_along(path, None)).contains(g) <==> {
            &&& text::opt(path.last().node_type) == Some("con"@) || text::opt(
                path.last().node_type,
            ) == Some("floating_con"@)
            &&& path.last().visible == Some(true)
            &&& path.last().rect == Some(g.rect)
            &&& is_nearest_output(path, g.output_name)
            &&& match (path.last().app_id, path.last().window_properties) {
                (Some(id), _) => g.app_id == id@,
                (None, Some(p)) => p.class is Some && g.app_id == p.class->0@,
                (None, None) => false,
            }
            &&& match path.last().name {
                Some(t) => g.title == t@,
                None => g.title.len() == 0,
            }
        }
    } by {
        let o = output_along(path, None);
        let n = path.last();
        let own = own_window(n, o);
        let k = lemma_output_along(path, None);
        if is_nearest_output(path, g.output_name) {
            let m = choose|m: int|
                {
                    &&& 0 <= m < path.len()
                    &&& text::opt((#[trigger] path[m]).node_type) == Some("output"@)
                    &&& text::opt(path[m].name) == Some(g.output_name)
                    &&& forall|j: int|
                        m < j < path.len() ==> text::opt((#[trigger] path[j]).node_type) != Some(
                            "output"@,
                        )
                };
            assert(m == k);
        }
        if o == Some(g.output_name) {
            assert(text::opt(path[k].name) == Some(g.output_name));
            assert(is_nearest_output(path, g.output_name));
        }
        if own.contains(g) {
            let i = choose|i: int| 0 <= i < own.len() && own[i] == g;
            assert(i == 0);
        }
        if n.name is None && g.title.len() == 0 {
            assert(g.title =~= Seq::empty());
        }
        if o is Some && n.rect is Some && is_window(n) && n.visible == Some(true) {
            assert(own.contains(own[0]));
        }
    }
}

proof fn lemma_focused_among(nodes: Seq<RawNode>, n: nat)
    requires
        n <= nodes.len(),
    ensures
        focused_among(nodes, n) is None ==> forall|i: int|
            0 <= i < n ==> focused_in(#[trigger] nodes[i]) is None,
        focused_among(nodes, n) is Some ==> exists|i: int|
            0 <= i < n && focused_in(#[trigger] nodes[i]) == focused_among(nodes, n),
    decreases n,
{
    if n > 0 {
        lemma_focused_among(nodes, (n - 1) as nat);
        if focused_among(nodes, (n - 1) as nat) is None && focused_in(nodes[n - 1]) is Some {
            assert(focused_in(nodes[n - 1]) == focused_among(nodes, n));
        }
    }
}

/// A focused window is found wherever below the root it stands, through tiled
/// and floating children, and what is found is the id, else the class, and the
/// title of a focused node.
pub proof fn law_focus_is_found(root: RawNode)
    ensures
        focused_in(root) is None ==> forall|path: Seq<RawNode>| #[trigger]
            is_path(root, path) ==> path.last().focused != Some(true),
        match focused_in(root) {
            Some((id, title)) => exists|path: Seq<RawNode>|
                {
                    &&& #[trigger] is_path(root, path)
                    &&& path.last().focused == Some(true)
                    &&& match (path.last().app_id, path.last().window_properties) {
                        (Some(a), _) => id == a@,
                        (None, Some(p)) => if p.class is Some {
                            id == p.class->0@
                        } else {
                            id.len() == 0
                        },
                        (None, None) => id.len() == 0,
                    }
                    &&& match path.last().name {
                        Some(t) => title == t@,
                        None => title.len() == 0,
                    }
                },
            None => true,
        },
    decreases root,
{
    let start = seq![root];
    assert(is_path(root, start));
    assert(start.last() == root);
    if root.focused != Some(true) {
        let a = root.nodes@;
        let b = root.floating_nodes@;
        lemma_focused_among(a, a.len());
        lemma_focused_among(b, b.len());
        if focused_in(root) is Some {
            if focused_among(a, a.len()) is Some {
                let i = choose|i: int|
                    0 <= i < a.len() && focused_in(#[trigger] a[i]) == focused_among(a, a.len());
                law_focus_is_found(root.nodes@[i]);
                lemma_focus_path_on(root, root.nodes@[i]);
            } else {
                let i = choose|i: int|
                    0 <= i < b.len() && focused_in(#[trigger] b[i]) == focused_among(b, b.len());
                law_focus_is_found(root.floating_nodes@[i]);
                lemma_focus_path_on(root, root.floating_nodes@[i]);
            }
        } else {
            assert forall|path: Seq<RawNode>| #[trigger] is_path(
                root,
                path,
            ) implies path.last().focused != Some(true) by {
                if path.len() > 1 {
                    lemma_path_off(root, path);
                    if a.contains(path[1]) {
                        let i = choose|i: int| 0 <= i < a.len() && a[i] == path[1];
                        law_focus_is_found(root.nodes@[i]);
                    } else {
                        let i = choose|i: int| 0 <= i < b.len() && b[i] == path[1];
                        law_focus_is_found(root.floating_nodes@[i]);
                    }
                }
            }
        }
    }
}

proof fn lemma_focus_path_on(root: RawNode, child: RawNode)
    requires
        root.nodes@.contains(child) || root.floating_nodes@.contains(child),
    ensures
        forall|p: Seq<RawNode>| #[trigger]
            is_path(child, p) ==> is_path(root, seq![root] + p) && (seq![root] + p).last()
                == p.last(),
{
    assert forall|p: Seq<RawNode>| #[trigger] is_path(child, p) implies is_path(
        root,
        seq![root] + p,
    ) && (seq![root] + p).last() == p.last() by {
        lemma_path_on(root, child, p);
    }
}

/// The windows collected from a tree are exactly the visible ones that can be
/// reached from its root through tiled and floating children, each with the name
/// of the nearest output above it.
pub proof fn law_collected_windows(root: RawNode, r: Vec<WindowGeom>, g: GeomView)
    requires
        call_ensures(collect_windows, (&root,), r),
    ensures
        (exists|i: int| 0 <= i < r@.len() && (#[trigger] r@[i])@ == g) <==> exists|
            path: Seq<RawNode>,
        |
            {
                &&& #[trigger] is_path(root, path)
                &&& text::opt(path.last().node_type) == Some("con"@) || text::opt(
                    path.last().node_type,
                ) == Some("floating_con"@)
                &&& path.last().visible == Some(true)
                &&& path.last().rect == Some(g.rect)
                &&& is_nearest_output(path, g.output_name)
                &&& match (path.last().app_id, path.last().window_properties) {
                    (Some(id), _) => g.app_id == id@,
                    (None, Some(p)) => p.class is Some && g.app_id == p.class->0@,
                    (None, None) => false,
                }
                &&& match path.last().name {
                    Some(t) => g.title == t@,
                    None => g.title.len() == 0,
                }
            },
{
    law_windows_are_the_reachable_ones(root, g);
    let v = geoms(r@);
    if exists|i: int| 0 <= i < r@.len() && (#[trigger] r@[i])@ == g {
        let i = choose|i: int| 0 <= i < r@.len() && (#[trigger] r@[i])@ == g;
        assert(v[i] == g);
        assert(v.contains(g));
    }
    if v.contains(g) {
        let i = choose|i: int| 0 <= i < v.len() && v[i] == g;
        assert(r@[i]@ == g);
    }
}

/// A node comes before what is below it, its tiled children, in their order,
/// before the floating ones.
pub proof fn law_windows_are_in_depth_first_order(node: RawNode, output: Option<Seq<char>>)
    ensures
        ({
            let o = if text::opt(node.node_type) == Some("output"@) {
                text::opt(node.name)
            } else {
                output
            };
            let below = |n: RawNode| windows_of(n, o);
            windows_of(node, output) == own_window(node, o) + node.nodes@.map_values(
                below,
            ).flatten_alt() + node.floating_nodes@.map_values(below).flatten_alt()
        }),
{
    let o = output_below(node, output);
    let below = |n: RawNode| windows_of(n, o);
    lemma_windows_in_order(node.nodes@, node.nodes@.len(), o, below);
    lemma_windows_in_order(node.floating_nodes@, node.floating_nodes@.len(), o, below);
    assert(node.nodes@.take(node.nodes@.len() as int) =~= node.nodes@);
    assert(node.floating_nodes@.take(node.floating_nodes@.len() as int) =~= node.floating_nodes@);
}

proof fn lemma_windows_in_order(
    nodes: Seq<RawNode>,
    n: nat,
    o: Option<Seq<char>>,
    below: spec_fn(RawNode) -> Seq<GeomView>,
)
    requires
        n <= nodes.len(),
        forall|x: RawNode| #[trigger] below(x) == windows_of(x, o),
    ensures
        windows_in(nodes, n, o) == nodes.take(n as int).map_values(below).flatten_alt(),
    decreases n,
{
    let s = nodes.take(n as int).map_values(below);
    if n > 0 {
        lemma_windows_in_order(nodes, (n - 1) as nat, o, below);
        assert(s.drop_last() =~= nodes.take(n - 1).map_values(below));
        assert(s.last() == windows_of(nodes[n - 1], o));
    }
}

} // verus!
