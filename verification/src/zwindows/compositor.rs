//! Which compositor is running, and what its IPC says of the focused window.

use vstd::prelude::*;

use crate::pathname;
use crate::text;

verus! {

/// One-way read interface to whatever compositor is running.
pub trait CompositorIpc: Send + Sync {
    /// Application id and title of the window that holds the keyboard focus,
    /// or `None` if nothing is focused or the IPC failed.
    fn focused_window(&self) -> Option<(String, String)>;
}

/// Fallback: never knows of a focused window.
pub struct NoopIpc;

impl CompositorIpc for NoopIpc {
    fn focused_window(&self) -> (r: Option<(String, String)>)
        ensures
            r is None,
    {
        None
    }
}

/// The sway (and i3) interface.
pub struct SwayIpc;

/// The Hyprland interface.
pub struct HyprlandIpc;

/// The interfaces to choose from.
#[derive(Debug, Clone, Copy, PartialEq, Eq, Structural)]
pub enum Backend {
    Sway,
    Hyprland,
    Noop,
}

/// Picks the interface by the environment variables that are set: sway before
/// Hyprland, the fallback last.
pub fn detect(swaysock: bool, i3sock: bool, hyprland_signature: bool) -> (r: Backend)
    ensures
        r == (if swaysock || i3sock {
            Backend::Sway
        } else if hyprland_signature {
            Backend::Hyprland
        } else {
            Backend::Noop
        }),
{
    if swaysock || i3sock {
        return Backend::Sway;
    }
    if hyprland_signature {
        return Backend::Hyprland;
    }
    Backend::Noop
}

/// `base/hypr/his/.socket.sock`.
pub open spec fn socket_below(base: Seq<char>, his: Seq<char>) -> Seq<char> {
    pathname::join(pathname::join(pathname::join(base, "hypr"@), his), ".socket.sock"@)
}

/// Where Hyprland's socket may be, best place first: below the runtime
/// directory if there is one, then at the legacy place.
pub open spec fn socket_places(runtime_dir: Option<Seq<char>>, his: Seq<char>) -> Seq<Seq<char>> {
    match runtime_dir {
        Some(dir) => seq![socket_below(dir, his), socket_below("/tmp"@, his)],
        None => seq![socket_below("/tmp"@, his)],
    }
}

fn socket_path(base: &str, his: &str) -> (r: String)
    ensures
        r@ == socket_below(base@, his@),
{
    let dir = pathname::join_path(base, "hypr");
    let instance = pathname::join_path(dir.as_str(), his);
    pathname::join_path(instance.as_str(), ".socket.sock")
}

impl HyprlandIpc {
    /// The candidate socket paths of instance `his`.
    pub fn candidate_paths(runtime_dir: Option<&str>, his: &str) -> (r: Vec<String>)
        ensures
            text::views(r@) == socket_places(
                text::opt_str(runtime_dir),
                his@,
            ),
    {
        let mut out: Vec<String> = Vec::new();
        if let Some(dir) = runtime_dir {
            out.push(socket_path(dir, his));
        }
        out.push(socket_path("/tmp", his));
        proof {
            assert(text::views(out@) =~= socket_places(
                text::opt_str(runtime_dir),
                his@,
            ));
        }
        out
    }

    /// What an answer with this class and title says: an answer with neither
    /// means that no window is focused.
    pub fn focused(class: String, title: String) -> (r: Option<(String, String)>)
        ensures
            r == (if class@.len() == 0 && title@.len() == 0 {
                None
            } else {
                Some((class, title))
            }),
    {
        if class.as_str().is_empty() && title.as_str().is_empty() {
            return None;
        }
        Some((class, title))
    }
}

/// Sway is asked wherever one of its sockets is named, else Hyprland wherever it
/// runs, else nobody.
pub proof fn law_compositor(swaysock: bool, i3sock: bool, hyprland_signature: bool, r: Backend)
    requires
        call_ensures(detect, (swaysock, i3sock, hyprland_signature), r),
    ensures
        r is Sway <==> swaysock || i3sock,
        r is Hyprland <==> hyprland_signature && !swaysock && !i3sock,
{
}

/// The socket is looked for below the runtime directory first, and below `/tmp`
/// in any case.
pub proof fn law_socket_places(dir: Seq<char>, his: Seq<char>)
    ensures
        socket_places(Some(dir), his).len() == 2,
        socket_places(Some(dir), his)[0] == socket_below(dir, his),
        socket_places(Some(dir), his)[1] == socket_places(None, his)[0],
        socket_places(None, his) == seq![socket_below("/tmp"@, his)],
{
}

} // verus!
