use zskins::zbar::workspaces::next_delay;
use zskins::zbar::workspaces::pill_style;
use zskins::zbar::workspaces::Hub;
use zskins::zbar::workspaces::OutputProbe;
use zskins::zbar::workspaces::PillStyle;
use zskins::zbar::workspaces::Session;
use zskins::zbar::workspaces::SessionEvent;
use zskins::zbar::workspaces::Workspace;
use zskins::zbar::workspaces::WorkspaceEvent;
use zskins::zbar::workspaces::WorkspaceId;
use zskins::zbar::workspaces::WorkspacesModule;
use zskins::zwindows::screencopy::FrameAction;
use zskins::zwindows::screencopy::ShmFormat;
use zskins::zwindows::toplevel_capture::HandleEvent;
use zskins::zwindows::toplevel_capture::SessionEvent as CaptureEvent;
use zskins::zwindows::toplevel_capture::SessionState;
use zskins::zwindows::toplevel_capture::ToplevelInfo;
use zskins::zwindows::toplevel_capture::ToplevelList;

fn session() -> Session {
    let mut s = Session::new();
    s.apply(SessionEvent::OutputName { output: 1, name: "DP-1".into() });
    s.apply(SessionEvent::WorkspaceGroup { group: 10 });
    s.apply(SessionEvent::OutputEnter { group: 10, output: 1 });
    s.apply(SessionEvent::Workspace { workspace: 20 });
    s.apply(SessionEvent::WorkspaceEnter { group: 10, workspace: 20 });
    s.apply(SessionEvent::Name { workspace: 20, name: "2".into() });
    s.apply(SessionEvent::Workspace { workspace: 21 });
    s.apply(SessionEvent::WorkspaceEnter { group: 10, workspace: 21 });
    s.apply(SessionEvent::Name { workspace: 21, name: "1".into() });
    s.apply(SessionEvent::State { workspace: 21, active: true, urgent: false });
    s
}

#[test]
fn snapshot_names_outputs_and_the_active_workspace() {
    let s = session();
    assert_eq!(s.output_name_for_group(10).as_deref(), Some("DP-1"));
    assert_eq!(s.output_name_for_group(11), None);
    let (state, handles) = s.snapshot();
    assert_eq!(state.workspaces.len(), 2);
    assert_eq!(handles.len(), 2);
    assert!(state.workspaces.iter().all(|w| w.output.as_deref() == Some("DP-1")));
    assert_eq!(state.active, Some(WorkspaceId("1".to_string())));
}

#[test]
fn hub_tells_changes_only() {
    let mut hub = Hub::new();
    let mut s = session();
    assert!(hub.replay().is_none());
    assert!(hub.flush(&s).is_some());
    assert!(hub.flush(&s).is_none());
    assert!(hub.replay().is_some());
    assert_eq!(hub.activate(&WorkspaceId("2".into()), Some("DP-1")), Some(20));
    assert_eq!(hub.activate(&WorkspaceId("9".into()), None), None);
    s.apply(SessionEvent::Removed { workspace: 20 });
    assert_eq!(hub.flush(&s).unwrap().workspaces.len(), 1);
    assert!(matches!(hub.disconnect(), WorkspaceEvent::Disconnected));
}

#[test]
fn reconnecting_slows_down() {
    assert_eq!(next_delay(1000), 2000);
    assert_eq!(next_delay(20_000), 30_000);
    assert_eq!(next_delay(30_000), 30_000);
}

fn ws(name: &str, active: bool, urgent: bool, output: Option<&str>) -> Workspace {
    Workspace {
        id: WorkspaceId(name.to_string()),
        name: name.to_string(),
        active,
        urgent,
        output: output.map(|o| o.to_string()),
    }
}

#[test]
fn pills_show_state() {
    assert_eq!(pill_style(&ws("1", true, true, None)), PillStyle::Active);
    assert_eq!(pill_style(&ws("1", false, true, None)), PillStyle::Urgent);
    assert_eq!(pill_style(&ws("1", false, false, None)), PillStyle::Idle);
}

#[test]
fn module_shows_the_workspaces_of_its_output() {
    let (state, _) = session().snapshot();
    let mut m = WorkspacesModule::new(Some("DP-1".into()));
    m.apply(WorkspaceEvent::Snapshot(state));
    assert!(m.shows(0));
    m.activate_optimistic(&WorkspaceId("2".into()));
    assert_eq!(m.state.active, Some(WorkspaceId("2".into())));
    let (state, _) = session().snapshot();
    let mut other = WorkspacesModule::new(Some("DP-9".into()));
    other.apply(WorkspaceEvent::Snapshot(state));
    assert!(!other.shows(0));
}

#[test]
fn outputs_are_probed() {
    let mut p = OutputProbe { entries: Vec::new() };
    p.announce(5);
    p.announce(6);
    p.on_name(5, "DP-1".into());
    p.on_mode(5, 800, false);
    p.on_mode(5, 1920, true);
    assert_eq!(p.named(), vec![("DP-1".to_string(), 1920)]);
}

#[test]
fn described_toplevels_are_captured() {
    let mut list = ToplevelList { toplevels: Vec::<ToplevelInfo>::new() };
    list.announce(1);
    list.announce(2);
    list.apply(1, HandleEvent::AppId("foot".into()));
    list.apply(1, HandleEvent::Title("sh".into()));
    list.apply(1, HandleEvent::Done);
    list.apply(2, HandleEvent::Done);
    list.apply(2, HandleEvent::Closed);
    assert_eq!(
        list.capture_targets(),
        vec![(1, "foot".to_string(), "sh".to_string())]
    );
}

#[test]
fn capture_session_waits_for_its_constraints() {
    let mut s = SessionState {
        buffer_size: None,
        shm_format: None,
        done: false,
        stopped: false,
    };
    s.apply(CaptureEvent::BufferSize { width: 3, height: 2 });
    s.apply(CaptureEvent::ShmFormat { format: ShmFormat::Xrgb8888 });
    assert_eq!(s.next(), FrameAction::Wait);
    s.apply(CaptureEvent::Done);
    assert_eq!(s.next(), FrameAction::Allocate(ShmFormat::Xrgb8888, 3, 2, 12));
    s.apply(CaptureEvent::Stopped);
    assert_eq!(s.next(), FrameAction::Fail);
}
