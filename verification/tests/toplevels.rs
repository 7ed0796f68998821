use zskins::wire::ByteOrder;
use zskins::zwindows::client::decode_state;
use zskins::zwindows::compositor::detect;
use zskins::zwindows::compositor::Backend;
use zskins::zwindows::compositor::HyprlandIpc;
use zskins::zwindows::registry::Registry;
use zskins::zwindows::ToplevelEvent;

fn reg() -> Registry {
    Registry::new()
}

#[test]
fn ensure_alone_emits_nothing() {
    let mut r = reg();
    r.ensure(1);
    let ev = r.on_title(1, "t".into()).unwrap();
    assert!(matches!(ev, ToplevelEvent::Added(_)));
}

#[test]
fn first_field_update_emits_added() {
    let mut r = reg();
    r.ensure(42);
    let ev = r.on_app_id(42, "firefox".into()).unwrap();
    match ev {
        ToplevelEvent::Added(t) => {
            assert_eq!(t.id, 42);
            assert_eq!(t.app_id.as_deref(), Some("firefox"));
        }
        _ => panic!("expected Added, got {ev:?}"),
    }
}

#[test]
fn subsequent_update_emits_updated() {
    let mut r = reg();
    r.ensure(7);
    let _ = r.on_app_id(7, "a".into());
    let ev = r.on_title(7, "hello".into()).unwrap();
    assert!(matches!(ev, ToplevelEvent::Updated(_)));
}

#[test]
fn duplicate_title_returns_none() {
    let mut r = reg();
    r.ensure(1);
    let _ = r.on_title(1, "foo".into());
    assert!(r.on_title(1, "foo".into()).is_none());
}

#[test]
fn duplicate_app_id_returns_none() {
    let mut r = reg();
    r.ensure(1);
    let _ = r.on_app_id(1, "x".into());
    assert!(r.on_app_id(1, "x".into()).is_none());
}

#[test]
fn state_change_emits_updated_with_flags() {
    let mut r = reg();
    r.ensure(3);
    let _ = r.on_app_id(3, "a".into());
    let ev = r.on_state(3, true, false).unwrap();
    match ev {
        ToplevelEvent::Updated(t) => {
            assert!(t.activated);
            assert!(!t.minimized);
        }
        _ => panic!("expected Updated, got {ev:?}"),
    }
}

#[test]
fn repeated_identical_state_returns_none() {
    let mut r = reg();
    r.ensure(3);
    let _ = r.on_app_id(3, "a".into());
    let _ = r.on_state(3, true, false);
    assert!(r.on_state(3, true, false).is_none());
}

#[test]
fn first_state_before_any_field_emits_added() {
    let mut r = reg();
    r.ensure(9);
    let ev = r.on_state(9, false, false).unwrap();
    assert!(matches!(ev, ToplevelEvent::Added(_)));
}

#[test]
fn closed_emits_removed() {
    let mut r = reg();
    r.ensure(5);
    let _ = r.on_app_id(5, "a".into());
    let ev = r.on_closed(5).unwrap();
    assert!(matches!(ev, ToplevelEvent::Removed(5)));
}

#[test]
fn closed_twice_second_is_none() {
    let mut r = reg();
    r.ensure(5);
    let _ = r.on_closed(5);
    assert!(r.on_closed(5).is_none());
}

#[test]
fn unknown_id_title_rejected() {
    let mut r = reg();
    assert!(r.on_title(999, "x".into()).is_none());
}

#[test]
fn unknown_id_state_rejected() {
    let mut r = reg();
    assert!(r.on_state(999, true, false).is_none());
}

#[test]
fn unknown_id_app_id_rejected() {
    let mut r = reg();
    assert!(r.on_app_id(999, "x".into()).is_none());
}

#[test]
fn xdg_runtime_dir_path_takes_precedence() {
    let paths = HyprlandIpc::candidate_paths(Some("/run/user/1000"), "HIS-FAKE");
    assert_eq!(paths[0], "/run/user/1000/hypr/HIS-FAKE/.socket.sock");
    assert_eq!(paths[1], "/tmp/hypr/HIS-FAKE/.socket.sock");
}

#[test]
fn socket_is_at_the_legacy_place_without_a_runtime_dir() {
    let paths = HyprlandIpc::candidate_paths(None, "x");
    assert_eq!(paths, vec!["/tmp/hypr/x/.socket.sock".to_string()]);
}

#[test]
fn no_class_and_no_title_is_no_window() {
    assert_eq!(HyprlandIpc::focused(String::new(), String::new()), None);
    assert_eq!(
        HyprlandIpc::focused("kitty".into(), String::new()),
        Some(("kitty".to_string(), String::new()))
    );
}

#[test]
fn sway_is_preferred() {
    assert!(matches!(detect(true, false, true), Backend::Sway));
    assert!(matches!(detect(false, true, true), Backend::Sway));
    assert!(matches!(detect(false, false, true), Backend::Hyprland));
    assert!(matches!(detect(false, false, false), Backend::Noop));
}

#[test]
fn state_array_holds_flags() {
    assert_eq!(decode_state(&[2, 0, 0, 0], ByteOrder::Little), (true, false));
    assert_eq!(decode_state(&[0, 0, 0, 1, 0, 0, 0, 2], ByteOrder::Big), (true, true));
    assert_eq!(decode_state(&[2, 0, 0], ByteOrder::Little), (false, false));
}
