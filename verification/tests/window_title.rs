use zskins::json::Json;
use zskins::zbar::window_title::detect_title_source;
use zskins::zbar::window_title::NiriSession;
use zskins::zbar::window_title::NiriTitleTracker;
use zskins::zbar::window_title::TitleSource;
use zskins::zbar::window_title::WindowTitleModule;

fn json(s: &str) -> Json {
    take(&serde_json::from_str(s).unwrap())
}

fn take(v: &serde_json::Value) -> Json {
    match v {
        serde_json::Value::Null => Json::Null,
        serde_json::Value::Bool(b) => Json::Bool(*b),
        serde_json::Value::Number(n) => Json::Number(n.as_u64()),
        serde_json::Value::String(s) => Json::Text(s.clone()),
        serde_json::Value::Array(a) => Json::Array(a.iter().map(take).collect()),
        serde_json::Value::Object(m) => {
            Json::Object(m.iter().map(|(k, v)| (k.clone(), take(v))).collect())
        }
    }
}

#[test]
fn windows_changed_seeds_state_and_picks_focused() {
    let mut t = NiriTitleTracker::new();
    let title = t.apply(&json(
        r#"{"WindowsChanged": {"windows": [
            {"id": 1, "title": "A", "is_focused": false},
            {"id": 2, "title": "B", "is_focused": true},
            {"id": 3, "title": "C", "is_focused": false}
        ]}}"#,
    ));
    assert_eq!(title.as_deref(), Some("B"));
}

#[test]
fn focus_change_picks_new_window() {
    let mut t = NiriTitleTracker::new();
    t.apply(&json(
        r#"{"WindowsChanged": {"windows": [
            {"id": 1, "title": "A", "is_focused": true},
            {"id": 2, "title": "B", "is_focused": false}
        ]}}"#,
    ));
    let title = t.apply(&json(r#"{ "WindowFocusChanged": {"id": 2} }"#));
    assert_eq!(title.as_deref(), Some("B"));
}

#[test]
fn title_update_replaces_current() {
    let mut t = NiriTitleTracker::new();
    t.apply(&json(
        r#"{"WindowsChanged": {"windows": [ {"id": 1, "title": "old", "is_focused": true} ]}}"#,
    ));
    let title = t.apply(&json(
        r#"{"WindowOpenedOrChanged": {"window": {"id": 1, "title": "new", "is_focused": true}}}"#,
    ));
    assert_eq!(title.as_deref(), Some("new"));
}

#[test]
fn closing_focused_window_clears_title() {
    let mut t = NiriTitleTracker::new();
    t.apply(&json(
        r#"{"WindowsChanged": {"windows": [ {"id": 1, "title": "A", "is_focused": true} ]}}"#,
    ));
    let title = t.apply(&json(r#"{ "WindowClosed": {"id": 1} }"#));
    assert_eq!(title, None);
}

#[test]
fn windows_changed_resets_focus() {
    let mut t = NiriTitleTracker::new();
    t.apply(&json(
        r#"{"WindowsChanged": {"windows": [ {"id": 1, "title": "A", "is_focused": true} ]}}"#,
    ));
    let title = t.apply(&json(
        r#"{"WindowsChanged": {"windows": [ {"id": 1, "title": "A", "is_focused": false} ]}}"#,
    ));
    assert_eq!(title, None);
}

#[test]
fn unrelated_events_are_ignored() {
    let mut t = NiriTitleTracker::new();
    t.apply(&json(
        r#"{"WindowsChanged": {"windows": [ {"id": 1, "title": "A", "is_focused": true} ]}}"#,
    ));
    let title = t.apply(&json(r#"{ "WorkspacesChanged": {"workspaces": []} }"#));
    assert_eq!(title.as_deref(), Some("A"));
}

#[test]
fn session_tells_a_title_once() {
    let mut s = NiriSession::new();
    let line = r#"{"WindowsChanged": {"windows": [{"id": 7, "title": "T", "is_focused": true}]}}"#;
    assert_eq!(s.on_line(line), Some(Some("T".to_string())));
    assert_eq!(s.on_line(line), None);
    assert_eq!(s.on_line("not json"), None);
    assert_eq!(s.on_line(r#"{"WindowClosed": {"id": 7}}"#), Some(None));
}

#[test]
fn sway_tells_titles_before_niri() {
    assert!(matches!(detect_title_source(true, true), TitleSource::Sway));
    assert!(matches!(detect_title_source(false, true), TitleSource::Niri));
    assert!(matches!(detect_title_source(false, false), TitleSource::Nobody));
}

#[test]
fn module_shows_the_title() {
    let mut m = WindowTitleModule::new();
    assert_eq!(m.shown(), "");
    m.update(Some("T".to_string()));
    assert_eq!(m.shown(), "T");
}
