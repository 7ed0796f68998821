use zskins::zwindows::sway_tree::collect_windows;
use zskins::zwindows::sway_tree::focused_window;
use zskins::zwindows::sway_tree::read_header;
use zskins::zwindows::sway_tree::walk;
use zskins::zwindows::sway_tree::write_message;
use zskins::zwindows::sway_tree::RawNode;
use zskins::zwindows::sway_tree::Rect;
use zskins::zwindows::sway_tree::SwayTreeError;
use zskins::zwindows::sway_tree::WindowProperties;

fn node(s: &str) -> RawNode {
    take(&serde_json::from_str(s).unwrap())
}

fn word(v: &serde_json::Value, key: &str) -> Option<String> {
    v.get(key).and_then(|x| x.as_str()).map(|x| x.to_string())
}

fn children(v: &serde_json::Value, key: &str) -> Vec<RawNode> {
    v.get(key)
        .and_then(|x| x.as_array())
        .map(|a| a.iter().map(take).collect())
        .unwrap_or_default()
}

fn take(v: &serde_json::Value) -> RawNode {
    RawNode {
        name: word(v, "name"),
        node_type: word(v, "type"),
        app_id: word(v, "app_id"),
        visible: v.get("visible").and_then(|x| x.as_bool()),
        focused: v.get("focused").and_then(|x| x.as_bool()),
        rect: v.get("rect").map(|r| Rect {
            x: r["x"].as_i64().unwrap() as i32,
            y: r["y"].as_i64().unwrap() as i32,
            width: r["width"].as_u64().unwrap() as u32,
            height: r["height"].as_u64().unwrap() as u32,
        }),
        nodes: children(v, "nodes"),
        floating_nodes: children(v, "floating_nodes"),
        window_properties: v.get("window_properties").map(|p| WindowProperties {
            class: word(p, "class"),
        }),
    }
}

const SAMPLE_TREE: &str = r#"
{
    "type": "root",
    "name": "root",
    "rect": {"x":0,"y":0,"width":3840,"height":1080},
    "nodes": [{
        "type": "output",
        "name": "DP-1",
        "rect": {"x":0,"y":0,"width":1920,"height":1080},
        "nodes": [{
            "type": "workspace",
            "name": "1",
            "rect": {"x":0,"y":0,"width":1920,"height":1080},
            "nodes": [{
                "type": "con",
                "name": "Issues — zskins",
                "app_id": "firefox",
                "visible": true,
                "rect": {"x":10,"y":20,"width":1900,"height":1040}
            }]
        }],
        "floating_nodes": []
    }, {
        "type": "output",
        "name": "DP-2",
        "rect": {"x":1920,"y":0,"width":1920,"height":1080},
        "nodes": [{
            "type": "workspace",
            "name": "2",
            "rect": {"x":1920,"y":0,"width":1920,"height":1080},
            "nodes": [{
                "type": "con",
                "name": "main.rs",
                "app_id": "kitty",
                "visible": true,
                "rect": {"x":1930,"y":40,"width":900,"height":600}
            }, {
                "type": "con",
                "name": "hidden",
                "app_id": "alacritty",
                "visible": false,
                "rect": {"x":1930,"y":40,"width":900,"height":600}
            }]
        }]
    }]
}
"#;

#[test]
fn parse_sample_tree_extracts_visible_windows_only() {
    let raw = node(SAMPLE_TREE);
    let mut out = Vec::new();
    walk(&raw, None, &mut out);
    assert_eq!(out.len(), 2, "should skip the visible=false con");
    assert_eq!(out[0].app_id, "firefox");
    assert_eq!(out[0].title, "Issues — zskins");
    assert_eq!(out[0].output_name, "DP-1");
    assert_eq!(out[0].rect.width, 1900);
    assert_eq!(out[1].app_id, "kitty");
    assert_eq!(out[1].output_name, "DP-2");
}

#[test]
fn parse_falls_back_to_window_properties_class_for_xwayland() {
    let raw = node(
        r#"{
            "type":"output","name":"HDMI-A-1",
            "rect":{"x":0,"y":0,"width":1920,"height":1080},
            "nodes":[{"type":"workspace","name":"3",
              "rect":{"x":0,"y":0,"width":1920,"height":1080},
              "nodes":[{"type":"con","name":"GIMP",
                "visible":true,
                "rect":{"x":0,"y":0,"width":800,"height":600},
                "window_properties":{"class":"Gimp"}}]}]
        }"#,
    );
    let mut out = Vec::new();
    walk(&raw, None, &mut out);
    assert_eq!(out.len(), 1);
    assert_eq!(out[0].app_id, "Gimp");
}

#[test]
fn parse_skips_workspace_and_root_nodes() {
    let raw = node(SAMPLE_TREE);
    let mut out = Vec::new();
    walk(&raw, None, &mut out);
    for w in &out {
        assert!(!w.app_id.is_empty(), "windows must have an app_id");
    }
}

#[test]
fn collecting_starts_without_an_output() {
    assert_eq!(collect_windows(&node(SAMPLE_TREE)).len(), 2);
}

#[test]
fn message_header_is_read_back() {
    let m = write_message(4, &[1, 2, 3]);
    assert_eq!(&m[..6], b"i3-ipc");
    assert_eq!(read_header(&m[..14]), Ok((3, 4)));
    assert_eq!(&m[14..], &[1, 2, 3]);
}

#[test]
fn foreign_header_is_refused() {
    let mut m = write_message(4, &[]);
    m[0] = b'x';
    assert_eq!(read_header(&m), Err(SwayTreeError::BadMagic));
}

#[test]
fn only_containers_are_windows() {
    let tree = |kind: &str| {
        node(&format!(
            r#"{{"type": "output", "name": "DP-1", "nodes": [{{"type": "{kind}", "name": "w",
                "visible": true, "rect": {{"x":0,"y":0,"width":9,"height":9}},
                "window_properties": {{"class": "X"}}}}]}}"#
        ))
    };
    assert!(collect_windows(&tree("workspace")).is_empty());
    assert_eq!(collect_windows(&tree("con"))[0].app_id, "X");
    assert_eq!(collect_windows(&tree("floating_con"))[0].app_id, "X");
    let mut out = Vec::new();
    walk(&tree("workspace").nodes[0], Some("DP-1"), &mut out);
    assert!(out.is_empty());
}

#[test]
fn the_first_focused_node_counts() {
    let tree = node(
        r#"{"type": "root", "focused": false, "nodes": [
            {"type": "con", "name": "a", "nodes": [
                {"type": "con", "name": "deep", "app_id": "one", "focused": true}]},
            {"type": "con", "name": "b", "app_id": "two", "focused": true}],
            "floating_nodes": [{"type": "floating_con", "name": "f", "focused": true}]}"#,
    );
    assert_eq!(focused_window(&tree), Some(("one".to_string(), "deep".to_string())));
    let floating = node(
        r#"{"nodes": [{"name": "a"}], "floating_nodes": [
            {"name": "f", "window_properties": {"class": "X"}, "focused": true}]}"#,
    );
    assert_eq!(focused_window(&floating), Some(("X".to_string(), "f".to_string())));
    assert_eq!(focused_window(&node(r#"{"focused": true}"#)), Some((String::new(), String::new())));
    assert_eq!(focused_window(&node(r#"{"nodes": [{"name": "a"}]}"#)), None);
}
