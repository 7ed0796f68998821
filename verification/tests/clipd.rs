use zskins::clipd::daemon::activate;
use zskins::clipd::daemon::after_record;
use zskins::clipd::daemon::after_touch;
use zskins::clipd::daemon::cap_of;
use zskins::clipd::daemon::choose_offer;
use zskins::clipd::daemon::collect_extras;
use zskins::clipd::daemon::kind_of;
use zskins::clipd::daemon::pick_mime;
use zskins::clipd::daemon::preview_for;
use zskins::clipd::daemon::wanted_extras;
use zskins::clipd::daemon::worth_keeping;
use zskins::clipd::daemon::Lookup;
use zskins::clipd::daemon::OfferError;
use zskins::clipd::daemon::Received;
use zskins::clipd::daemon::Response;
use zskins::clipd::daemon::SendAction;
use zskins::clipd::daemon::State;
use zskins::clipd::db::content_hash;
use zskins::clipd::db::record_with_ts;
use zskins::clipd::db::stitch;
use zskins::clipd::db::RecordResult;
use zskins::clipd::db::Statement;
use zskins::clipd::import::decode_utf16_if_likely;
use zskins::clipd::import::from_utf16;
use zskins::clipd::import::plan_import;
use zskins::clipd::import::read_list;
use zskins::clipd::import::summary;
use zskins::clipd::model::Entry;
use zskins::clipd::model::Kind;
use zskins::clipd::model::MimeContent;
use zskins::clipd::paths::db_path;
use zskins::clipd::paths::parse_pid;
use zskins::clipd::paths::pid_path;
use zskins::clipd::paths::sock_path;
use zskins::clipd::preview::build;
use zskins::clipd::preview::build_from_bytes;

fn strings(v: &[&str]) -> Vec<String> {
    v.iter().map(|s| s.to_string()).collect()
}

#[test]
fn kinds_are_named() {
    assert_eq!(Kind::Text.as_str(), "text");
    assert_eq!(Kind::parse("image"), Some(Kind::Image));
    assert_eq!(Kind::parse("Image"), None);
    assert_eq!(Kind::from_stored("image"), Kind::Image);
    assert_eq!(Kind::from_stored("?"), Kind::Text);
}

#[test]
fn preview_is_the_first_line_with_text() {
    assert_eq!(build("\n   \n  hello  \nworld"), "hello");
    assert_eq!(build(""), "");
}

#[test]
fn long_preview_is_cut_between_characters() {
    let long = "é".repeat(100);
    assert_eq!(build(&long), format!("{}…", "é".repeat(90)));
    let odd = format!("a{}", "é".repeat(100));
    assert_eq!(build(&odd), format!("a{}…", "é".repeat(89)));
    assert_eq!(build(&"x".repeat(180)), "x".repeat(180));
}

#[test]
fn preview_of_broken_text_is_mended() {
    assert_eq!(build_from_bytes(&[b'a', 0xff]), "a\u{fffd}");
}

#[test]
fn files_have_their_places() {
    assert_eq!(
        db_path(Some("/d"), Some("/h")).as_deref(),
        Some("/d/zofi/clipboard.db")
    );
    assert_eq!(
        db_path(None, Some("/h")).as_deref(),
        Some("/h/.local/share/zofi/clipboard.db")
    );
    assert_eq!(db_path(None, None), None);
    assert_eq!(pid_path(Some("/run/1")), "/run/1/zofi-clipd.pid");
    assert_eq!(sock_path(None), "/tmp/zofi-clipd.sock");
    assert_eq!(parse_pid(" 42\n"), Some(42));
    assert_eq!(parse_pid("-1"), Some(-1));
    assert_eq!(parse_pid("x"), None);
}

#[test]
fn images_are_picked_first() {
    assert_eq!(
        pick_mime(&strings(&["text/plain", "IMAGE/PNG"])),
        Some((Kind::Image, "IMAGE/PNG".to_string()))
    );
    assert_eq!(
        pick_mime(&strings(&["image/bmp", "image/jpeg"])),
        Some((Kind::Image, "image/jpeg".to_string()))
    );
    assert_eq!(
        pick_mime(&strings(&["text/html", "UTF8_STRING"])),
        Some((Kind::Text, "UTF8_STRING".to_string()))
    );
    assert_eq!(pick_mime(&strings(&["x/y"])), None);
    assert!(matches!(
        choose_offer(strings(&["x/y"])),
        Err(OfferError::NoMime(v)) if v == strings(&["x/y"])
    ));
}

#[test]
fn representations_of_the_same_kind_are_kept() {
    assert!(worth_keeping("TEXT/html", Kind::Text));
    assert!(worth_keeping("STRING", Kind::Text));
    assert!(!worth_keeping("image/png", Kind::Text));
    assert!(worth_keeping("image/bmp", Kind::Image));
    let extras = wanted_extras(
        &strings(&["text/plain", "text/html", "image/png", "STRING"]),
        "text/plain",
        Kind::Text,
    );
    assert_eq!(extras, strings(&["text/html", "STRING"]));
    let kept = collect_extras(&extras, &vec![Some(vec![1]), None]);
    assert_eq!(kept.len(), 1);
    assert_eq!(kept[0].mime, "text/html");
}

#[test]
fn transfers_are_capped() {
    assert_eq!(cap_of(Kind::Text), 1_000_000);
    assert_eq!(cap_of(Kind::Image), 10_000_000);
    let mut r = Received::new(3);
    assert!(r.take(&[1, 2]).is_ok());
    assert!(matches!(r.take(&[3, 4]), Err(OfferError::TooLarge(_))));
    let mut r = Received::new(3);
    assert!(r.take(&[1, 2]).is_ok());
    assert!(r.take(&[3]).is_ok());
    assert_eq!(r.finish(), vec![1, 2, 3]);
}

#[test]
fn own_selection_is_not_recorded() {
    let mut s = State::new();
    assert!(s.judge_content("text/plain", b"a").unwrap());
    assert_eq!(s.hold_selection(1, "text/plain".into(), b"a".to_vec()), None);
    assert!(!s.judge_content("text/plain", b"a").unwrap());
    assert!(s.judge_content("text/plain", b"b").unwrap());
    assert!(matches!(
        s.judge_content("text/plain", b""),
        Err(OfferError::EmptyContent(m)) if m == "text/plain"
    ));
    assert!(matches!(s.on_send(1, "text/plain"), SendAction::Serve(v) if v == b"a"));
    assert!(matches!(s.on_send(9, "text/plain"), SendAction::Ignore | SendAction::Close));
    assert_eq!(s.hold_selection(2, "image/png".into(), b"c".to_vec()), Some(1));
    assert!(!s.on_cancelled(1));
    assert!(s.on_cancelled(2));
}

#[test]
fn offers_are_kept_until_they_are_taken() {
    let mut s = State::new();
    s.data_offer(7);
    s.offer(7, "text/plain".into());
    s.offer(7, "text/html".into());
    s.selection(7);
    assert_eq!(
        s.take_pending(),
        Some((7, strings(&["text/plain", "text/html"])))
    );
    assert_eq!(s.take_pending(), None);
    s.forget(7);
}

fn entry(uuid: &str) -> Entry {
    Entry {
        uuid: uuid.to_string(),
        kind: Kind::Text,
        primary_mime: "text/plain".to_string(),
        preview: None,
        created_at: 1,
        last_used_at: 1,
        mimes: vec![
            MimeContent {
                mime: "text/html".to_string(),
                content: vec![2],
            },
            MimeContent {
                mime: "text/plain".to_string(),
                content: vec![1],
            },
        ],
    }
}

#[test]
fn entries_hold_their_representations() {
    let e = entry("u");
    assert_eq!(e.primary_content(), Some(&[1u8][..]));
    assert_eq!(e.content_for("text/html"), Some(&[2u8][..]));
    assert_eq!(e.content_for("x"), None);
}

#[test]
fn activation_serves_a_representation() {
    let (mime, content) = activate("u", None, Lookup::Found(entry("u"))).unwrap();
    assert_eq!((mime.as_str(), content), ("text/plain", vec![1]));
    let (mime, content) =
        activate("u", Some("text/html".into()), Lookup::Found(entry("u"))).unwrap();
    assert_eq!((mime.as_str(), content), ("text/html", vec![2]));
    assert!(activate("u", Some("x/y".into()), Lookup::Found(entry("u"))).is_err());
    assert!(activate("u", None, Lookup::Missing).is_err());
    assert!(activate("u", None, Lookup::Failed("why".into())).is_err());
}

#[test]
fn failures_are_answered() {
    assert!(matches!(after_touch(None), Response::Done));
    assert!(matches!(after_record(None), Response::Done));
    assert!(matches!(
        after_record(Some("full".into())),
        Response::Error { message } if message == "record: full"
    ));
    assert_eq!(kind_of("image/png"), Kind::Image);
    assert_eq!(kind_of("text/plain"), Kind::Text);
    assert_eq!(preview_for(Kind::Text, b"hi").as_deref(), Some("hi"));
    assert_eq!(preview_for(Kind::Image, b"hi"), None);
}

#[test]
fn content_is_told_apart_by_its_hash() {
    assert_eq!(content_hash(b"abc"), *blake3::hash(b"abc").as_bytes());
    assert_ne!(content_hash(b"abc"), content_hash(b"abd"));
}

#[test]
fn new_content_is_inserted() {
    let extras = vec![MimeContent {
        mime: "text/html".to_string(),
        content: vec![9],
    }];
    let (r, statements) = record_with_ts(
        None,
        "fresh".into(),
        Kind::Text,
        "text/plain",
        b"abc",
        Some("abc"),
        &extras,
        77,
    );
    assert!(matches!(&r, RecordResult::Inserted(u) if u == "fresh"));
    assert_eq!(r.uuid(), "fresh");
    assert_eq!(statements.len(), 3);
    assert!(matches!(&statements[0], Statement::InsertItem { uuid, ts: 77, .. } if uuid == "fresh"));
    assert!(matches!(&statements[0], Statement::InsertItem { primary_hash, .. } if *primary_hash == content_hash(b"abc")));
    assert!(matches!(&statements[0], Statement::InsertItem { preview: Some(p), kind: Kind::Text, primary_mime, .. } if p == "abc" && primary_mime == "text/plain"));
    assert!(matches!(&statements[1], Statement::KeepMime { mime, content, .. } if mime == "text/plain" && content == b"abc"));
    assert!(matches!(&statements[2], Statement::KeepMime { mime, .. } if mime == "text/html"));
}

#[test]
fn known_content_is_touched() {
    let (r, statements) = record_with_ts(
        Some("known".into()),
        "fresh".into(),
        Kind::Text,
        "text/plain",
        b"abc",
        None,
        &[],
        78,
    );
    assert!(matches!(&r, RecordResult::Existed(u) if u == "known"));
    assert!(matches!(&statements[0], Statement::Touch { uuid, ts: 78 } if uuid == "known"));
}

#[test]
fn representations_are_put_with_their_items() {
    let mut a = entry("a");
    a.mimes.clear();
    let mut b = entry("b");
    b.mimes.clear();
    let rows = vec![
        (
            "b".to_string(),
            MimeContent {
                mime: "m".to_string(),
                content: vec![5],
            },
        ),
        (
            "z".to_string(),
            MimeContent {
                mime: "n".to_string(),
                content: vec![6],
            },
        ),
    ];
    let out = stitch(vec![a, b], &rows);
    assert_eq!(out[0].mimes.len(), 0);
    assert_eq!(out[1].mimes.len(), 1);
    assert_eq!(out[1].mimes[0].content, vec![5]);
}

#[test]
fn wide_text_is_decoded() {
    assert_eq!(from_utf16(&vec![0x68, 0xd83d, 0xde00]).as_deref(), Some("h\u{1f600}"));
    assert_eq!(from_utf16(&vec![0xd83d]), None);
    assert_eq!(decode_utf16_if_likely(&[0xff, 0xfe, 0x68, 0, 0, 0]).as_deref(), Some("h"));
    assert_eq!(decode_utf16_if_likely(&[0x68, 0, 0x69, 0]).as_deref(), Some("hi"));
    assert_eq!(decode_utf16_if_likely(b"abcd"), None);
    assert_eq!(decode_utf16_if_likely(b"ab"), None);
    assert_eq!(decode_utf16_if_likely(b"abcde"), None);
}

#[test]
fn import_lists_the_oldest_first() {
    let (plan, converted) = plan_import(&strings(&["new", "", "old"]), 100);
    assert_eq!(converted, 0);
    assert_eq!(plan.len(), 2);
    assert_eq!((plan[0].content.as_slice(), plan[0].ts), (&b"old"[..], 100));
    assert_eq!((plan[1].content.as_slice(), plan[1].ts), (&b"new"[..], 102));
    assert_eq!(plan[1].preview, "new");
}

#[test]
fn import_converts_wide_text() {
    let (plan, converted) = plan_import(&strings(&["h\0i\0"]), 1);
    assert_eq!(converted, 1);
    assert_eq!(plan[0].content, b"hi");
}

#[test]
fn import_reads_a_list() {
    assert_eq!(read_list(b"[\"a\", \"b\"]").unwrap(), strings(&["a", "b"]));
    assert!(read_list(b"{}").is_err());
    assert!(read_list(b"[1]").is_err());
}

#[test]
fn import_is_summed_up() {
    assert_eq!(
        summary(3, 2, 1, "\"/a.json\""),
        "imported 3 entries (2 duplicates collapsed, 1 converted from UTF-16) from \"/a.json\""
    );
}
