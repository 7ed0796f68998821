use std::cell::RefCell;
use std::rc::Rc;

use zskins::clipd::daemon::Request;
use zskins::clipd::model::Entry;
use zskins::clipd::model::Kind;
use zskins::clipd::model::MimeContent;
use zskins::zofi::highlight::Grammars;
use zskins::zofi::source::ActivateOutcome;
use zskins::zofi::source::ImageFormat;
use zskins::zofi::source::Layout;
use zskins::zofi::source::Preview;
use zskins::zofi::source::RowIcon;
use zskins::zofi::source::Source;
use zskins::zofi::sources::clipboard::daemon_state;
use zskins::zofi::sources::clipboard::image_format_from_mime;
use zskins::zofi::sources::clipboard::ClipboardHost;
use zskins::zofi::sources::clipboard::ClipboardSource;
use zskins::zofi::sources::clipboard::Started;
use zskins::zofi::sources::file_icons::icon_for;
use zskins::zofi::sources::files::activation;
use zskins::zofi::sources::files::code_or_text;
use zskins::zofi::sources::files::directory_listing;
use zskins::zofi::sources::files::entry_key;
use zskins::zofi::sources::files::image_format_from_ext;
use zskins::zofi::sources::files::is_skip;
use zskins::zofi::sources::files::parent_label;
use zskins::zofi::sources::files::read_text;
use zskins::zofi::sources::files::relative_to;
use zskins::zofi::sources::files::text_preview;
use zskins::zofi::sources::files::DirItem;
use zskins::zofi::sources::files::FileAction;
use zskins::zofi::sources::files::FileFacts;
use zskins::zofi::sources::files::FileIndex;
use zskins::zofi::sources::files::FilesSource;
use zskins::zofi::sources::files::PreviewKind;
use zskins::zofi::sources::files::Seen;
use zskins::zofi::sources::files::Walk;

fn batch(v: &[(&str, &str)]) -> Vec<(String, String)> {
    v.iter().map(|(a, b)| (a.to_string(), b.to_string())).collect()
}

#[test]
fn files_are_found_as_they_come_in() {
    let mut ix = FileIndex::new("/h".to_string());
    let walk = ix.navigate("/h".to_string());
    assert!(ix.flush_batch(batch(&[("/h/a.rs", "a.rs"), ("/h/b.txt", "b.txt")]), walk));
    assert_eq!(ix.filter(""), vec![0, 1]);
    assert_eq!(ix.filter(".R"), vec![0]);
    assert!(ix.flush_batch(batch(&[("/h/c.rs", "c.rs")]), walk));
    assert_eq!(ix.filter(".r"), vec![0, 2]);
    assert_eq!(ix.filter(".rs"), vec![0, 2]);
    assert_eq!(ix.path(2).as_deref(), Some("/h/c.rs"));
    assert_eq!(ix.path(3), None);
}

#[test]
fn an_old_walk_is_stopped() {
    let mut ix = FileIndex::new("/h".to_string());
    let first = ix.navigate("/h".to_string());
    let second = ix.navigate("/h/d".to_string());
    assert!(!ix.flush_batch(batch(&[("/h/a", "a")]), first));
    assert!(ix.flush_batch(batch(&[("/h/d/b", "b")]), second));
    assert_eq!(ix.filter(""), vec![0]);
    assert_eq!(ix.root(), "/h/d");
}

#[test]
fn hidden_and_bulky_directories_are_skipped() {
    assert!(is_skip(".git", 1, true));
    assert!(is_skip(".profile", 1, false));
    assert!(!is_skip(".config", 0, true));
    assert!(is_skip("node_modules", 2, true));
    assert!(!is_skip("node_modules", 2, false));
    assert!(!is_skip("src", 1, true));
}

#[test]
fn keys_are_relative_and_lower_case() {
    assert_eq!(relative_to("/h/a/b", "/h").as_deref(), Some("a/b"));
    assert_eq!(relative_to("/home/a", "/h"), None);
    assert_eq!(entry_key("/h/Docs/A.TXT", "/h"), "docs/a.txt");
}

#[test]
fn walk_flushes_and_pulses() {
    let mut w = Walk::new();
    for _ in 0..63 {
        let step = w.found("p".into(), "k".into());
        assert!(!step.flush && !step.pulse && !step.stop);
    }
    assert!(w.found("p".into(), "k".into()).flush);
    assert_eq!(w.take().len(), 64);
    assert_eq!(w.take().len(), 0);
    let mut pulses = 0;
    for _ in 64..500 {
        if w.found("p".into(), "k".into()).pulse {
            pulses += 1;
        }
    }
    assert_eq!(pulses, 1);
}

#[test]
fn directories_are_entered() {
    assert_eq!(activation(true), ActivateOutcome::Refresh);
    assert_eq!(activation(false), ActivateOutcome::Quit);
}

#[test]
fn parents_are_shown_from_the_root() {
    assert_eq!(parent_label(Some("/h"), "/h"), "~");
    assert_eq!(parent_label(Some("/h/a"), "/h"), "~/a");
    assert_eq!(parent_label(Some("/x"), "/h"), "/x");
    assert_eq!(parent_label(Some(""), "/h"), "");
    assert_eq!(parent_label(None, "/h"), "");
}

#[test]
fn previews_of_files() {
    assert_eq!(image_format_from_ext("PNG"), Some(ImageFormat::Png));
    assert_eq!(image_format_from_ext("jpeg"), Some(ImageFormat::Jpeg));
    assert_eq!(image_format_from_ext("gif"), None);
    assert_eq!(read_text(b"a\0b"), None);
    assert_eq!(read_text(b"ab\xff").as_deref(), Some("ab\u{fffd}"));
    assert_eq!(text_preview("/a", Some(3), Some(b"abc")), "/a\n3 bytes\n\nabc");
    assert_eq!(text_preview("/a", None, None), "/a\n\n(binary or unreadable)");
    assert!(matches!(
        code_or_text("x".into(), "rs", true),
        Preview::Code { text, lang } if text == "x" && lang == "rs"
    ));
    assert!(matches!(code_or_text("x".into(), "rs", false), Preview::Text(t) if t == "x"));
}

#[test]
fn directories_are_listed_by_name() {
    let items = vec![
        DirItem { name: "b".into(), is_dir: false },
        DirItem { name: "a".into(), is_dir: true },
    ];
    assert_eq!(directory_listing("/d", items), "/d/\n\na/\nb");
    let many: Vec<DirItem> = (0..203)
        .map(|i| DirItem { name: format!("{i:03}"), is_dir: false })
        .collect();
    let text = directory_listing("/d", many);
    assert!(text.ends_with("199\n… (3 more)"));
}

#[test]
fn files_have_icons() {
    let dir = icon_for("src", "", true);
    let rust = icon_for("main.rs", "rs", false);
    let other = icon_for("x", "nothing", false);
    assert_ne!(dir, rust);
    assert_ne!(rust, other);
}

struct Host {
    sent: Rc<RefCell<Vec<Request>>>,
}

impl ClipboardHost for Host {
    fn next_image_id(&self) -> u64 {
        7
    }
    fn send(&self, request: Request) {
        self.sent.borrow_mut().push(request);
    }
}

fn text_entry(uuid: &str, preview: &str) -> Entry {
    Entry {
        uuid: uuid.to_string(),
        kind: Kind::Text,
        primary_mime: "text/plain".to_string(),
        preview: Some(preview.to_string()),
        created_at: 0,
        last_used_at: 0,
        mimes: vec![MimeContent {
            mime: "text/plain".to_string(),
            content: preview.as_bytes().to_vec(),
        }],
    }
}

#[test]
fn clipboard_entries_are_found_and_sent() {
    let sent = Rc::new(RefCell::new(Vec::new()));
    let src = ClipboardSource::new(
        vec![text_entry("u1", "Hello"), text_entry("u2", "World")],
        true,
        None,
        Box::new(Host { sent: sent.clone() }),
    );
    assert_eq!(src.filter("WOR"), vec![1]);
    assert_eq!(src.activate(1), ActivateOutcome::Quit);
    assert!(matches!(
        &sent.borrow()[0],
        Request::Activate { uuid, mime: None } if uuid == "u2"
    ));
    assert_eq!(src.mimes(0), vec!["text/plain".to_string()]);
    assert_eq!(src.primary_mime_index(0), Some(0));
    assert!(src.banner().is_none());
    assert_eq!(src.name(), "clipboard");
}

#[test]
fn a_silent_daemon_is_reported() {
    assert_eq!(daemon_state(true, None), (true, None));
    let (running, why) = daemon_state(false, Some(Started::Failed("no binary".into())));
    assert!(!running);
    assert!(why.unwrap().contains("no binary"));
    assert_eq!(daemon_state(false, Some(Started::Ready)).0, true);
    let src = ClipboardSource::new(
        vec![],
        false,
        Some("gone".to_string()),
        Box::new(Host { sent: Rc::new(RefCell::new(Vec::new())) }),
    );
    assert!(src.banner().unwrap().contains("gone"));
}

#[test]
fn images_are_told_by_their_mime() {
    assert_eq!(image_format_from_mime("image/png"), Some(ImageFormat::Png));
    assert_eq!(image_format_from_mime("image/jpeg"), Some(ImageFormat::Jpeg));
    assert_eq!(image_format_from_mime("text/plain"), None);
}

fn facts(name: &str, parent: &str, extension: Option<&str>, is_dir: bool) -> FileFacts {
    FileFacts {
        name: name.to_string(),
        parent: Some(parent.to_string()),
        extension: extension.map(|e| e.to_string()),
        is_dir,
    }
}

fn files() -> FilesSource {
    let mut source = FilesSource::load(Some("/h".to_string()));
    let found = batch(&[("/h/src", "src"), ("/h/src/a.rs", "src/a.rs"), ("/h/p.JPG", "p.jpg")]);
    assert!(source.index.flush_batch(found, 0));
    source
}

#[test]
fn files_source_describes_itself() {
    let source = FilesSource::load(None);
    assert_eq!(source.index.root(), ".");
    assert_eq!(source.name(), "files");
    assert_eq!(source.icon(), "▦");
    assert_eq!(source.prefix(), Some('/'));
    assert_eq!(source.placeholder(), "Search files...");
    assert_eq!(source.empty_text(), "No matching files (still walking…)");
    assert_eq!(source.layout(), Layout::ListAndPreview);
}

#[test]
fn file_rows_show_icon_name_and_directory() {
    let mut source = files();
    assert_eq!(source.filter("A.RS"), vec![1]);
    let row = source.render_item(facts("a.rs", "/h/src", Some("rs"), false), true);
    let (path, shade) = icon_for("a.rs", "rs", false);
    assert!(matches!(row.icon, RowIcon::Asset(p, c) if p == path && c == shade));
    assert_eq!(row.title, "a.rs");
    assert_eq!(row.subtitle, "~/src");
    assert!(row.selected);
    assert!(row.gutter.is_none());
}

#[test]
fn entering_a_directory_starts_a_new_walk() {
    let mut source = files();
    let (outcome, action) = source.activate(0, true);
    assert_eq!(outcome, ActivateOutcome::Refresh);
    assert!(matches!(action, FileAction::Walk(path, 1) if path == "/h/src"));
    assert_eq!(source.index.root(), "/h/src");
    assert!(!source.index.flush_batch(batch(&[("/h/late", "late")]), 0));
    assert!(source.filter("").is_empty());
}

#[test]
fn activating_a_file_opens_it() {
    let mut source = files();
    let (outcome, action) = source.activate(1, false);
    assert_eq!(outcome, ActivateOutcome::Quit);
    assert!(matches!(action, FileAction::Open(path) if path == "/h/src/a.rs"));
    let (outcome, action) = source.activate(7, false);
    assert_eq!(outcome, ActivateOutcome::Quit);
    assert!(matches!(action, FileAction::Nothing));
}

#[test]
fn file_previews_follow_what_was_read() {
    let source = files();
    let grammars = Grammars::new();
    let dir = facts("src", "/h", None, true);
    let code = facts("a.rs", "/h/src", Some("RS"), false);
    let picture = facts("p.JPG", "/h", Some("JPG"), false);
    assert!(matches!(source.preview_kind(&dir), PreviewKind::Listing));
    assert!(matches!(source.preview_kind(&code), PreviewKind::Text));
    assert!(matches!(source.preview_kind(&picture), PreviewKind::Picture(ImageFormat::Jpeg)));

    let items = vec![DirItem { name: "a.rs".to_string(), is_dir: false }];
    match source.preview(0, &dir, Seen::Listing(items), &grammars) {
        Some(Preview::Text(t)) => assert_eq!(t, "/h/src/\n\na.rs"),
        _ => panic!("no listing"),
    }
    match source.preview(0, &dir, Seen::Unreadable("gone".to_string()), &grammars) {
        Some(Preview::Text(t)) => assert_eq!(t, "/h/src: gone"),
        _ => panic!("no reason"),
    }
    let seen = Seen::Picture { format: ImageFormat::Jpeg, bytes: vec![1, 2], id: 9 };
    match source.preview(2, &picture, seen, &grammars) {
        Some(Preview::Image(i)) => {
            assert_eq!(i.bytes, vec![1, 2]);
            assert_eq!(i.id, 9);
        }
        _ => panic!("no picture"),
    }
    let seen = Seen::Text { size: Some(5), head: Some(b"fn a;".to_vec()) };
    match source.preview(1, &code, seen, &grammars) {
        Some(Preview::Code { text, lang }) => {
            assert_eq!(text, "/h/src/a.rs\n5 bytes\n\nfn a;");
            assert_eq!(lang, "rs");
        }
        _ => panic!("no code"),
    }
    let other = facts("a.zzz", "/h/src", Some("zzz"), false);
    let seen = Seen::Text { size: Some(1), head: Some(b"x".to_vec()) };
    match source.preview(1, &other, seen, &grammars) {
        Some(Preview::Text(t)) => assert_eq!(t, "/h/src/a.rs\n1 bytes\n\nx"),
        _ => panic!("no text"),
    }
    let seen = Seen::Text { size: None, head: None };
    assert!(source.preview(9, &code, seen, &grammars).is_none());
}

struct Counter(RefCell<u64>);

impl ClipboardHost for Counter {
    fn next_image_id(&self) -> u64 {
        *self.0.borrow_mut() += 1;
        *self.0.borrow()
    }
    fn send(&self, _: Request) {}
}

#[test]
fn an_image_entry_keeps_its_image() {
    let entry = Entry {
        uuid: "u".to_string(),
        kind: Kind::Image,
        primary_mime: "image/png".to_string(),
        preview: None,
        created_at: 0,
        last_used_at: 0,
        mimes: vec![
            MimeContent { mime: "image/png".to_string(), content: vec![1, 2] },
            MimeContent { mime: "image/jpeg".to_string(), content: vec![3] },
        ],
    };
    let src = ClipboardSource::new(vec![entry], true, None, Box::new(Counter(RefCell::new(0))));
    let image = |p: Option<Preview>| match p {
        Some(Preview::Image(i)) => i,
        _ => panic!("expected an image"),
    };
    let first = image(src.preview(0));
    let again = image(src.preview(0));
    assert!(std::sync::Arc::ptr_eq(&first, &again));
    assert!(std::sync::Arc::ptr_eq(&first, &image(src.preview_for_mime(0, "image/png"))));
    assert_eq!((first.id, first.bytes.clone()), (1, vec![1, 2]));
    let other = image(src.preview_for_mime(0, "image/jpeg"));
    assert_ne!(other.id, first.id);
    assert_eq!(other.bytes, vec![3]);
}
