use zskins::zofi::assets::Assets;
use zskins::zofi::highlight::runs_of;
use zskins::zofi::highlight::split_lines;
use zskins::zofi::highlight::Grammars;
use zskins::zofi::highlight::Highlighter;
use zskins::zofi::highlight::Line;
use zskins::zofi::highlight::Region;
use zskins::zofi::highlight::Run;
use zskins::ztheme::Color;

fn part(color: u8, len: usize) -> Region {
    Region {
        red: color,
        green: 0,
        blue: 1,
        len,
    }
}

#[test]
fn runs_follow_each_other() {
    let lines = vec![
        Line {
            len: 5,
            regions: Some(vec![part(1, 2), part(9, 0), part(2, 3)]),
        },
        Line {
            len: 4,
            regions: None,
        },
        Line {
            len: 1,
            regions: Some(vec![part(3, 1)]),
        },
    ];
    let grey = Color::rgb(0x808080);
    assert_eq!(
        runs_of(&lines, grey),
        vec![
            Run { start: 0, end: 2, color: Color::rgb(0x010001) },
            Run { start: 2, end: 5, color: Color::rgb(0x020001) },
            Run { start: 5, end: 9, color: grey },
            Run { start: 9, end: 10, color: Color::rgb(0x030001) },
        ]
    );
}

#[test]
fn what_parts_leave_of_a_line_is_plain() {
    let lines = vec![
        Line { len: 5, regions: Some(vec![part(1, 2)]) },
        Line { len: 3, regions: Some(Vec::new()) },
        Line { len: 2, regions: Some(vec![part(2, 2)]) },
    ];
    let grey = Color::rgb(0x808080);
    assert_eq!(
        runs_of(&lines, grey),
        vec![
            Run { start: 0, end: 2, color: Color::rgb(0x010001) },
            Run { start: 2, end: 5, color: grey },
            Run { start: 5, end: 8, color: grey },
            Run { start: 8, end: 10, color: Color::rgb(0x020001) },
        ]
    );
}

#[test]
fn code_is_cut_into_colours() {
    let text = "fn main() {\n    let é = \"x\";\n}\n";
    let grey = Color::rgb(0x808080);
    let runs = Grammars::new().compute(text, "rs", grey);
    assert!(runs.len() > 3);
    assert_eq!(runs[0].start, 0);
    assert_eq!(runs[runs.len() - 1].end, text.len());
    for i in 1..runs.len() {
        assert_eq!(runs[i - 1].end, runs[i].start);
    }
    assert!(runs.iter().any(|r| r.color != runs[0].color));
}

#[test]
fn languages_are_found_in_several_ways() {
    let g = Grammars::new();
    assert!(g.syntax_for("rs").is_some());
    assert_eq!(g.syntax_for("rs"), g.syntax_for("rust"));
    assert_eq!(g.syntax_for("Rust"), g.syntax_for("rs"));
    assert_ne!(g.syntax_for("py"), g.syntax_for("rs"));
    assert_eq!(g.syntax_for(""), None);
    assert_eq!(g.syntax_for("no such language"), None);
}

#[test]
fn other_text_is_one_run() {
    let grey = Color::rgb(0x808080);
    let runs = Grammars::new().compute("añb", "no such language", grey);
    assert_eq!(runs, vec![Run { start: 0, end: 4, color: grey }]);
}

#[test]
fn the_last_text_is_remembered() {
    let grey = Color::rgb(0x808080);
    let red = Color::rgb(0xff0000);
    let mut h = Highlighter::new();
    let first = h.highlight("abc", "no such language", grey);
    assert_eq!(first, vec![Run { start: 0, end: 3, color: grey }]);
    assert_eq!(h.highlight("abc", "no such language", grey), first);
    let recoloured = h.highlight("abc", "no such language", red);
    assert_eq!(recoloured, vec![Run { start: 0, end: 3, color: red }]);
    let other = h.highlight("abcd", "no such language", red);
    assert_eq!(other, vec![Run { start: 0, end: 4, color: red }]);
}

#[test]
fn images_go_by_their_path() {
    let a = Assets {
        files: vec!["rust.svg".to_string(), "go.svg".to_string(), "lang/c.svg".to_string()],
    };
    assert_eq!(a.load("icons/go.svg"), Some(1));
    assert_eq!(a.load("go.svg"), Some(1));
    assert_eq!(a.load("icons/icons/go.svg"), None);
    assert_eq!(a.list("icons/lang"), vec!["icons/lang/c.svg"]);
    assert_eq!(a.list("").len(), 3);
}

#[test]
fn plain_text_has_the_colour_of_each_call() {
    let a = Color::rgb(0x111111);
    let b = Color::rgb(0x222222);
    let mut h = Highlighter::new();
    assert_eq!(h.highlight("x", "", a), vec![Run { start: 0, end: 1, color: a }]);
    assert_eq!(h.highlight("x", "", b), vec![Run { start: 0, end: 1, color: b }]);
    assert_eq!(h.highlight("x", "", a), vec![Run { start: 0, end: 1, color: a }]);
}

#[test]
fn texts_are_split_after_line_feeds() {
    let texts = ["", "a", "a\n", "\n", "a\nb", "\n\na\r\nb\r", "é\nñ\n\n"];
    for text in texts {
        let expected: Vec<&str> = syntect::util::LinesWithEndings::from(text).collect();
        assert_eq!(split_lines(text), expected);
    }
    assert_eq!(split_lines("a\n\nb"), vec!["a\n", "\n", "b"]);
}

#[test]
fn later_lines_depend_on_earlier_ones() {
    let g = Grammars::new();
    let rust = g.syntax_for("rs").unwrap();
    let both = g.cut(rust, "/*\nfn a\n").unwrap();
    let alone = g.cut(rust, "fn a\n").unwrap();
    assert_eq!(both.len(), 2);
    assert_eq!((both[0].len, both[1].len, alone[0].len), (3, 5, 5));
    assert_ne!(both[1].regions, alone[0].regions);
    assert!(g.cut(usize::MAX, "x").is_none());
}
