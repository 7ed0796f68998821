//! Colours for program text.

use vstd::prelude::*;
use vstd::string::*;
use vstd::utf8::*;

use syntect::easy::HighlightLines;
use two_face::theme::EmbeddedLazyThemeSet;
use two_face::theme::EmbeddedThemeName;

use crate::sorting;
use crate::text;
use crate::ztheme;
use crate::ztheme::Color;

verus! {

// ---------------------------------------------------------------------------
// Grammars
// ---------------------------------------------------------------------------

#[verifier::external_type_specification]
#[verifier::external_body]
pub struct ExSyntaxSet(syntect::parsing::SyntaxSet);

#[verifier::external_type_specification]
#[verifier::external_body]
pub struct ExHighlightLines<'a>(HighlightLines<'a>);

#[verifier::external_type_specification]
#[verifier::external_body]
pub struct ExThemes(EmbeddedLazyThemeSet);

/// The grammars and themes that come with the launcher. Every value holds the
/// same ones.
pub struct Grammars {
    syntaxes: syntect::parsing::SyntaxSet,
    themes: EmbeddedLazyThemeSet,
}

/// Part of a line in one colour: red, green and blue, and its length in bytes.
#[derive(Clone, Copy, Debug, PartialEq, Eq, Structural)]
pub struct Region {
    pub red: u8,
    pub green: u8,
    pub blue: u8,
    pub len: usize,
}

/// A line: its length in bytes with its end, and its parts from the left,
/// where it could be cut into parts.
#[derive(Debug)]
pub struct Line {
    pub len: usize,
    pub regions: Option<Vec<Region>>,
}

impl View for Line {
    type V = (usize, Option<Seq<Region>>);

    open spec fn view(&self) -> (usize, Option<Seq<Region>>) {
        (
            self.len,
            match self.regions {
                Some(v) => Some(v@),
                None => None,
            },
        )
    }
}

/// The place of the last bundled grammar with a file extension, whatever the
/// case of its letters.
pub uninterp spec fn grammar_by_extension(extension: Seq<char>) -> Option<usize>;

/// The place of the last bundled grammar with a file extension or, failing
/// that, a name, whatever the case of its letters.
pub uninterp spec fn grammar_by_token(token: Seq<char>) -> Option<usize>;

/// The place of the last bundled grammar with a name.
pub uninterp spec fn grammar_by_name(name: Seq<char>) -> Option<usize>;

/// Whether there is a bundled grammar at a place.
pub uninterp spec fn has_grammar(grammar: usize) -> bool;

/// The place of the grammar that lines are cut by, and the lines that were cut
/// so far.
pub uninterp spec fn cut_so_far(h: HighlightLines<'_>) -> (usize, Seq<Seq<char>>);

/// The parts of a line that follows the lines `before`, cut by the bundled
/// grammar at a place; none where it cannot be cut.
pub uninterp spec fn line_parts(
    grammar: usize,
    before: Seq<Seq<char>>,
    line: Seq<char>,
) -> Option<Seq<Region>>;

/// What optional parts hold.
pub open spec fn opt_parts(parts: Option<Vec<Region>>) -> Option<Seq<Region>> {
    match parts {
        Some(v) => Some(v@),
        None => None,
    }
}

/// The lines of a text, each with the line feed that ends it.
pub open spec fn lines_of(text: Seq<char>) -> Seq<Seq<char>>
    decreases text.len(),
{
    if text.len() == 0 {
        Seq::empty()
    } else {
        let rest = lines_of(text.drop_last());
        if rest.len() == 0 || rest.last().last() == '\n' {
            rest.push(seq![text.last()])
        } else {
            rest.drop_last().push(rest.last().push(text.last()))
        }
    }
}

/// The first `n` of some lines, cut by the bundled grammar at a place: the
/// length of each, and its parts.
pub open spec fn cut_first(grammar: usize, lines: Seq<Seq<char>>, n: int) -> Seq<
    (usize, Option<Seq<Region>>),
>
    decreases n,
{
    if n <= 0 {
        Seq::empty()
    } else {
        cut_first(grammar, lines, n - 1).push(
            (
                encode_utf8(lines[n - 1]).len() as usize,
                line_parts(grammar, lines.take(n - 1), lines[n - 1]),
            ),
        )
    }
}

/// The lines of a text, cut by the bundled grammar at a place; `None` if there
/// is no grammar at that place.
pub open spec fn cut_lines(grammar: usize, text: Seq<char>) -> Option<
    Seq<(usize, Option<Seq<Region>>)>,
> {
    if has_grammar(grammar) {
        Some(cut_first(grammar, lines_of(text), lines_of(text).len() as int))
    } else {
        None
    }
}

/// The views of lines.
pub open spec fn line_views(lines: Option<Vec<Line>>) -> Option<
    Seq<(usize, Option<Seq<Region>>)>,
> {
    match lines {
        Some(v) => Some(v@.map_values(|l: Line| l@)),
        None => None,
    }
}

/// The length of parts taken together.
pub open spec fn regions_len(regions: Seq<Region>) -> nat
    decreases regions.len(),
{
    if regions.len() == 0 {
        0
    } else {
        regions_len(regions.drop_last()) + regions.last().len as nat
    }
}

/// The length of lines taken together.
pub open spec fn lines_len(lines: Seq<(usize, Option<Seq<Region>>)>) -> nat
    decreases lines.len(),
{
    if lines.len() == 0 {
        0
    } else {
        lines_len(lines.drop_last()) + lines.last().0 as nat
    }
}

/// Whether no line's parts are longer than the line.
pub open spec fn within_lines(lines: Seq<(usize, Option<Seq<Region>>)>) -> bool {
    forall|i: int|
        0 <= i < lines.len() ==> ((#[trigger] lines[i]).1 matches Some(regions) ==> regions_len(
            regions,
        ) <= lines[i].0)
}

/// What [`cut_lines`] gives of a text: lines as long as the text, none with
/// longer parts.
pub open spec fn fits(lines: Option<Seq<(usize, Option<Seq<Region>>)>>, text: Seq<char>) -> bool {
    match lines {
        Some(v) => lines_len(v) == encode_utf8(text).len() && within_lines(v),
        None => true,
    }
}

/// The length of lines taken together, in bytes.
pub open spec fn total_len(lines: Seq<Seq<char>>) -> nat
    decreases lines.len(),
{
    if lines.len() == 0 {
        0
    } else {
        total_len(lines.drop_last()) + encode_utf8(lines.last()).len()
    }
}

proof fn lemma_encode_push(s: Seq<char>, c: char)
    ensures
        encode_utf8(s.push(c)).len() == encode_utf8(s).len() + encode_utf8(seq![c]).len(),
    decreases s.len(),
{
    if s.len() == 0 {
        assert(s.push(c) =~= seq![c]);
    } else {
        lemma_encode_push(s.drop_first(), c);
        assert(s.push(c).drop_first() =~= s.drop_first().push(c));
        assert(s.push(c)[0] == s[0]);
    }
}

proof fn lemma_lines_fill_the_text(text: Seq<char>)
    ensures
        total_len(lines_of(text)) == encode_utf8(text).len(),
    decreases text.len(),
{
    if text.len() > 0 {
        let front = text.drop_last();
        let c = text.last();
        lemma_lines_fill_the_text(front);
        assert(front.push(c) =~= text);
        lemma_encode_push(front, c);
        let rest = lines_of(front);
        let lines = lines_of(text);
        if rest.len() == 0 || rest.last().last() == '\n' {
            assert(lines.drop_last() =~= rest);
        } else {
            assert(lines.drop_last() =~= rest.drop_last());
            lemma_encode_push(rest.last(), c);
        }
    }
}

/// The lines of a text laid end to end are the text; each but the last ends in
/// its only line feed, and none is empty.
pub proof fn law_lines_make_up_the_text(text: Seq<char>)
    ensures
        lines_of(text).flatten() == text,
        forall|i: int| 0 <= i < lines_of(text).len() ==> (#[trigger] lines_of(text)[i]).len() > 0,
        forall|i: int, k: int|
            0 <= i < lines_of(text).len() && 0 <= k < lines_of(text)[i].len()
                && #[trigger] lines_of(text)[i][k] == '\n' ==> k == lines_of(text)[i].len() - 1,
        forall|i: int|
            0 <= i < lines_of(text).len() - 1 ==> (#[trigger] lines_of(text)[i]).last() == '\n',
    decreases text.len(),
{
    let lines = lines_of(text);
    if text.len() == 0 {
        assert(lines.flatten() =~= text);
    } else {
        let front = text.drop_last();
        let c = text.last();
        law_lines_make_up_the_text(front);
        let rest = lines_of(front);
        lines.lemma_flatten_and_flatten_alt_are_equivalent();
        rest.lemma_flatten_and_flatten_alt_are_equivalent();
        if rest.len() == 0 || rest.last().last() == '\n' {
            assert(lines.drop_last() =~= rest);
            assert(lines.flatten_alt() =~= front + seq![c]);
            assert(front + seq![c] =~= text);
            assert forall|i: int| 0 <= i < lines.len() - 1 implies (
            #[trigger] lines[i]).last() == '\n' by {
                assert(lines[i] == rest[i]);
                if i == rest.len() - 1 {
                    assert(rest[i] == rest.last());
                }
            }
        } else {
            let last = rest.last();
            rest.drop_last().lemma_flatten_and_flatten_alt_are_equivalent();
            assert(lines.drop_last() =~= rest.drop_last());
            assert(lines.flatten_alt() =~= rest.drop_last().flatten_alt() + last.push(c));
            assert(rest.flatten_alt() =~= rest.drop_last().flatten_alt() + last);
            assert(lines.flatten_alt() =~= front.push(c));
            assert(front.push(c) =~= text);
            assert(rest[rest.len() - 1] == last);
            assert forall|i: int, k: int|
                0 <= i < lines.len() && 0 <= k < lines[i].len() && #[trigger] lines[i][k]
                    == '\n' implies k == lines[i].len() - 1 by {
                if i < rest.len() - 1 {
                    assert(lines[i] == rest[i]);
                    assert(rest[i][k] == '\n');
                } else if k < last.len() {
                    assert(rest[rest.len() - 1][k] == '\n');
                }
            }
            assert forall|i: int| 0 <= i < lines.len() - 1 implies (
            #[trigger] lines[i]).last() == '\n' by {
                assert(lines[i] == rest[i]);
            }
        }
    }
}

/// Splits a text into its lines, each with the line feed that ends it.
pub fn split_lines(text: &str) -> (r: Vec<String>)
    ensures
        text::views(r@) == lines_of(text@),
{
    let chars = text::chars_of(text);
    let mut out: Vec<String> = Vec::new();
    let mut line = String::new();
    let mut i: usize = 0;
    proof {
        assert(text@.take(0) =~= Seq::<char>::empty());
        assert(text::views(out@) =~= lines_of(text@.take(0)));
    }
    while i < chars.len()
        invariant
            i <= chars@.len(),
            chars@ == text@,
            lines_of(text@.take(i as int)) == (if line@.len() > 0 {
                text::views(out@).push(line@)
            } else {
                text::views(out@)
            }),
            line@.len() > 0 ==> line@.last() != '\n',
            out@.len() > 0 ==> out@.last()@.last() == '\n',
        decreases chars.len() - i,
    {
        let c = chars[i];
        let ghost had = line@;
        let ghost whole = text::views(out@);
        proof {
            assert(text@.take(i + 1).drop_last() =~= text@.take(i as int));
            assert(text@.take(i + 1).last() == c);
            if out@.len() > 0 {
                assert(whole.last() == out@.last()@);
            }
        }
        line.push(c);
        proof {
            if had.len() == 0 {
                assert(line@ =~= seq![c]);
            } else {
                assert(whole.push(had).drop_last() =~= whole);
            }
            assert(lines_of(text@.take(i + 1)) =~= whole.push(line@));
        }
        if c == '\n' {
            out.push(line);
            line = String::new();
            proof {
                assert(text::views(out@) =~= whole.push(out@.last()@));
            }
        }
        i = i + 1;
    }
    proof {
        assert(text@.take(i as int) =~= text@);
    }
    if !line.as_str().is_empty() {
        let ghost whole = text::views(out@);
        out.push(line);
        proof {
            assert(text::views(out@) =~= whole.push(out@.last()@));
        }
    }
    out
}

impl Grammars {
    /// Loads the grammars with `two_face::syntax::extra_newlines`. Nothing is
    /// claimed of the value.
    #[verifier::external_body]
    fn load_grammars() -> syntect::parsing::SyntaxSet {
        two_face::syntax::extra_newlines()
    }

    /// Loads the themes with `two_face::theme::extra`. Nothing is claimed of
    /// the value.
    #[verifier::external_body]
    fn load_themes() -> EmbeddedLazyThemeSet {
        two_face::theme::extra()
    }

    /// Finds a grammar with `SyntaxSet::find_syntax_by_extension`; the result
    /// is its place in `SyntaxSet::syntaxes`.
    #[verifier::external_body]
    fn find_by_extension(&self, extension: &str) -> (r: Option<usize>)
        ensures
            r == grammar_by_extension(extension@),
    {
        let found = self.syntaxes.find_syntax_by_extension(extension)?;
        self.syntaxes.syntaxes().iter().position(|s| std::ptr::eq(s, found))
    }

    /// Finds a grammar with `SyntaxSet::find_syntax_by_token`; the result is
    /// its place in `SyntaxSet::syntaxes`.
    #[verifier::external_body]
    fn find_by_token(&self, token: &str) -> (r: Option<usize>)
        ensures
            r == grammar_by_token(token@),
    {
        let found = self.syntaxes.find_syntax_by_token(token)?;
        self.syntaxes.syntaxes().iter().position(|s| std::ptr::eq(s, found))
    }

    /// Finds a grammar with `SyntaxSet::find_syntax_by_name`; the result is
    /// its place in `SyntaxSet::syntaxes`.
    #[verifier::external_body]
    fn find_by_name(&self, name: &str) -> (r: Option<usize>)
        ensures
            r == grammar_by_name(name@),
    {
        let found = self.syntaxes.find_syntax_by_name(name)?;
        self.syntaxes.syntaxes().iter().position(|s| std::ptr::eq(s, found))
    }

    /// Begins with `HighlightLines::new`, for the grammar at a place and the
    /// bundled theme Base16 Eighties Dark.
    ///
    /// Claims that this succeeds if there is a grammar at that place, and that
    /// no line has been cut yet.
    #[verifier::external_body]
    fn begin(&self, grammar: usize) -> (r: Option<HighlightLines<'_>>)
        ensures
            r is Some == has_grammar(grammar),
            r matches Some(h) ==> cut_so_far(h) == (grammar, Seq::<Seq<char>>::empty()),
    {
        let syntax = self.syntaxes.syntaxes().get(grammar)?;
        let theme = self.themes.get(EmbeddedThemeName::Base16EightiesDark);
        Some(HighlightLines::new(syntax, theme))
    }

    /// Cuts the next line with `HighlightLines::highlight_line`; each part has
    /// the foreground of its style.
    ///
    /// Claims that the parts depend on the grammar, the lines before and the
    /// line, and that they follow each other in the line. That they reach its
    /// end is not claimed: the crate ends a line early where its scope stack
    /// cannot follow a change.
    #[verifier::external_body]
    fn cut_line(&self, h: &mut HighlightLines<'_>, line: &str) -> (r: Option<Vec<Region>>)
        ensures
            cut_so_far(*final(h)) == (
                cut_so_far(*old(h)).0,
                cut_so_far(*old(h)).1.push(line@),
            ),
            opt_parts(r) == line_parts(cut_so_far(*old(h)).0, cut_so_far(*old(h)).1, line@),
            r matches Some(parts) ==> regions_len(parts@) <= encode_utf8(line@).len(),
    {
        let parts = h.highlight_line(line, &self.syntaxes).ok()?;
        let regions = parts.iter().map(|p| {
            let c = p.0.foreground;
            Region { red: c.r, green: c.g, blue: c.b, len: p.1.len() }
        });
        Some(regions.collect())
    }

    /// Cuts a text into lines, and those into parts.
    pub fn cut(&self, grammar: usize, text: &str) -> (r: Option<Vec<Line>>)
        ensures
            line_views(r) == cut_lines(grammar, text@),
            fits(line_views(r), text@),
    {
        let mut h = match self.begin(grammar) {
            Some(h) => h,
            None => {
                return None;
            },
        };
        let lines = split_lines(text);
        let ghost all = text::views(lines@);
        let mut out: Vec<Line> = Vec::new();
        let mut i: usize = 0;
        proof {
            assert(all.take(0) =~= Seq::<Seq<char>>::empty());
            assert(out@.map_values(|l: Line| l@) =~= cut_first(grammar, all, 0));
        }
        while i < lines.len()
            invariant
                i <= lines@.len(),
                all == text::views(lines@),
                cut_so_far(h) == (grammar, all.take(i as int)),
                out@.map_values(|l: Line| l@) == cut_first(grammar, all, i as int),
                lines_len(cut_first(grammar, all, i as int)) == total_len(all.take(i as int)),
                within_lines(cut_first(grammar, all, i as int)),
            decreases lines.len() - i,
        {
            let ghost had = out@.map_values(|l: Line| l@);
            let line = lines[i].as_str();
            let len: usize = line.as_bytes().len();
            let regions = self.cut_line(&mut h, line);
            let next = Line { len, regions };
            let ghost seen = next@;
            out.push(next);
            proof {
                let cut = cut_first(grammar, all, i + 1);
                assert(all[i as int] == line@);
                assert(all.take(i + 1) =~= all.take(i as int).push(line@));
                assert(all.take(i + 1).drop_last() =~= all.take(i as int));
                assert(out@.map_values(|l: Line| l@) =~= had.push(seen));
                assert(cut.drop_last() =~= had);
                assert(cut =~= had.push(seen));
                assert forall|k: int| 0 <= k < cut.len() implies ((#[trigger] cut[k]).1 matches Some(
                    parts,
                ) ==> regions_len(parts) <= cut[k].0) by {
                    if k < had.len() {
                        assert(cut[k] == had[k]);
                    }
                }
            }
            i = i + 1;
        }
        proof {
            assert(all.take(i as int) =~= all);
            lemma_lines_fill_the_text(text@);
        }
        Some(out)
    }

    /// The grammars that come with the launcher.
    pub fn new() -> Self {
        Grammars { syntaxes: Grammars::load_grammars(), themes: Grammars::load_themes() }
    }

    /// The grammar for a language, by a file extension, a token or a name.
    pub fn syntax_for(&self, lang: &str) -> (r: Option<usize>)
        ensures
            r == grammar_for(lang@),
    {
        if text::str_eq(lang, "") {
            proof {
                reveal_strlit("");
            }
            return None;
        }
        proof {
            reveal_strlit("");
            if lang@.len() == 0 {
                assert(lang@ =~= ""@);
            }
        }
        if let Some(i) = self.find_by_extension(lang) {
            return Some(i);
        }
        if let Some(i) = self.find_by_token(lang) {
            return Some(i);
        }
        self.find_by_name(lang)
    }
}

/// The grammar for a language: the first that is found by its extension, as a
/// token or by its name. No language has none.
pub open spec fn grammar_for(lang: Seq<char>) -> Option<usize> {
    if lang.len() == 0 {
        None
    } else if grammar_by_extension(lang) is Some {
        grammar_by_extension(lang)
    } else if grammar_by_token(lang) is Some {
        grammar_by_token(lang)
    } else {
        grammar_by_name(lang)
    }
}

// ---------------------------------------------------------------------------
// Runs
// ---------------------------------------------------------------------------

/// A stretch of a text in one colour, by its bytes.
#[derive(Clone, Copy, Debug, PartialEq, Eq, Structural)]
pub struct Run {
    pub start: usize,
    pub end: usize,
    pub color: Color,
}

/// The colour of a part.
pub open spec fn region_color(r: Region) -> Color {
    ztheme::solid((r.red as int * 0x10000 + r.green as int * 0x100 + r.blue as int) as u32)
}

/// The runs of parts that begin at `offset`. Empty parts have none.
pub open spec fn region_runs(regions: Seq<Region>, offset: int) -> Seq<Run>
    decreases regions.len(),
{
    if regions.len() == 0 {
        Seq::empty()
    } else {
        let rest = region_runs(regions.drop_last(), offset);
        let at = offset + regions_len(regions.drop_last());
        let last = regions.last();
        if last.len == 0 {
            rest
        } else {
            rest.push(
                Run {
                    start: at as usize,
                    end: (at + last.len) as usize,
                    color: region_color(last),
                },
            )
        }
    }
}

/// How far the runs of a line reach: to its end, which its parts do not pass.
pub open spec fn reach(line: (usize, Option<Seq<Region>>)) -> nat {
    match line.1 {
        Some(regions) => if regions_len(regions) > line.0 {
            regions_len(regions)
        } else {
            line.0 as nat
        },
        None => line.0 as nat,
    }
}

/// How far the runs of lines reach.
pub open spec fn lines_reach(lines: Seq<(usize, Option<Seq<Region>>)>) -> nat
    decreases lines.len(),
{
    if lines.len() == 0 {
        0
    } else {
        lines_reach(lines.drop_last()) + reach(lines.last())
    }
}

/// The runs of a line that begins at `offset`: those of its parts, and one in
/// the default colour for what the parts leave.
pub open spec fn line_runs(
    line: (usize, Option<Seq<Region>>),
    offset: int,
    default_color: Color,
) -> Seq<Run> {
    match line.1 {
        Some(regions) => if regions_len(regions) < line.0 {
            region_runs(regions, offset).push(
                Run {
                    start: (offset + regions_len(regions)) as usize,
                    end: (offset + line.0) as usize,
                    color: default_color,
                },
            )
        } else {
            region_runs(regions, offset)
        },
        None => seq![
            Run {
                start: offset as usize,
                end: (offset + line.0) as usize,
                color: default_color,
            },
        ],
    }
}

/// The runs of lines, one after the other.
pub open spec fn runs(lines: Seq<(usize, Option<Seq<Region>>)>, default_color: Color) -> Seq<Run>
    decreases lines.len(),
{
    if lines.len() == 0 {
        Seq::empty()
    } else {
        runs(lines.drop_last(), default_color) + line_runs(
            lines.last(),
            lines_reach(lines.drop_last()) as int,
            default_color,
        )
    }
}

proof fn lemma_reach_is_the_length(lines: Seq<(usize, Option<Seq<Region>>)>)
    requires
        within_lines(lines),
    ensures
        lines_reach(lines) == lines_len(lines),
    decreases lines.len(),
{
    if lines.len() > 0 {
        let rest = lines.drop_last();
        assert forall|i: int| 0 <= i < rest.len() implies ((#[trigger] rest[i]).1 matches Some(
            regions,
        ) ==> regions_len(regions) <= rest[i].0) by {
            assert(rest[i] == lines[i]);
        }
        lemma_reach_is_the_length(rest);
        assert(lines[lines.len() - 1] == lines.last());
    }
}

proof fn lemma_reach_grows(lines: Seq<(usize, Option<Seq<Region>>)>, n: int)
    requires
        0 <= n <= lines.len(),
    ensures
        lines_reach(lines.take(n)) <= lines_reach(lines),
    decreases lines.len(),
{
    if n == lines.len() {
        assert(lines.take(n) =~= lines);
    } else {
        lemma_reach_grows(lines.drop_last(), n);
        assert(lines.drop_last().take(n) =~= lines.take(n));
    }
}

proof fn lemma_regions_grow(regions: Seq<Region>, n: int)
    requires
        0 <= n <= regions.len(),
    ensures
        regions_len(regions.take(n)) <= regions_len(regions),
    decreases regions.len(),
{
    if n == regions.len() {
        assert(regions.take(n) =~= regions);
    } else {
        lemma_regions_grow(regions.drop_last(), n);
        assert(regions.drop_last().take(n) =~= regions.take(n));
    }
}

fn push_region_runs(out: &mut Vec<Run>, regions: &Vec<Region>, offset: usize) -> (r: usize)
    requires
        offset + regions_len(regions@) <= usize::MAX,
    ensures
        final(out)@ == old(out)@ + region_runs(regions@, offset as int),
        r == offset + regions_len(regions@),
{
    let mut at: usize = offset;
    let mut i: usize = 0;
    proof {
        assert(regions@.take(0) =~= Seq::<Region>::empty());
        assert(out@ =~= old(out)@ + region_runs(regions@.take(0), offset as int));
    }
    while i < regions.len()
        invariant
            i <= regions@.len(),
            offset + regions_len(regions@) <= usize::MAX,
            at == offset + regions_len(regions@.take(i as int)),
            out@ == old(out)@ + region_runs(regions@.take(i as int), offset as int),
        decreases regions.len() - i,
    {
        let ghost had = out@;
        let part = regions[i];
        proof {
            assert(regions@.take(i + 1).drop_last() =~= regions@.take(i as int));
            assert(regions@.take(i + 1).last() == part);
            lemma_regions_grow(regions@, i + 1);
        }
        if part.len > 0 {
            let hex: u32 = part.red as u32 * 0x10000 + part.green as u32 * 0x100
                + part.blue as u32;
            out.push(Run { start: at, end: at + part.len, color: Color::rgb(hex) });
            at = at + part.len;
        }
        proof {
            assert(out@ =~= old(out)@ + region_runs(regions@.take(i + 1), offset as int));
        }
        i = i + 1;
    }
    proof {
        assert(regions@.take(i as int) =~= regions@);
    }
    at
}

/// Lists the runs of lines that were cut into parts.
pub fn runs_of(lines: &Vec<Line>, default_color: Color) -> (r: Vec<Run>)
    requires
        lines_reach(lines@.map_values(|l: Line| l@)) <= usize::MAX,
    ensures
        r@ == runs(lines@.map_values(|l: Line| l@), default_color),
{
    let ghost all = lines@.map_values(|l: Line| l@);
    let mut out: Vec<Run> = Vec::new();
    let mut offset: usize = 0;
    let mut i: usize = 0;
    proof {
        assert(all.take(0) =~= Seq::<(usize, Option<Seq<Region>>)>::empty());
    }
    while i < lines.len()
        invariant
            i <= lines@.len(),
            all == lines@.map_values(|l: Line| l@),
            lines_reach(all) <= usize::MAX,
            offset == lines_reach(all.take(i as int)),
            out@ == runs(all.take(i as int), default_color),
        decreases lines.len() - i,
    {
        let ghost had = out@;
        proof {
            assert(all.take(i + 1).drop_last() =~= all.take(i as int));
            assert(all.take(i + 1).last() == lines@[i as int]@);
            lemma_reach_grows(all, i + 1);
        }
        match &lines[i].regions {
            Some(regions) => {
                let end = push_region_runs(&mut out, regions, offset);
                let stop: usize = offset + lines[i].len;
                if end < stop {
                    out.push(Run { start: end, end: stop, color: default_color });
                }
                proof {
                    assert(out@ =~= had + line_runs(
                        lines@[i as int]@,
                        offset as int,
                        default_color,
                    ));
                }
                offset = if end < stop {
                    stop
                } else {
                    end
                };
            },
            None => {
                let len: usize = lines[i].len;
                out.push(Run { start: offset, end: offset + len, color: default_color });
                proof {
                    assert(out@ =~= had + line_runs(
                        lines@[i as int]@,
                        offset as int,
                        default_color,
                    ));
                }
                offset = offset + len;
            },
        }
        i = i + 1;
    }
    proof {
        assert(all.take(i as int) =~= all);
    }
    out
}

/// Whether runs follow each other without gaps, from `from` to `to`.
pub open spec fn contiguous(runs: Seq<Run>, from: int, to: int) -> bool {
    if runs.len() == 0 {
        from == to
    } else {
        &&& runs[0].start == from
        &&& runs.last().end == to
        &&& forall|i: int| 0 <= i < runs.len() ==> (#[trigger] runs[i]).start <= runs[i].end
        &&& forall|i: int|
            #![trigger runs[i]]
            0 <= i < runs.len() - 1 ==> runs[i].end == runs[i + 1].start
    }
}

proof fn lemma_contiguous_join(a: Seq<Run>, b: Seq<Run>, from: int, mid: int, to: int)
    requires
        contiguous(a, from, mid),
        contiguous(b, mid, to),
    ensures
        contiguous(a + b, from, to),
{
    let both = a + b;
    if a.len() == 0 {
        assert(both =~= b);
    } else if b.len() == 0 {
        assert(both =~= a);
    } else {
        assert forall|i: int| 0 <= i < both.len() implies (#[trigger] both[i]).start
            <= both[i].end by {
            if i < a.len() {
                assert(both[i] == a[i]);
            } else {
                assert(both[i] == b[i - a.len()]);
            }
        }
        assert forall|i: int|
            #![trigger both[i]]
            0 <= i < both.len() - 1 implies both[i].end == both[i + 1].start by {
            if i < a.len() - 1 {
                assert(both[i] == a[i] && both[i + 1] == a[i + 1]);
            } else if i == a.len() - 1 {
                assert(both[i] == a.last() && both[i + 1] == b[0]);
            } else {
                assert(both[i] == b[i - a.len()] && both[i + 1] == b[i - a.len() + 1]);
            }
        }
        assert(both.last() == b.last());
        assert(both[0] == a[0]);
    }
}

proof fn lemma_region_runs_contiguous(regions: Seq<Region>, offset: int)
    requires
        0 <= offset,
        offset + regions_len(regions) <= usize::MAX,
    ensures
        contiguous(region_runs(regions, offset), offset, offset + regions_len(regions)),
    decreases regions.len(),
{
    if regions.len() > 0 {
        let rest = regions.drop_last();
        lemma_region_runs_contiguous(rest, offset);
        let at = offset + regions_len(rest);
        let last = regions.last();
        if last.len > 0 {
            let run = Run {
                start: at as usize,
                end: (at + last.len) as usize,
                color: region_color(last),
            };
            lemma_contiguous_join(
                region_runs(rest, offset),
                seq![run],
                offset,
                at,
                at + last.len,
            );
            assert(region_runs(rest, offset).push(run) =~= region_runs(rest, offset) + seq![run]);
        }
    }
}

/// The runs of lines follow each other without gaps from the start of the
/// text to the end of the last line, however far the parts of a line reach in
/// it.
pub proof fn law_runs_are_contiguous(
    lines: Seq<(usize, Option<Seq<Region>>)>,
    default_color: Color,
)
    requires
        lines_reach(lines) <= usize::MAX,
    ensures
        contiguous(runs(lines, default_color), 0, lines_reach(lines) as int),
        within_lines(lines) ==> lines_reach(lines) == lines_len(lines),
    decreases lines.len(),
{
    if lines.len() > 0 {
        let rest = lines.drop_last();
        let last = lines.last();
        law_runs_are_contiguous(rest, default_color);
        let at = lines_reach(rest) as int;
        match last.1 {
            Some(regions) => {
                lemma_region_runs_contiguous(regions, at);
                let end = at + regions_len(regions);
                if end < at + last.0 {
                    let left = Run {
                        start: end as usize,
                        end: (at + last.0) as usize,
                        color: default_color,
                    };
                    lemma_contiguous_join(
                        region_runs(regions, at),
                        seq![left],
                        at,
                        end,
                        at + last.0,
                    );
                    assert(region_runs(regions, at).push(left) =~= region_runs(regions, at)
                        + seq![left]);
                }
            },
            None => {},
        }
        lemma_contiguous_join(
            runs(rest, default_color),
            line_runs(last, at, default_color),
            0,
            at,
            at + reach(last),
        );
        if within_lines(lines) {
            lemma_reach_is_the_length(lines);
        }
    }
}

// ---------------------------------------------------------------------------
// Highlighting
// ---------------------------------------------------------------------------

/// The runs of a text in a language. Text in a language without a grammar is
/// one run.
pub open spec fn highlighted(text: Seq<char>, lang: Seq<char>, default_color: Color) -> Seq<Run> {
    let whole = Run { start: 0, end: encode_utf8(text).len() as usize, color: default_color };
    match grammar_for(lang) {
        Some(grammar) => match cut_lines(grammar, text) {
            Some(lines) => runs(lines, default_color),
            None => seq![whole],
        },
        None => seq![whole],
    }
}

impl Grammars {
    /// Colours a text, all of it.
    pub fn compute(&self, text: &str, lang: &str, default_color: Color) -> (r: Vec<Run>)
        ensures
            r@ == highlighted(text@, lang@, default_color),
            contiguous(r@, 0, encode_utf8(text@).len() as int),
    {
        let len: usize = text.as_bytes().len();
        let mut out: Vec<Run> = Vec::new();
        if let Some(grammar) = self.syntax_for(lang) {
            if let Some(lines) = self.cut(grammar, text) {
                proof {
                    lemma_reach_is_the_length(lines@.map_values(|l: Line| l@));
                    law_runs_are_contiguous(lines@.map_values(|l: Line| l@), default_color);
                }
                return runs_of(&lines, default_color);
            }
        }
        out.push(Run { start: 0, end: len, color: default_color });
        proof {
            assert(out@ =~= seq![Run { start: 0, end: len, color: default_color }]);
        }
        out
    }
}

/// What was highlighted last.
struct CacheEntry {
    text: String,
    lang: String,
    default_color: Color,
    runs: Vec<Run>,
}

/// Colours texts, and remembers the last one: the preview is drawn again and
/// again while it stays the same.
pub struct Highlighter {
    grammars: Grammars,
    cache: Option<CacheEntry>,
}

impl Highlighter {
    /// What is remembered is what all of the text looks like.
    #[verifier::type_invariant]
    spec fn wf(&self) -> bool {
        match self.cache {
            Some(e) => e.runs@ == highlighted(e.text@, e.lang@, e.default_color) && contiguous(
                e.runs@,
                0,
                encode_utf8(e.text@).len() as int,
            ),
            None => true,
        }
    }

    /// The text, the language and the colour for plain text that were asked for
    /// last.
    pub closed spec fn remembered(&self) -> Option<(Seq<char>, Seq<char>, Color)> {
        match self.cache {
            Some(e) => Some((e.text@, e.lang@, e.default_color)),
            None => None,
        }
    }

    /// A highlighter that remembers nothing.
    pub fn new() -> (r: Self)
        ensures
            r.remembered() is None,
    {
        Highlighter { grammars: Grammars::new(), cache: None }
    }

    /// Colours a text, all of it. What was asked for last is not computed
    /// again.
    pub fn highlight(&mut self, text: &str, lang: &str, default_color: Color) -> (r: Vec<Run>)
        ensures
            r@ == highlighted(text@, lang@, default_color),
            contiguous(r@, 0, encode_utf8(text@).len() as int),
            final(self).remembered() == Some((text@, lang@, default_color)),
    {
        proof {
            use_type_invariant(&*self);
        }
        if let Some(e) = &self.cache {
            if text::str_eq(e.text.as_str(), text) && text::str_eq(e.lang.as_str(), lang)
                && e.default_color == default_color {
                return copy_runs(&e.runs);
            }
        }
        let runs = self.grammars.compute(text, lang, default_color);
        let entry = CacheEntry {
            text: text.to_owned(),
            lang: lang.to_owned(),
            default_color,
            runs: copy_runs(&runs),
        };
        self.cache = Some(entry);
        runs
    }
}

fn copy_runs(v: &Vec<Run>) -> (r: Vec<Run>)
    ensures
        r@ == v@,
{
    let mut out: Vec<Run> = Vec::new();
    let mut i: usize = 0;
    while i < v.len()
        invariant
            i <= v@.len(),
            out@ =~= v@.take(i as int),
        decreases v.len() - i,
    {
        out.push(v[i]);
        i = i + 1;
    }
    out
}

/// Every part of a line that is not empty is drawn in its own colour, from where
/// the parts before it end.
pub proof fn law_parts_keep_their_colours(regions: Seq<Region>, offset: int, k: int)
    requires
        0 <= k < regions.len(),
        regions[k].len > 0,
    ensures
        region_runs(regions, offset).contains(
            Run {
                start: (offset + regions_len(regions.take(k))) as usize,
                end: (offset + regions_len(regions.take(k)) + regions[k].len) as usize,
                color: ztheme::solid(
                    (regions[k].red as int * 0x10000 + regions[k].green as int * 0x100
                        + regions[k].blue as int) as u32,
                ),
            },
        ),
    decreases regions.len(),
{
    let t = regions.drop_last();
    let n = regions.len() - 1;
    let rest = region_runs(t, offset);
    if k < n {
        assert(t[k] == regions[k]);
        assert(t.take(k) =~= regions.take(k));
        law_parts_keep_their_colours(t, offset, k);
        let run = Run {
            start: (offset + regions_len(t)) as usize,
            end: (offset + regions_len(t) + regions[n].len) as usize,
            color: region_color(regions[n]),
        };
        sorting::lemma_push_holds(rest, run);
    } else {
        assert(regions.take(k) =~= t);
        let all = region_runs(regions, offset);
        assert(all.contains(all[all.len() - 1]));
    }
}

/// A line that could not be cut, and the rest of one that was cut short, are
/// drawn in the usual colour.
pub proof fn law_rest_is_drawn_as_usual(
    line: (usize, Option<Seq<Region>>),
    offset: int,
    default_color: Color,
)
    ensures
        line.1 is None ==> line_runs(line, offset, default_color) == seq![
            Run { start: offset as usize, end: (offset + line.0) as usize, color: default_color },
        ],
        line.1 is Some && regions_len(line.1->0) < line.0 ==> line_runs(
            line,
            offset,
            default_color,
        ).last() == (Run {
            start: (offset + regions_len(line.1->0)) as usize,
            end: (offset + line.0) as usize,
            color: default_color,
        }),
        line.1 is Some ==> region_runs(line.1->0, offset).is_prefix_of(
            line_runs(line, offset, default_color),
        ),
{
}

/// A language is looked for by its extension first, then by its token, then by
/// its name; without a language nothing is.
pub proof fn law_grammar_is_looked_for(lang: Seq<char>)
    ensures
        lang.len() == 0 ==> grammar_for(lang) is None,
        lang.len() > 0 && grammar_by_extension(lang) is Some ==> grammar_for(lang)
            == grammar_by_extension(lang),
        lang.len() > 0 && grammar_by_extension(lang) is None && grammar_by_token(lang) is Some
            ==> grammar_for(lang) == grammar_by_token(lang),
        lang.len() > 0 && grammar_by_extension(lang) is None && grammar_by_token(lang) is None
            ==> grammar_for(lang) == grammar_by_name(lang),
{
}

} // verus!
