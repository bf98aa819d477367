//! Syntax highlighting of code blocks.

use vstd::prelude::*;
use crate::strings;
use crate::strings::{split_lines, trim_trailing, untab};
use crate::text;
use crate::text::{Color, Span, SpanView, Style, StyleView};

verus! {

broadcast use strings::group_views;

/// `syntect::parsing::SyntaxSet`, of which nothing is known but what is stated of calls.
#[verifier::external_type_specification]
#[verifier::external_body]
pub struct ExSyntaxSet(syntect::parsing::SyntaxSet);

/// `syntect::parsing::SyntaxReference`, of which nothing is known but what is stated of calls.
#[verifier::external_type_specification]
#[verifier::external_body]
pub struct ExSyntaxReference(syntect::parsing::SyntaxReference);

/// `syntect::highlighting::Theme`, of which nothing is known but what is stated of calls.
#[verifier::external_type_specification]
#[verifier::external_body]
pub struct ExTheme(syntect::highlighting::Theme);

/// `syntect::highlighting::ThemeSet`, of which nothing is known but what is stated of calls.
#[verifier::external_type_specification]
#[verifier::external_body]
pub struct ExThemeSet(syntect::highlighting::ThemeSet);

/// `syntect::easy::HighlightLines`, of which nothing is known but what is stated of calls.
#[verifier::external_type_specification]
#[verifier::external_body]
pub struct ExHighlightLines<'a>(syntect::easy::HighlightLines<'a>);

/// The look of a highlighted piece of code: its color, and the font flags (bold
/// 1, underline 2, italic 4).
#[derive(Clone, Copy, Debug, PartialEq, Eq, Structural)]
pub struct Face {
    pub r: u8,
    pub g: u8,
    pub b: u8,
    pub font: u8,
}

/// The themes that a theme set holds, by name.
pub uninterp spec fn themes_in(set: syntect::highlighting::ThemeSet) -> Map<
    Seq<char>,
    syntect::highlighting::Theme,
>;

/// The theme that syntect ships under a name.
pub uninterp spec fn default_theme(name: Seq<char>) -> Option<syntect::highlighting::Theme>;

/// Calls `ThemeSet::load_defaults`: the set holds the themes that syntect ships
/// and no others, `base16-ocean.dark` among them.
#[verifier::external_body]
fn load_themes() -> (r: syntect::highlighting::ThemeSet)
    ensures
        forall|n: Seq<char>| #[trigger]
            default_theme(n) == (if themes_in(r).dom().contains(n) {
                Some(themes_in(r)[n])
            } else {
                None
            }),
        themes_in(r).dom().contains("base16-ocean.dark"@),
{
    syntect::highlighting::ThemeSet::load_defaults()
}

/// Calls `BTreeMap::remove` on the themes of a `ThemeSet`: the theme of that
/// name, if there is one, leaves the set and is handed out.
#[verifier::external_body]
fn take_theme(set: &mut syntect::highlighting::ThemeSet, name: &str) -> (r: Option<
    syntect::highlighting::Theme,
>)
    ensures
        r == (if themes_in(*old(set)).dom().contains(name@) {
            Some(themes_in(*old(set))[name@])
        } else {
            None
        }),
        themes_in(*final(set)) == themes_in(*old(set)).remove(name@),
{
    set.themes.remove(name)
}

/// Whether a syntax set holds the syntax of plain text.
pub uninterp spec fn has_plain_text(set: syntect::parsing::SyntaxSet) -> bool;

/// The syntax that `SyntaxSet::find_syntax_plain_text` gives.
pub uninterp spec fn plain_syntax(
    set: syntect::parsing::SyntaxSet,
) -> syntect::parsing::SyntaxReference;

/// The syntax that `SyntaxSet::find_syntax_by_token` finds.
pub uninterp spec fn token_syntax(
    set: syntect::parsing::SyntaxSet,
    token: Seq<char>,
) -> Option<syntect::parsing::SyntaxReference>;

/// The syntax that syntect ships for a token, for lines with their line endings.
pub uninterp spec fn shipped_syntax(token: Seq<char>) -> Option<syntect::parsing::SyntaxReference>;

/// Calls `SyntaxSet::load_defaults_newlines`: the syntaxes that syntect ships
/// for lines with their line endings, which are the same on every call, plain
/// text among them. Which syntax is found for which token is not said.
#[verifier::external_body]
fn load_syntaxes() -> (r: syntect::parsing::SyntaxSet)
    ensures
        has_plain_text(r),
        forall|t: Seq<char>| #[trigger] token_syntax(r, t) == shipped_syntax(t),
{
    syntect::parsing::SyntaxSet::load_defaults_newlines()
}

/// Whether a syntax is one that a syntax set holds.
pub uninterp spec fn holds_syntax(
    set: syntect::parsing::SyntaxSet,
    syntax: syntect::parsing::SyntaxReference,
) -> bool;

/// Calls `SyntaxSet::find_syntax_by_token`. What it finds depends on the set and
/// the token alone, and is a syntax of the set.
#[verifier::external_body]
fn find_syntax<'a>(set: &'a syntect::parsing::SyntaxSet, token: &str) -> (r: Option<
    &'a syntect::parsing::SyntaxReference,
>)
    ensures
        match r {
            Some(s) => token_syntax(*set, token@) == Some(*s) && holds_syntax(*set, *s),
            None => token_syntax(*set, token@) is None,
        },
{
    set.find_syntax_by_token(token)
}

/// Calls `SyntaxSet::find_syntax_plain_text`, which panics on a set without the
/// syntax of plain text. What it gives depends on the set alone, and is a syntax
/// of the set.
#[verifier::external_body]
fn plain_text_syntax(set: &syntect::parsing::SyntaxSet) -> (r: &syntect::parsing::SyntaxReference)
    requires
        has_plain_text(*set),
    ensures
        *r == plain_syntax(*set),
        holds_syntax(*set, *r),
{
    set.find_syntax_plain_text()
}

/// The syntax and the theme that a line highlighter was made with.
pub uninterp spec fn made_with(h: syntect::easy::HighlightLines<'_>) -> (
    syntect::parsing::SyntaxReference,
    syntect::highlighting::Theme,
);

/// The lines that a line highlighter has been given, each with the syntax set
/// given with it.
pub uninterp spec fn fed(h: syntect::easy::HighlightLines<'_>) -> Seq<
    (syntect::parsing::SyntaxSet, Seq<char>),
>;

/// What `HighlightLines::highlight_line` gives for the last of some lines, on a
/// highlighter made with a syntax and a theme and given the lines in order:
/// pieces of the line with their styles, or nothing on an error.
pub uninterp spec fn highlighted(
    syntax: syntect::parsing::SyntaxReference,
    theme: syntect::highlighting::Theme,
    lines: Seq<(syntect::parsing::SyntaxSet, Seq<char>)>,
) -> Option<Seq<(Face, Seq<char>)>>;

/// Calls `HighlightLines::new`: a highlighter for a syntax and a theme, which
/// has seen no line yet.
#[verifier::external_body]
fn start<'a>(
    syntax: &syntect::parsing::SyntaxReference,
    theme: &'a syntect::highlighting::Theme,
) -> (r: syntect::easy::HighlightLines<'a>)
    ensures
        made_with(r) == (*syntax, *theme),
        fed(r) == Seq::<(syntect::parsing::SyntaxSet, Seq<char>)>::empty(),
{
    syntect::easy::HighlightLines::new(syntax, theme)
}

/// The pieces of a line, with their text as characters.
pub open spec fn piece_views(
    r: Option<Vec<(Face, String)>>,
) -> Option<Seq<(Face, Seq<char>)>> {
    match r {
        Some(v) => Some(
            v@.map_values(
                |p: (Face, String)| (p.0, p.1@),
            ),
        ),
        None => None,
    }
}

/// Calls `HighlightLines::highlight_line`. What it gives depends on what the
/// highlighter was made with and on the lines it has been given, this one
/// included, each with its syntax set. The set must be the one that holds the
/// highlighter's syntax: with another one the call may panic. Of a style, the foreground color and the
/// font flags are kept.
#[verifier::external_body]
fn highlight_line(
    h: &mut syntect::easy::HighlightLines<'_>,
    line: &str,
    set: &syntect::parsing::SyntaxSet,
) -> (r: Option<Vec<(Face, String)>>)
    requires
        holds_syntax(*set, made_with(*old(h)).0),
    ensures
        made_with(*final(h)) == made_with(*old(h)),
        fed(*final(h)) == fed(*old(h)).push((*set, line@)),
        piece_views(r) == highlighted(
            made_with(*old(h)).0,
            made_with(*old(h)).1,
            fed(*final(h)),
        ),
{
    let pieces = h.highlight_line(line, set).ok()?;
    let faces = pieces.into_iter().map(
        |(s, t)| {
            let c = s.foreground;
            (Face { r: c.r, g: c.g, b: c.b, font: s.font_style.bits() }, t.to_string())
        },
    );
    Some(faces.collect())
}

/// The style that a highlighted piece of code is shown in.
pub open spec fn syn_style(syn: Face) -> StyleView {
    StyleView {
        fg: Some(Color::Rgb { r: syn.r, g: syn.g, b: syn.b }),
        bold: syn.font & 1 == 1,
        underline: syn.font & 2 == 2,
        italic: syn.font & 4 == 4,
        ..text::plain_style()
    }
}

/// The style that a highlighted piece of code is shown in.
pub fn syn_to_style(syn: Face) -> (r: Style)
    ensures
        r@ == syn_style(syn),
{
    let mut style = Style::default().fg(Color::Rgb { r: syn.r, g: syn.g, b: syn.b });
    style.bold = syn.font & 1 == 1;
    style.italic = syn.font & 4 == 4;
    style.underline = syn.font & 2 == 2;
    style
}

/// The loaded syntaxes and the theme in use. They are expensive to load, so a
/// value of this type survives re-renders.
pub struct Highlighter {
    syntaxes: syntect::parsing::SyntaxSet,
    theme: syntect::highlighting::Theme,
}

impl Highlighter {
    pub closed spec fn syntax_set(&self) -> syntect::parsing::SyntaxSet {
        self.syntaxes
    }

    pub closed spec fn color_theme(&self) -> syntect::highlighting::Theme {
        self.theme
    }

    #[verifier::type_invariant]
    spec fn knows_plain_text(self) -> bool {
        has_plain_text(self.syntaxes)
    }

    /// Loads the syntaxes and the named theme; `base16-ocean.dark` where there
    /// is none of that name.
    pub fn new(theme_name: &str) -> (r: Highlighter)
        ensures
            default_theme(theme_name@) is Some ==> default_theme(theme_name@) == Some(
                r.color_theme(),
            ),
            default_theme(theme_name@) is None ==> default_theme("base16-ocean.dark"@) == Some(
                r.color_theme(),
            ),
            forall|t: Seq<char>| #[trigger] token_syntax(r.syntax_set(), t) == shipped_syntax(t),
    {
        let syntaxes = load_syntaxes();
        let mut themes = load_themes();
        let ghost all = themes_in(themes);
        assert(default_theme(theme_name@) == (if all.dom().contains(theme_name@) {
            Some(all[theme_name@])
        } else {
            None
        }));
        assert(default_theme("base16-ocean.dark"@) == Some(all["base16-ocean.dark"@]));
        let theme = match take_theme(&mut themes, theme_name) {
            Some(t) => t,
            None => take_theme(&mut themes, "base16-ocean.dark").unwrap(),
        };
        Highlighter { syntaxes, theme }
    }
}

/// The syntax that code in language `lang` is highlighted by.
pub open spec fn syntax_for(
    set: syntect::parsing::SyntaxSet,
    lang: Seq<char>,
) -> syntect::parsing::SyntaxReference {
    match token_syntax(set, lang) {
        Some(s) => s,
        None => plain_syntax(set),
    }
}

/// The spans of the pieces of a line, without its line ending and without what
/// is then empty.
pub open spec fn piece_spans(pieces: Seq<(Face, Seq<char>)>) -> Seq<
    SpanView,
>
    decreases pieces.len(),
{
    if pieces.len() == 0 {
        seq![]
    } else {
        let before = piece_spans(pieces.drop_last());
        let t = strings::without_trailing(pieces.last().1, '\n');
        if t.len() == 0 {
            before
        } else {
            before.push(SpanView { text: t, style: syn_style(pieces.last().0) })
        }
    }
}

/// The spans of one line of code, given what the highlighter made of it.
pub open spec fn code_line(
    line: Seq<char>,
    pieces: Option<Seq<(Face, Seq<char>)>>,
) -> Seq<SpanView> {
    let indent = seq![SpanView { text: "  "@, style: text::plain_style() }];
    match pieces {
        Some(p) => indent + piece_spans(p),
        None => indent.push(SpanView { text: line, style: text::plain_style() }),
    }
}

/// The lines of a block of code, as they are shown: tabs expanded.
pub open spec fn shown_lines(code: Seq<char>) -> Seq<Seq<char>> {
    strings::lines_of(code).map_values(|l: Seq<char>| strings::untabbed(l))
}

/// The first `n` lines of `lines`, as a line highlighter is given them.
pub open spec fn fed_lines(set: syntect::parsing::SyntaxSet, lines: Seq<Seq<char>>, n: int) -> Seq<
    (syntect::parsing::SyntaxSet, Seq<char>),
> {
    lines.take(n).map_values(|l: Seq<char>| (set, l.push('\n')))
}

/// The lines of a highlighted block of code.
pub open spec fn code_lines(
    set: syntect::parsing::SyntaxSet,
    theme: syntect::highlighting::Theme,
    lang: Seq<char>,
    code: Seq<char>,
) -> Seq<Seq<SpanView>> {
    let lines = shown_lines(code);
    Seq::new(
        lines.len(),
        |i: int|
            code_line(
                lines[i],
                highlighted(syntax_for(set, lang), theme, fed_lines(set, lines, i + 1)),
            ),
    )
}

/// The spans of one line of code, given what the highlighter made of it.
pub fn style_line(
    line: &str,
    pieces: Option<Vec<(Face, String)>>,
) -> (r: Vec<Span>)
    ensures
        strings::views(r@) == code_line(line@, piece_views(pieces)),
{
    let mut spans: Vec<Span> = Vec::new();
    spans.push(Span::plain("  "));
    let ghost indent = seq![SpanView { text: "  "@, style: text::plain_style() }];
    assert(strings::views(spans@) =~= indent);
    match &pieces {
        None => {
            spans.push(Span::plain(line));
        },
        Some(ps) => {
            let ghost pv = piece_views(pieces)->0;
            let mut i: usize = 0;
            assert(pv.take(0) =~= seq![]);
            assert(indent + seq![] =~= indent);
            while i < ps.len()
                invariant
                    i <= ps@.len(),
                    pieces == Some(*ps),
                    pv == piece_views(pieces)->0,
                    strings::views(spans@) == indent + piece_spans(pv.take(i as int)),
                decreases ps@.len() - i,
            {
                assert(pv.take(i + 1).drop_last() =~= pv.take(i as int));
                let t = trim_trailing(ps[i].1.as_str(), '\n');
                assert(pv[i as int] == (ps@[i as int].0, ps@[i as int].1@));
                let ghost before = piece_spans(pv.take(i as int));
                if !t.as_str().is_empty() {
                    let span = Span { text: t, style: syn_to_style(ps[i].0) };
                    assert((indent + before).push(span@) =~= indent + before.push(span@));
                    spans.push(span);
                }
                i = i + 1;
            }
            assert(pv.take(i as int) =~= pv);
        },
    }
    spans
}

impl Highlighter {
    /// Highlights a block of code in language `lang`, line by line.
    pub fn code_lines(&self, lang: &str, code: &str) -> (r: Vec<Vec<Span>>)
        ensures
            strings::views2(r@) == code_lines(self.syntax_set(), self.color_theme(), lang@, code@),
    {
        proof {
            use_type_invariant(self);
        }
        let syntax = match find_syntax(&self.syntaxes, lang) {
            Some(s) => s,
            None => plain_text_syntax(&self.syntaxes),
        };
        let mut pen = start(syntax, &self.theme);
        let raw = split_lines(code);
        let ghost lines = shown_lines(code@);
        let ghost set = self.syntaxes;
        let ghost want = code_lines(self.syntax_set(), self.color_theme(), lang@, code@);
        let mut out: Vec<Vec<Span>> = Vec::new();
        let mut i: usize = 0;
        assert(fed(pen) =~= fed_lines(set, lines, 0));
        while i < raw.len()
            invariant
                i <= raw@.len(),
                strings::views(raw@) == strings::lines_of(code@),
                lines == shown_lines(code@),
                set == self.syntaxes,
                *syntax == syntax_for(set, lang@),
                holds_syntax(set, *syntax),
                made_with(pen) == (*syntax, self.theme),
                fed(pen) == fed_lines(set, lines, i as int),
                want == code_lines(self.syntax_set(), self.color_theme(), lang@, code@),
                strings::views2(out@) =~= want.take(i as int),
            decreases raw@.len() - i,
        {
            assert(strings::views(raw@)[i as int] == raw@[i as int]@);
            let line = untab(raw[i].as_str());
            assert(lines[i as int] == line@);
            let mut with_nl: String = line.clone();
            with_nl.push('\n');
            let ghost before = fed(pen);
            let pieces = highlight_line(&mut pen, with_nl.as_str(), &self.syntaxes);
            assert(fed(pen) =~= fed_lines(set, lines, i + 1));
            out.push(style_line(line.as_str(), pieces));
            i = i + 1;
        }
        assert(want.take(i as int) =~= want);
        out
    }
}

/// Whether texts are in strict order, so that none stands twice.
pub open spec fn strictly_ordered(names: Seq<Seq<char>>) -> bool {
    forall|i: int, j: int|
        0 <= i < j < names.len() ==> strings::precedes(#[trigger] names[i], #[trigger] names[j])
}

/// Calls `BTreeMap::keys` on the themes of a `ThemeSet`: the names of all of
/// them, in order.
#[verifier::external_body]
fn names_in(set: &syntect::highlighting::ThemeSet) -> (r: Vec<String>)
    ensures
        forall|n: Seq<char>| #[trigger]
            strings::views(r@).contains(n) <==> themes_in(*set).dom().contains(n),
        strictly_ordered(strings::views(r@)),
{
    set.themes.keys().cloned().collect()
}

/// Whether a list holds the names of all themes that syntect ships, in order.
pub open spec fn lists_themes(names: Seq<Seq<char>>) -> bool {
    strictly_ordered(names) && forall|n: Seq<char>| #[trigger]
        names.contains(n) <==> default_theme(n) is Some
}

/// The names of all themes there are, in order.
pub fn theme_names() -> (r: Vec<String>)
    ensures
        lists_themes(strings::views(r@)),
{
    let set = load_themes();
    let names = names_in(&set);
    assert forall|n: Seq<char>| #[trigger]
        strings::views(names@).contains(n) <==> default_theme(n) is Some by {
        assert(default_theme(n) is Some <==> themes_in(set).dom().contains(n));
    }
    names
}

/// Whether there is a theme of a name.
pub fn knows_theme(name: &str) -> (r: bool)
    ensures
        r == (default_theme(name@) is Some),
{
    let mut set = load_themes();
    assert(default_theme(name@) is Some <==> themes_in(set).dom().contains(name@));
    take_theme(&mut set, name).is_some()
}

} // verus!
