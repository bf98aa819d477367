//! Styled text: spans, and the lines made of them.

use vstd::prelude::*;
use crate::strings;
use crate::strings::str_eq;
use crate::width;
use crate::width::measure;

verus! {

broadcast use strings::group_views;

/// A foreground color, by terminal palette name or by components.
#[derive(Clone, Copy, Debug, PartialEq, Eq, Structural)]
pub enum Color {
    Reset,
    Black,
    DarkGrey,
    Red,
    DarkRed,
    Green,
    DarkGreen,
    Yellow,
    DarkYellow,
    Blue,
    DarkBlue,
    Magenta,
    DarkMagenta,
    Cyan,
    DarkCyan,
    White,
    Grey,
    Rgb { r: u8, g: u8, b: u8 },
    AnsiValue(u8),
}

/// Visual styling for a run of text, including an optional hyperlink target.
#[derive(Debug, PartialEq)]
pub struct Style {
    pub fg: Option<Color>,
    pub bold: bool,
    pub dim: bool,
    pub italic: bool,
    pub underline: bool,
    pub strikethrough: bool,
    pub reverse: bool,
    pub link: Option<String>,
}

#[verifier::ext_equal]
pub struct StyleView {
    pub fg: Option<Color>,
    pub bold: bool,
    pub dim: bool,
    pub italic: bool,
    pub underline: bool,
    pub strikethrough: bool,
    pub reverse: bool,
    pub link: Option<Seq<char>>,
}

/// The characters of an optional string.
pub open spec fn opt_view(s: Option<String>) -> Option<Seq<char>> {
    match s {
        Some(t) => Some(t@),
        None => None,
    }
}

impl View for Style {
    type V = StyleView;

    open spec fn view(&self) -> StyleView {
        StyleView {
            fg: self.fg,
            bold: self.bold,
            dim: self.dim,
            italic: self.italic,
            underline: self.underline,
            strikethrough: self.strikethrough,
            reverse: self.reverse,
            link: opt_view(self.link),
        }
    }
}

impl Clone for Style {
    fn clone(&self) -> (r: Style)
        ensures
            r@ == self@,
    {
        let link = match &self.link {
            Some(l) => Some(l.clone()),
            None => None,
        };
        Style {
            fg: self.fg,
            bold: self.bold,
            dim: self.dim,
            italic: self.italic,
            underline: self.underline,
            strikethrough: self.strikethrough,
            reverse: self.reverse,
            link,
        }
    }
}

/// The style of unadorned text.
pub open spec fn plain_style() -> StyleView {
    StyleView {
        fg: None,
        bold: false,
        dim: false,
        italic: false,
        underline: false,
        strikethrough: false,
        reverse: false,
        link: None,
    }
}

impl Default for Style {
    fn default() -> (r: Style)
        ensures
            r@ == plain_style(),
    {
        Style {
            fg: None,
            bold: false,
            dim: false,
            italic: false,
            underline: false,
            strikethrough: false,
            reverse: false,
            link: None,
        }
    }
}

impl Style {
    /// The same style in another foreground color.
    pub fn fg(self, color: Color) -> (r: Style)
        ensures
            r@ == (StyleView { fg: Some(color), ..self@ }),
    {
        let mut s = self;
        s.fg = Some(color);
        s
    }

    /// The same style, bold.
    pub fn bold(self) -> (r: Style)
        ensures
            r@ == (StyleView { bold: true, ..self@ }),
    {
        let mut s = self;
        s.bold = true;
        s
    }

    /// The same style, dim.
    pub fn dim(self) -> (r: Style)
        ensures
            r@ == (StyleView { dim: true, ..self@ }),
    {
        let mut s = self;
        s.dim = true;
        s
    }

    /// Whether two styles look and link alike.
    pub fn same(&self, other: &Style) -> (r: bool)
        ensures
            r == (self@ == other@),
    {
        let link = match (&self.link, &other.link) {
            (Some(a), Some(b)) => str_eq(a.as_str(), b.as_str()),
            (None, None) => true,
            _ => false,
        };
        let fg = match (self.fg, other.fg) {
            (Some(a), Some(b)) => a == b,
            (None, None) => true,
            _ => false,
        };
        link && fg && self.bold == other.bold && self.dim == other.dim && self.italic == other.italic
            && self.underline == other.underline && self.strikethrough == other.strikethrough
            && self.reverse == other.reverse
    }
}

/// A run of text in one style.
#[derive(Debug)]
pub struct Span {
    pub text: String,
    pub style: Style,
}

#[verifier::ext_equal]
pub struct SpanView {
    pub text: Seq<char>,
    pub style: StyleView,
}

impl View for Span {
    type V = SpanView;

    open spec fn view(&self) -> SpanView {
        SpanView { text: self.text@, style: self.style@ }
    }
}

impl Clone for Span {
    fn clone(&self) -> (r: Span)
        ensures
            r@ == self@,
    {
        Span { text: self.text.clone(), style: self.style.clone() }
    }
}

impl Span {
    /// A span of `text` in `style`.
    pub fn new(text: &str, style: Style) -> (r: Span)
        ensures
            r@ == (SpanView { text: text@, style: style@ }),
    {
        Span { text: text.to_owned(), style }
    }

    /// A span of unadorned text.
    pub fn plain(text: &str) -> (r: Span)
        ensures
            r@ == (SpanView { text: text@, style: plain_style() }),
    {
        Span::new(text, Style::default())
    }

    /// The columns the span takes on screen.
    pub fn width(&self) -> (w: usize)
        ensures
            w == width::str_width(self@.text),
            width::printable_text(self@.text) ==> w == self@.text.len(),
    {
        measure(self.text.as_str())
    }
}

/// The characters of a run of spans.
pub open spec fn line_len(spans: Seq<SpanView>) -> nat
    decreases spans.len(),
{
    if spans.len() == 0 {
        0
    } else {
        line_len(spans.drop_last()) + spans.last().text.len()
    }
}

/// The characters of two runs of spans add up.
pub proof fn line_len_add(a: Seq<SpanView>, b: Seq<SpanView>)
    ensures
        line_len(a + b) == line_len(a) + line_len(b),
    decreases b.len(),
{
    if b.len() == 0 {
        assert(a + b =~= a);
    } else {
        assert((a + b).drop_last() =~= a + b.drop_last());
        line_len_add(a, b.drop_last());
    }
}

/// The characters of one span.
pub proof fn line_len_of_one(s: SpanView)
    ensures
        line_len(seq![s]) == s.text.len(),
{
    assert(seq![s].drop_last() =~= seq![]);
    assert(line_len(seq![s].drop_last()) == 0);
}

/// Whether spans hold only printable ASCII.
pub open spec fn all_printable(spans: Seq<SpanView>) -> bool {
    forall|i: int| 0 <= i < spans.len() ==> width::printable_text((#[trigger] spans[i]).text)
}

/// The total width of a run of spans.
pub open spec fn line_width(spans: Seq<SpanView>) -> nat
    decreases spans.len(),
{
    if spans.len() == 0 {
        0
    } else {
        line_width(spans.drop_last()) + width::str_width(spans.last().text) as nat
    }
}

/// The text of a run of spans, without its styling.
pub open spec fn line_text(spans: Seq<SpanView>) -> Seq<char>
    decreases spans.len(),
{
    if spans.len() == 0 {
        seq![]
    } else {
        line_text(spans.drop_last()) + spans.last().text
    }
}

/// A line with one more span at its end. Empty text adds nothing, and text in
/// the style of the last span joins that span.
pub open spec fn push_span(line: Seq<SpanView>, span: SpanView) -> Seq<SpanView> {
    if span.text.len() == 0 {
        line
    } else if line.len() > 0 && line.last().style == span.style {
        line.drop_last().push(
            SpanView { text: line.last().text + span.text, style: span.style },
        )
    } else {
        line.push(span)
    }
}

/// A line after all of `spans` were pushed onto it, in order.
pub open spec fn push_spans(line: Seq<SpanView>, spans: Seq<SpanView>) -> Seq<SpanView>
    decreases spans.len(),
{
    if spans.len() == 0 {
        line
    } else {
        push_span(push_spans(line, spans.drop_last()), spans.last())
    }
}

/// Pushing a span appends its text to the line's text.
pub proof fn push_appends_text(line: Seq<SpanView>, span: SpanView)
    ensures
        line_text(push_span(line, span)) == line_text(line) + span.text,
{
    let r = push_span(line, span);
    if span.text.len() == 0 {
        assert(line_text(line) + span.text =~= line_text(line));
    } else if line.len() > 0 && line.last().style == span.style {
        assert(r.drop_last() =~= line.drop_last());
        assert(line_text(line.drop_last()) + (line.last().text + span.text) =~= line_text(
            line.drop_last(),
        ) + line.last().text + span.text);
    } else {
        assert(r.drop_last() =~= line);
    }
}

/// Pushing spans appends the text of all of them, in order.
pub proof fn pushes_append_text(line: Seq<SpanView>, spans: Seq<SpanView>)
    ensures
        line_text(push_spans(line, spans)) == line_text(line) + line_text(spans),
    decreases spans.len(),
{
    if spans.len() == 0 {
        assert(line_text(line) + line_text(spans) =~= line_text(line));
    } else {
        pushes_append_text(line, spans.drop_last());
        push_appends_text(push_spans(line, spans.drop_last()), spans.last());
        assert(line_text(line) + line_text(spans.drop_last()) + spans.last().text =~= line_text(
            line,
        ) + (line_text(spans.drop_last()) + spans.last().text));
    }
}

/// The total width of `spans[..]`, which may exceed what a column count holds.
pub fn total_width(spans: &Vec<Span>) -> (w: u128)
    ensures
        w == line_width(strings::views(spans@)),
        w <= spans@.len() * 0xffff_ffff_ffff_ffff,
        all_printable(strings::views(spans@)) ==> w == line_len(strings::views(spans@)),
{
    let mut total: u128 = 0;
    let mut i: usize = 0;
    let ghost vs = strings::views(spans@);
    assert(vs.take(0) =~= seq![]);
    while i < spans.len()
        invariant
            i <= spans@.len(),
            vs == strings::views(spans@),
            total == line_width(vs.take(i as int)),
            total <= i * 0xffff_ffff_ffff_ffff,
            all_printable(vs) ==> total == line_len(vs.take(i as int)),
        decreases spans@.len() - i,
    {
        let w: usize = spans[i].width();
        assert(vs.take(i + 1).drop_last() =~= vs.take(i as int));
        assert(vs.take(i + 1).last() == vs[i as int]);
        total = total + w as u128;
        i = i + 1;
    }
    assert(vs.take(i as int) =~= vs);
    total
}

/// One physical (already wrapped) line of rendered output.
#[derive(Debug)]
pub struct Line {
    pub spans: Vec<Span>,
}

impl View for Line {
    type V = Seq<SpanView>;

    open spec fn view(&self) -> Seq<SpanView> {
        strings::views(self.spans@)
    }
}

impl Default for Line {
    fn default() -> (r: Line)
        ensures
            r@ == Seq::<SpanView>::empty(),
    {
        Line { spans: Vec::new() }
    }
}

/// Copies of spans, in order.
pub fn clone_spans(spans: &Vec<Span>) -> (r: Vec<Span>)
    ensures
        strings::views(r@) == strings::views(spans@),
{
    let mut out: Vec<Span> = Vec::new();
    let mut i: usize = 0;
    while i < spans.len()
        invariant
            i <= spans@.len(),
            strings::views(out@) =~= strings::views(spans@).take(i as int),
        decreases spans@.len() - i,
    {
        out.push(spans[i].clone());
        i = i + 1;
    }
    assert(strings::views(spans@).take(i as int) =~= strings::views(spans@));
    out
}

impl Clone for Line {
    fn clone(&self) -> (r: Line)
        ensures
            r@ == self@,
    {
        Line { spans: clone_spans(&self.spans) }
    }
}

impl Line {
    /// Adds a span at the end; text in the style of the last span joins it.
    pub fn push(&mut self, span: Span)
        ensures
            final(self)@ == push_span(old(self)@, span@),
    {
        if span.text.as_str().is_empty() {
            return ;
        }
        let n: usize = self.spans.len();
        if n > 0 && self.spans[n - 1].style.same(&span.style) {
            let ghost before = self.spans@;
            let mut last = self.spans.pop().unwrap();
            last.text.push_str(span.text.as_str());
            self.spans.push(last);
            assert(strings::views(before).last() == before.last()@);
        } else {
            self.spans.push(span);
        }
    }

    /// Adds each of `spans` at the end, in order.
    pub fn push_all(&mut self, spans: Vec<Span>)
        ensures
            final(self)@ == push_spans(old(self)@, strings::views(spans@)),
    {
        let ghost start = self@;
        let ghost vs = strings::views(spans@);
        let mut i: usize = 0;
        assert(vs.take(0) =~= seq![]);
        while i < spans.len()
            invariant
                i <= spans@.len(),
                vs == strings::views(spans@),
                self@ == push_spans(start, vs.take(i as int)),
            decreases spans@.len() - i,
        {
            assert(vs.take(i + 1).drop_last() =~= vs.take(i as int));
            self.push(spans[i].clone());
            i = i + 1;
        }
        assert(vs.take(i as int) =~= vs);
    }

    /// The line's text, without its styling.
    pub fn plain(&self) -> (r: String)
        ensures
            r@ == line_text(self@),
    {
        let mut out = String::new();
        let mut i: usize = 0;
        let ghost vs = self@;
        assert(vs.take(0) =~= seq![]);
        while i < self.spans.len()
            invariant
                i <= self.spans@.len(),
                vs == self@,
                out@ == line_text(vs.take(i as int)),
            decreases self.spans@.len() - i,
        {
            assert(vs.take(i + 1).drop_last() =~= vs.take(i as int));
            out.push_str(self.spans[i].text.as_str());
            i = i + 1;
        }
        assert(vs.take(i as int) =~= vs);
        out
    }

    /// The columns the line takes on screen, where the sum can be counted.
    pub fn width(&self) -> (w: usize)
        requires
            line_width(self@) <= usize::MAX,
        ensures
            w == line_width(self@),
            all_printable(self@) ==> w == line_len(self@),
    {
        total_width(&self.spans) as usize
    }

    /// The columns the line takes on screen, or nothing where they are more
    /// than can be counted.
    pub fn checked_width(&self) -> (w: Option<usize>)
        ensures
            w == (if line_width(self@) <= usize::MAX {
                Some(line_width(self@) as usize)
            } else {
                None
            }),
    {
        if total_width(&self.spans) <= usize::MAX as u128 {
            Some(self.width())
        } else {
            None
        }
    }
}

} // verus!
