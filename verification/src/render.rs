//! Renders markdown to styled, wrapped lines.

pub use crate::highlight::Highlighter;
pub use crate::prose::{has_scheme, replace_shortcodes};
pub use crate::state::{ImageMode, TermTheme, MAX_IMAGE_ROWS, QUOTE_BAR};
pub use crate::wrap::wrap_spans;
pub use events::{render, render_events};

use vstd::prelude::*;
use std::collections::hash_map::DefaultHasher;
use std::hash::Hasher;
use vstd::bytes;
use vstd::bytes::u64_to_le_bytes;
use crate::diagram::Request;
use crate::kitty::placeholder_cell;
use crate::rewrap;
use crate::state;
use crate::state::{
    AskView, CaptureView, CodeView, DocumentView, HeadingView, ImageView, OptsView, PictureView,
    PrefixView, State, WantView,
};
use crate::strings;
use crate::strings::{is_blank, repeat};
use crate::table::Table;
use crate::text;
use crate::text::{Color, Line, Span, Style};
use crate::width::measure;
use crate::wrap;

pub mod emit;
pub mod events;
pub mod tags;

verus! {

broadcast use strings::group_views;

/// An image queued for kitty-protocol transmission by the pager.
pub struct KittyImage {
    pub id: u32,
    pub png: Vec<u8>,
    pub cols: u16,
    pub rows: u16,
}

impl View for KittyImage {
    type V = ImageView;

    open spec fn view(&self) -> ImageView {
        ImageView { id: self.id, png: self.png@, cols: self.cols, rows: self.rows }
    }
}

impl TermTheme {
    /// Explicit RGB link blue so it reads as a link regardless of how the
    /// terminal palette tints ANSI bright-blue.
    pub fn link_color(self) -> (r: Color)
        ensures
            r == state::link_color(self),
    {
        match self {
            TermTheme::Dark => Color::Rgb { r: 0x5f, g: 0xaf, b: 0xff },
            TermTheme::Light => Color::Rgb { r: 0x09, g: 0x69, b: 0xda },
        }
    }
}

/// A heading of a document, for navigation.
pub struct Heading {
    pub line: usize,
    pub level: u8,
    pub text: String,
}

impl View for Heading {
    type V = HeadingView;

    open spec fn view(&self) -> HeadingView {
        HeadingView { line: self.line as nat, level: self.level, text: self.text@ }
    }
}

/// A rendered document.
pub struct Document {
    pub lines: Vec<Line>,
    pub headings: Vec<Heading>,
    pub images: Vec<KittyImage>,
}

impl View for Document {
    type V = DocumentView;

    open spec fn view(&self) -> DocumentView {
        DocumentView {
            lines: strings::views(self.lines@),
            headings: strings::views(self.headings@),
            images: strings::views(self.images@),
        }
    }
}

/// Everything that shapes a render besides the source itself.
pub struct RenderOpts {
    pub width: usize,
    /// Directory the document lives in; resolves relative image and link
    /// targets.
    pub base: Option<String>,
    pub image_mode: ImageMode,
    /// When false, mermaid/latex blocks stay syntax-highlighted code.
    pub diagrams: bool,
    /// Resolve relative links against `base`. Off for stdin, where base is
    /// only a guess at the working directory — a wrong file:// link is worse
    /// than an inert one.
    pub resolve_links: bool,
    /// Light/dark terminal background; picks link blue, H6 color, and
    /// diagram colors.
    pub theme: TermTheme,
}

impl View for RenderOpts {
    type V = OptsView;

    open spec fn view(&self) -> OptsView {
        OptsView {
            width: self.width,
            base: text::opt_view(self.base),
            image_mode: self.image_mode,
            diagrams: self.diagrams,
            resolve_links: self.resolve_links,
            theme: self.theme,
        }
    }
}

/// What stands in front of the lines of a block.
pub struct Prefix {
    pub first: String,
    pub rest: String,
    pub style: Style,
    pub first_done: bool,
}

impl View for Prefix {
    type V = PrefixView;

    open spec fn view(&self) -> PrefixView {
        PrefixView {
            first: self.first@,
            rest: self.rest@,
            style: self.style@,
            first_done: self.first_done,
        }
    }
}

/// A block of code as it is collected.
pub struct CodeState {
    pub lang: String,
    pub buf: String,
}

impl View for CodeState {
    type V = CodeView;

    open spec fn view(&self) -> CodeView {
        CodeView { lang: self.lang@, buf: self.buf@ }
    }
}

/// Alt text and target collected between the start and the end of an image.
pub struct ImageCapture {
    pub url: String,
    pub alt: String,
}

impl View for ImageCapture {
    type V = CaptureView;

    open spec fn view(&self) -> CaptureView {
        CaptureView { url: self.url@, alt: self.alt@ }
    }
}

/// A picture, as PNG, with the cell grid it is to fill as far as that fits.
pub struct Picture {
    pub png: Vec<u8>,
    pub cols: u16,
    pub rows: u16,
}

impl View for Picture {
    type V = PictureView;

    open spec fn view(&self) -> PictureView {
        PictureView { png: self.png@, cols: self.cols, rows: self.rows }
    }
}

/// What rendering waits for a picture for.
pub enum Ask {
    Image(ImageCapture),
    Code(CodeState),
}

impl View for Ask {
    type V = AskView;

    open spec fn view(&self) -> AskView {
        match self {
            Ask::Image(cap) => AskView::Image(cap@),
            Ask::Code(code) => AskView::Code(code@),
        }
    }
}

/// What rendering asks for: the picture in a file, or a diagram, with the
/// columns there are for it.
pub enum Want {
    File(String, usize),
    Diagram(Request, usize),
}

impl View for Want {
    type V = WantView;

    open spec fn view(&self) -> WantView {
        match self {
            Want::File(path, avail) => WantView::File(path@, *avail as nat),
            Want::Diagram(request, avail) => WantView::Diagram(request@, *avail as nat),
        }
    }
}

/// The view of an optional value.
pub open spec fn opt<T: View>(o: Option<T>) -> Option<T::V> {
    match o {
        Some(x) => Some(x@),
        None => None,
    }
}

/// A render in progress. Feed it the events of a document; where an event asks
/// for a picture, answer before the next one if the picture can be had.
pub struct Renderer<'a> {
    hl: &'a Highlighter,
    width: usize,
    base: Option<String>,
    image_mode: ImageMode,
    diagrams: bool,
    resolve_links: bool,
    theme: TermTheme,
    images: Vec<KittyImage>,
    lines: Vec<Line>,
    headings: Vec<Heading>,
    inline: Vec<Span>,
    styles: Vec<Style>,
    prefixes: Vec<Prefix>,
    list_stack: Vec<Option<u64>>,
    table: Option<Table>,
    code: Option<CodeState>,
    image: Option<ImageCapture>,
    asked: Option<Ask>,
    at_item_start: bool,
}

impl<'a> View for Renderer<'a> {
    type V = State;

    closed spec fn view(&self) -> State {
        State {
            width: self.width,
            base: text::opt_view(self.base),
            image_mode: self.image_mode,
            diagrams: self.diagrams,
            resolve_links: self.resolve_links,
            theme: self.theme,
            syntaxes: self.hl.syntax_set(),
            palette: self.hl.color_theme(),
            images: strings::views(self.images@),
            lines: strings::views(self.lines@),
            headings: strings::views(self.headings@),
            inline: strings::views(self.inline@),
            styles: strings::views(self.styles@),
            prefixes: strings::views(self.prefixes@),
            list_stack: self.list_stack@,
            table: opt(self.table),
            code: opt(self.code),
            image: opt(self.image),
            asked: opt(self.asked),
            at_item_start: self.at_item_start,
        }
    }
}

/// The style of a heading of a level.
pub fn heading_style(level: u8, theme: TermTheme) -> (r: Style)
    ensures
        r@ == state::heading_style(level, theme),
{
    let color = match level {
        1 => Color::Magenta,
        2 => Color::Cyan,
        3 => Color::Blue,
        4 => Color::Green,
        5 => Color::Yellow,
        // Bold white vanishes on a light background; flip with the theme.
        _ => match theme {
            TermTheme::Dark => Color::White,
            TermTheme::Light => Color::Black,
        },
    };
    Style::default().fg(color).bold()
}

fn barren_text(s: &str) -> (r: bool)
    ensures
        r == state::barren(s@),
{
    let chars = strings::to_chars(s);
    let mut i: usize = 0;
    while i < chars.len()
        invariant
            i <= chars@.len(),
            chars@ == s@,
            forall|j: int|
                0 <= j < i ==> strings::is_white(#[trigger] s@[j]) || s@[j] == QUOTE_BAR,
        decreases chars@.len() - i,
    {
        if !chars[i].is_whitespace() && chars[i] != QUOTE_BAR {
            assert(!strings::is_white(s@[i as int]));
            return false;
        }
        i = i + 1;
    }
    true
}

/// Whether the last of some lines is blank.
pub(crate) fn blank_end(lines: &Vec<Line>) -> (r: bool)
    ensures
        r == (lines@.len() > 0 && strings::all_white(
            text::line_text(strings::views(lines@).last()),
        )),
{
    let n: usize = lines.len();
    if n == 0 {
        return false;
    }
    let plain = lines[n - 1].plain();
    is_blank(plain.as_str())
}

/// The id of an image. It is derived from the content (24 bits, nonzero), so
/// that re-renders that renumber or add images keep ids stable per content.
pub fn content_id(png: &Vec<u8>) -> (r: u32)
    ensures
        r == state::image_id(png@),
        0 < r < 0x100_0000,
{
    let mut h = DefaultHasher::new();
    let len = u64_to_le_bytes(png.len() as u64);
    h.write(len.as_slice());
    h.write(png.as_slice());
    assert(h@ =~= seq![bytes::spec_u64_to_le_bytes(png@.len() as u64), png@]);
    (h.finish() % 0xff_fffe + 1) as u32
}

/// The placeholder cells of one row of an image.
pub(crate) fn row_cells(row: usize, cols: u16) -> (r: String)
    ensures
        r@ == state::cells(row as int, cols as nat),
{
    let mut out = String::new();
    let mut col: u16 = 0;
    while col < cols
        invariant
            col <= cols,
            out@ == state::cells(row as int, col as nat),
        decreases cols - col,
    {
        match placeholder_cell(row, col as usize) {
            Some(cell) => out.push_str(cell.as_str()),
            None => {},
        }
        col = col + 1;
    }
    out
}

impl<'a> Renderer<'a> {
    /// A render with nothing in it yet.
    pub fn new(hl: &'a Highlighter, opts: &RenderOpts) -> (r: Renderer<'a>)
        ensures
            r@ == state::initial(opts@, hl.syntax_set(), hl.color_theme()),
    {
        let mut styles: Vec<Style> = Vec::new();
        styles.push(Style::default());
        let base = match &opts.base {
            Some(b) => Some(b.clone()),
            None => None,
        };
        let r = Renderer {
            hl,
            width: if opts.width < 20 {
                20
            } else {
                opts.width
            },
            base,
            image_mode: opts.image_mode,
            diagrams: opts.diagrams,
            resolve_links: opts.resolve_links,
            theme: opts.theme,
            images: Vec::new(),
            lines: Vec::new(),
            headings: Vec::new(),
            inline: Vec::new(),
            styles,
            prefixes: Vec::new(),
            list_stack: Vec::new(),
            table: None,
            code: None,
            image: None,
            asked: None,
            at_item_start: false,
        };
        assert(r@ =~= state::initial(opts@, hl.syntax_set(), hl.color_theme()));
        r
    }

    pub(crate) fn cur_style(&self) -> (r: Style)
        ensures
            r@ == self@.cur_style(),
    {
        let n: usize = self.styles.len();
        if n > 0 {
            self.styles[n - 1].clone()
        } else {
            Style::default()
        }
    }

    pub(crate) fn avail(&self) -> (r: usize)
        ensures
            r == self@.avail(),
            r >= 10,
    {
        let ghost ps = self@.prefixes;
        let mut used: u128 = 0;
        let mut i: usize = 0;
        assert(ps.take(0) =~= seq![]);
        while i < self.prefixes.len()
            invariant
                i <= self.prefixes@.len(),
                ps == strings::views(self.prefixes@),
                used == state::rest_width(ps.take(i as int)),
                used <= i * 0xffff_ffff_ffff_ffff,
            decreases self.prefixes@.len() - i,
        {
            assert(ps.take(i + 1).drop_last() =~= ps.take(i as int));
            let w: usize = measure(self.prefixes[i].rest.as_str());
            used = used + w as u128;
            i = i + 1;
        }
        assert(ps.take(i as int) =~= ps);
        assert(self.prefixes.len() <= usize::MAX);
        if used + 10 < self.width as u128 {
            self.width - used as usize
        } else {
            10
        }
    }

    /// Emits one physical line, prepending the active prefixes.
    pub(crate) fn push_line(&mut self, content: Vec<Span>)
        ensures
            final(self)@ == old(self)@.push_line(strings::views(content@)),
    {
        let ghost old_state = self@;
        let ghost ps = self@.prefixes;
        let ghost hs = state::heads(ps);
        let mut line = Line::default();
        let mut i: usize = 0;
        assert(hs.take(0) =~= seq![]);
        while i < self.prefixes.len()
            invariant
                i <= self.prefixes@.len(),
                ps.len() == self.prefixes@.len(),
                ps == old_state.prefixes,
                hs == state::heads(ps),
                line@ == text::push_spans(seq![], hs.take(i as int)),
                strings::views(self.prefixes@) =~= state::begun(ps).take(i as int) + ps.skip(
                    i as int,
                ),
                self@ == (State { prefixes: strings::views(self.prefixes@), ..old_state }),
            decreases self.prefixes@.len() - i,
        {
            assert(hs.take(i + 1).drop_last() =~= hs.take(i as int));
            assert(strings::views(self.prefixes@)[i as int] == ps[i as int]);
            assert(self.prefixes@[i as int]@ == ps[i as int]);
            let head = if self.prefixes[i].first_done {
                self.prefixes[i].rest.clone()
            } else {
                self.prefixes[i].first.clone()
            };
            let style = self.prefixes[i].style.clone();
            line.push(Span { text: head, style });
            self.prefixes[i].first_done = true;
            assert(self.prefixes@[i as int]@ == state::begun(ps)[i as int]);
            i = i + 1;
        }
        assert(hs.take(i as int) =~= hs);
        line.push_all(content);
        self.lines.push(line);
        assert(strings::views(self.prefixes@) =~= state::begun(ps));
        assert(self@ =~= old_state.push_line(strings::views(content@)));
    }

    pub(crate) fn push_lines(&mut self, lines: Vec<Vec<Span>>)
        ensures
            final(self)@ == old(self)@.push_lines(strings::views2(lines@)),
    {
        let ghost start = self@;
        let ghost ls = strings::views2(lines@);
        let mut i: usize = 0;
        assert(ls.take(0) =~= seq![]);
        while i < lines.len()
            invariant
                i <= lines@.len(),
                ls == strings::views2(lines@),
                self@ == start.push_lines(ls.take(i as int)),
            decreases lines@.len() - i,
        {
            assert(ls.take(i + 1).drop_last() =~= ls.take(i as int));
            self.push_line(text::clone_spans(&lines[i]));
            i = i + 1;
        }
        assert(ls.take(i as int) =~= ls);
    }

    pub(crate) fn ensure_blank(&mut self)
        ensures
            final(self)@ == old(self)@.ensure_blank(),
    {
        let n: usize = self.lines.len();
        if n == 0 {
            return ;
        }
        let plain = self.lines[n - 1].plain();
        // Already blank: empty, or only (possibly nested) quote bars.
        if barren_text(plain.as_str()) {
            return ;
        }
        let ghost ps = self@.prefixes;
        let mut line = Line::default();
        let mut i: usize = 0;
        assert(ps.take(0) =~= seq![]);
        while i < self.prefixes.len()
            invariant
                i <= self.prefixes@.len(),
                ps == strings::views(self.prefixes@),
                line@ == text::push_spans(seq![], state::blank_heads(ps.take(i as int))),
            decreases self.prefixes@.len() - i,
        {
            assert(ps.take(i + 1).drop_last() =~= ps.take(i as int));
            let p = &self.prefixes[i];
            if p.first_done {
                let ghost before = state::blank_heads(ps.take(i as int));
                let span = Span { text: p.rest.clone(), style: p.style.clone() };
                assert(before.push(span@).drop_last() =~= before);
                line.push(span);
            }
            i = i + 1;
        }
        assert(ps.take(i as int) =~= ps);
        self.lines.push(line);
        assert(self@ =~= old(self)@.ensure_blank());
    }

    pub(crate) fn flush_inline(&mut self)
        ensures
            final(self)@ == old(self)@.flush_inline(),
            rewrap::plain_ascii(old(self)@.inline) ==> wrap::wrapped(
                old(self)@.inline,
                old(self)@.avail(),
            ) == rewrap::ascii_wrapped(old(self)@.inline, old(self)@.avail()),
    {
        proof {
            reveal(State::flush_inline);
        }
        if self.inline.len() == 0 {
            assert(wrap::tokens(self@.inline) =~= seq![]);
            return ;
        }
        let avail: usize = self.avail();
        let lines = wrap_spans(self.inline.as_slice(), avail);
        self.inline = Vec::new();
        assert(self@ =~= State { inline: seq![], ..old(self)@ });
        self.push_lines(lines);
    }

    /// Marks the start of a block element: flushes pending inline content and
    /// inserts a separating blank line unless we just opened a list item.
    pub(crate) fn block_start(&mut self)
        ensures
            final(self)@ == old(self)@.block_start(),
    {
        self.flush_inline();
        if self.at_item_start {
            self.at_item_start = false;
            assert(self@ =~= old(self)@.block_start());
        } else {
            self.ensure_blank();
        }
    }

    pub(crate) fn push_inline(&mut self, text: String, style: Style)
        ensures
            final(self)@ == old(self)@.push_inline(text@, style@),
    {
        self.inline.push(Span { text, style });
        assert(self@ =~= old(self)@.push_inline(text@, style@));
    }

    pub(crate) fn push_style(&mut self, style: Style)
        ensures
            final(self)@ == old(self)@.push_style(style@),
    {
        self.styles.push(style);
        assert(self@ =~= old(self)@.push_style(style@));
    }

    pub(crate) fn pop_style(&mut self)
        ensures
            final(self)@ == (State { styles: state::popped(old(self)@.styles), ..old(self)@ }),
    {
        let ghost before = self.styles@;
        let _ = self.styles.pop();
        assert(before.len() > 0 ==> strings::views(self.styles@) =~= strings::views(
            before,
        ).drop_last());
        assert(self@ =~= State { styles: state::popped(old(self)@.styles), ..old(self)@ });
    }

    pub(crate) fn push_marker(&mut self, marker: String)
        ensures
            final(self)@ == old(self)@.push_marker(marker@),
    {
        let w: usize = measure(marker.as_str());
        let rest = repeat(' ', w);
        self.prefixes.push(
            Prefix {
                first: marker,
                rest,
                style: Style::default().fg(Color::DarkCyan),
                first_done: false,
            },
        );
        self.at_item_start = true;
        assert(self@ =~= old(self)@.push_marker(marker@));
    }

    pub(crate) fn pop_prefix(&mut self)
        ensures
            final(self)@ == old(self)@.pop_prefix(),
    {
        self.flush_inline();
        let ghost before = self.prefixes@;
        let _ = self.prefixes.pop();
        assert(before.len() > 0 ==> strings::views(self.prefixes@) =~= strings::views(
            before,
        ).drop_last());
        assert(self@ =~= old(self)@.pop_prefix());
    }
}

} // verus!
