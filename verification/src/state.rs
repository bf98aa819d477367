//! What rendering does, event by event, on mathematical values.

use vstd::prelude::*;
use crate::diagram;
use crate::diagram::RequestView;
use crate::event;
use crate::event::{EventView, TagView};
use crate::highlight;
use crate::images;
use crate::prose;
use crate::kitty;
use crate::numbers;
use crate::paths;
use crate::strings;
use crate::table;
use crate::table::TableView;
use crate::text;
use crate::text::{Color, SpanView, StyleView};
use crate::width;
use crate::wrap;
use std::collections::hash_map::DefaultHasher;
use vstd::bytes;
use vstd::std_specs::hash::DefaultHasherAdditionalSpecFns;

verus! {

/// Tallest an inline image renders, in terminal rows.
pub const MAX_IMAGE_ROWS: u16 = 24;

/// The bar that marks quoted text.
pub const QUOTE_BAR: char = '▎';

/// How images are drawn.
#[derive(Clone, Copy, Debug, PartialEq, Eq, Structural)]
pub enum ImageMode {
    /// No graphics: images render as "🖼 alt" hyperlinks.
    Off,
    /// Kitty graphics protocol (Unicode placeholders), with the terminal's
    /// cell size in pixels for scaling.
    Kitty { cell_w: u16, cell_h: u16 },
}

/// The terminal's background disposition; drives every hard-coded color.
#[derive(Clone, Copy, Debug, PartialEq, Eq, Structural)]
pub enum TermTheme {
    Dark,
    Light,
}

/// An image queued for transmission.
#[verifier::ext_equal]
pub struct ImageView {
    pub id: u32,
    pub png: Seq<u8>,
    pub cols: u16,
    pub rows: u16,
}

/// A heading: the line it is on, its level and its text.
#[verifier::ext_equal]
pub struct HeadingView {
    pub line: nat,
    pub level: u8,
    pub text: Seq<char>,
}

/// What stands in front of the lines of a block: once `first`, then `rest`.
#[verifier::ext_equal]
pub struct PrefixView {
    pub first: Seq<char>,
    pub rest: Seq<char>,
    pub style: StyleView,
    pub first_done: bool,
}

/// A block of code as it is collected.
#[verifier::ext_equal]
pub struct CodeView {
    pub lang: Seq<char>,
    pub buf: Seq<char>,
}

/// The target and alt text of an image as it is collected.
#[verifier::ext_equal]
pub struct CaptureView {
    pub url: Seq<char>,
    pub alt: Seq<char>,
}

/// A picture with the cell grid it is to fill.
#[verifier::ext_equal]
pub struct PictureView {
    pub png: Seq<u8>,
    pub cols: u16,
    pub rows: u16,
}

/// What rendering waits for a picture for.
pub enum AskView {
    Image(CaptureView),
    Code(CodeView),
}

/// What rendering asks for: the picture in a file, or a diagram, with the
/// columns there are for it.
pub enum WantView {
    File(Seq<char>, nat),
    Diagram(RequestView, nat),
}

/// Everything that shapes a render besides the source itself.
pub struct OptsView {
    pub width: usize,
    pub base: Option<Seq<char>>,
    pub image_mode: ImageMode,
    pub diagrams: bool,
    pub resolve_links: bool,
    pub theme: TermTheme,
}

/// A rendered document.
#[verifier::ext_equal]
pub struct DocumentView {
    pub lines: Seq<Seq<SpanView>>,
    pub headings: Seq<HeadingView>,
    pub images: Seq<ImageView>,
}

/// The state of a render between two events.
#[verifier::ext_equal]
pub struct State {
    pub width: usize,
    pub base: Option<Seq<char>>,
    pub image_mode: ImageMode,
    pub diagrams: bool,
    pub resolve_links: bool,
    pub theme: TermTheme,
    pub syntaxes: syntect::parsing::SyntaxSet,
    pub palette: syntect::highlighting::Theme,
    pub images: Seq<ImageView>,
    pub lines: Seq<Seq<SpanView>>,
    pub headings: Seq<HeadingView>,
    pub inline: Seq<SpanView>,
    pub styles: Seq<StyleView>,
    pub prefixes: Seq<PrefixView>,
    pub list_stack: Seq<Option<u64>>,
    pub table: Option<TableView>,
    pub code: Option<CodeView>,
    pub image: Option<CaptureView>,
    pub asked: Option<AskView>,
    pub at_item_start: bool,
}

/// The state before the first event.
pub open spec fn initial(
    opts: OptsView,
    syntaxes: syntect::parsing::SyntaxSet,
    palette: syntect::highlighting::Theme,
) -> State {
    State {
        width: if opts.width < 20 {
            20
        } else {
            opts.width
        },
        base: opts.base,
        image_mode: opts.image_mode,
        diagrams: opts.diagrams,
        resolve_links: opts.resolve_links,
        theme: opts.theme,
        syntaxes,
        palette,
        images: seq![],
        lines: seq![],
        headings: seq![],
        inline: seq![],
        styles: seq![text::plain_style()],
        prefixes: seq![],
        list_stack: seq![],
        table: None,
        code: None,
        image: None,
        asked: None,
        at_item_start: false,
    }
}

/// Plain text in a color.
pub open spec fn colored(color: Color) -> StyleView {
    StyleView { fg: Some(color), ..text::plain_style() }
}

/// The color of links: an explicit RGB blue, so that it reads as a link
/// regardless of how the terminal palette tints ANSI bright-blue.
pub open spec fn link_color(theme: TermTheme) -> Color {
    match theme {
        TermTheme::Dark => Color::Rgb { r: 0x5f, g: 0xaf, b: 0xff },
        TermTheme::Light => Color::Rgb { r: 0x09, g: 0x69, b: 0xda },
    }
}

/// The style of a heading of a level.
pub open spec fn heading_style(level: u8, theme: TermTheme) -> StyleView {
    let color = if level == 1 {
        Color::Magenta
    } else if level == 2 {
        Color::Cyan
    } else if level == 3 {
        Color::Blue
    } else if level == 4 {
        Color::Green
    } else if level == 5 {
        Color::Yellow
    } else if theme == TermTheme::Dark {
        Color::White
    } else {
        Color::Black
    };
    StyleView { bold: true, ..colored(color) }
}

/// The color of a quote and the title it opens with.
pub open spec fn quote_look(kind: Option<pulldown_cmark::BlockQuoteKind>) -> (
    Color,
    Option<Seq<char>>,
) {
    match kind {
        Some(pulldown_cmark::BlockQuoteKind::Note) => (Color::Blue, Some("ℹ️ Note"@)),
        Some(pulldown_cmark::BlockQuoteKind::Tip) => (Color::Green, Some("💡 Tip"@)),
        Some(pulldown_cmark::BlockQuoteKind::Important) => (
            Color::Magenta,
            Some("📢 Important"@),
        ),
        Some(pulldown_cmark::BlockQuoteKind::Warning) => (Color::Yellow, Some("🚨 Warning"@)),
        Some(pulldown_cmark::BlockQuoteKind::Caution) => (Color::Red, Some("🛑 Caution"@)),
        None => (Color::DarkGreen, None),
    }
}

/// The columns that prefixes take in front of a line, once their first lines
/// are through.
pub open spec fn rest_width(prefixes: Seq<PrefixView>) -> nat
    decreases prefixes.len(),
{
    if prefixes.len() == 0 {
        0
    } else {
        rest_width(prefixes.drop_last()) + width::str_width(prefixes.last().rest) as nat
    }
}

/// What prefixes put in front of the next line.
pub open spec fn heads(prefixes: Seq<PrefixView>) -> Seq<SpanView> {
    prefixes.map_values(
        |p: PrefixView|
            SpanView {
                text: if p.first_done {
                    p.rest
                } else {
                    p.first
                },
                style: p.style,
            },
    )
}

/// Prefixes whose first lines are through.
pub open spec fn begun(prefixes: Seq<PrefixView>) -> Seq<PrefixView> {
    prefixes.map_values(|p: PrefixView| PrefixView { first_done: true, ..p })
}

/// What prefixes put in front of a blank line: only those that have begun do.
pub open spec fn blank_heads(prefixes: Seq<PrefixView>) -> Seq<SpanView>
    decreases prefixes.len(),
{
    if prefixes.len() == 0 {
        seq![]
    } else {
        let p = prefixes.last();
        let before = blank_heads(prefixes.drop_last());
        if p.first_done {
            before.push(SpanView { text: p.rest, style: p.style })
        } else {
            before
        }
    }
}

/// Whether text is blank but for (possibly nested) quote bars.
pub open spec fn barren(s: Seq<char>) -> bool {
    forall|i: int|
        0 <= i < s.len() ==> strings::is_white(#[trigger] s[i]) || s[i] == QUOTE_BAR
}

/// A sequence without its last element, if it has one.
pub open spec fn popped<T>(s: Seq<T>) -> Seq<T> {
    if s.len() > 0 {
        s.drop_last()
    } else {
        s
    }
}

/// The marker of an item in a list that is `depth` lists deep.
pub open spec fn bullet(depth: nat) -> Seq<char> {
    let i = if depth > 0 {
        (depth - 1) % 3
    } else {
        0
    };
    if i == 0 {
        "• "@
    } else if i == 1 {
        "◦ "@
    } else {
        "▪ "@
    }
}

/// The marker of the next item of the innermost list.
pub open spec fn marker(lists: Seq<Option<u64>>) -> Seq<char> {
    if lists.len() > 0 && lists.last() is Some {
        numbers::decimal_text(lists.last()->0 as nat) + ". "@
    } else {
        bullet(lists.len())
    }
}

/// The lists once the innermost one has given out a marker.
pub open spec fn numbered(lists: Seq<Option<u64>>) -> Seq<Option<u64>> {
    if lists.len() > 0 && lists.last() is Some {
        let n = lists.last()->0;
        let next = if n == u64::MAX {
            0
        } else {
            (n + 1) as u64
        };
        lists.drop_last().push(Some(next))
    } else {
        lists
    }
}

/// The id of an image: it depends on the content alone, and is a nonzero number
/// of 24 bits.
pub open spec fn image_id(png: Seq<u8>) -> u32 {
    let h = DefaultHasher::spec_finish(
        seq![bytes::spec_u64_to_le_bytes(png.len() as u64), png],
    );
    (h % 0xff_fffe + 1) as u32
}

/// The cells of a size that pixels reach into.
pub open spec fn cells_for(pixels: u32, cell: u16) -> nat {
    let c: int = if cell < 1 {
        1
    } else {
        cell as int
    };
    ((pixels + c - 1) / c) as nat
}

/// A number of cells within one and a limit.
pub open spec fn held(n: u16, limit: nat) -> u16 {
    if n < 1 || limit < 1 {
        1
    } else if n > limit {
        limit as u16
    } else {
        n
    }
}

/// The smaller of two numbers.
pub open spec fn least(a: nat, b: nat) -> nat {
    if a < b {
        a
    } else {
        b
    }
}

/// The cell grid of a picture of a size in pixels: the one that is asked for, as
/// far as it is within the columns there are, the height cap, and the cells that
/// the picture reaches into at its own size.
pub open spec fn picture_grid(p: PictureView, size: (u32, u32), cell: (u16, u16), avail: nat) -> (
    u16,
    u16,
) {
    (
        held(p.cols, least(avail, cells_for(size.0, cell.0))),
        held(p.rows, least(MAX_IMAGE_ROWS as nat, cells_for(size.1, cell.1))),
    )
}

/// The style that carries an image id: it travels in the 24-bit foreground
/// color.
pub open spec fn id_style(id: u32) -> StyleView {
    colored(
        Color::Rgb {
            r: ((id >> 16) & 0xff) as u8,
            g: ((id >> 8) & 0xff) as u8,
            b: (id & 0xff) as u8,
        },
    )
}

/// The first `n` placeholder cells of a row, as far as cells can be told apart.
pub open spec fn cells(row: int, n: nat) -> Seq<char>
    decreases n,
{
    if n == 0 || row >= 297 {
        seq![]
    } else if n > 297 {
        cells(row, (n - 1) as nat)
    } else {
        cells(row, (n - 1) as nat) + kitty::cell(row, n - 1)
    }
}

/// The lines of an image's cell grid.
pub open spec fn grid(id: u32, cols: u16, rows: u16) -> Seq<Seq<SpanView>> {
    Seq::new(
        rows as nat,
        |row: int| seq![SpanView { text: cells(row, cols as nat), style: id_style(id) }],
    )
}

/// Whether code in a language can be drawn as a diagram.
pub open spec fn drawable(lang: Seq<char>) -> bool {
    lang == "mermaid"@ || lang == "latex"@ || lang == "tex"@ || lang == "math"@ || lang
        == "katex"@
}

/// What to fetch for a block of code that can be drawn.
pub open spec fn diagram_request(code: CodeView, theme: TermTheme) -> RequestView {
    let dark = theme == TermTheme::Dark;
    if code.lang == "mermaid"@ {
        diagram::mermaid_request_view(code.buf, dark)
    } else {
        diagram::latex_request_view(code.buf, dark)
    }
}

/// Where the first image with an id stands.
pub open spec fn image_at(images: Seq<ImageView>, id: u32, from: int) -> int
    decreases images.len() - from,
{
    if from >= images.len() || images[from].id == id {
        from
    } else {
        image_at(images, id, from + 1)
    }
}

/// Lines without the blank ones at their end.
pub open spec fn without_blank_end(lines: Seq<Seq<SpanView>>) -> Seq<Seq<SpanView>>
    decreases lines.len(),
{
    if lines.len() > 0 && strings::all_white(text::line_text(lines.last())) {
        without_blank_end(lines.drop_last())
    } else {
        lines
    }
}

impl State {
    pub open spec fn cur_style(self) -> StyleView {
        if self.styles.len() > 0 {
            self.styles.last()
        } else {
            text::plain_style()
        }
    }

    /// The columns there are for content, ten at least.
    pub open spec fn avail(self) -> nat {
        let used = rest_width(self.prefixes);
        if used + 10 < self.width {
            (self.width - used) as nat
        } else {
            10
        }
    }

    /// One more line, behind the active prefixes.
    pub open spec fn push_line(self, content: Seq<SpanView>) -> State {
        State {
            lines: self.lines.push(
                text::push_spans(text::push_spans(seq![], heads(self.prefixes)), content),
            ),
            prefixes: begun(self.prefixes),
            ..self
        }
    }

    pub open spec fn push_lines(self, lines: Seq<Seq<SpanView>>) -> State
        decreases lines.len(),
    {
        if lines.len() == 0 {
            self
        } else {
            self.push_lines(lines.drop_last()).push_line(lines.last())
        }
    }

    /// A blank line, unless there is one or nothing to part from.
    pub open spec fn ensure_blank(self) -> State {
        if self.lines.len() == 0 || barren(text::line_text(self.lines.last())) {
            self
        } else {
            State {
                lines: self.lines.push(text::push_spans(seq![], blank_heads(self.prefixes))),
                ..self
            }
        }
    }

    /// Pending inline content, wrapped.
    #[verifier::opaque]
    pub open spec fn flush_inline(self) -> State {
        if self.inline.len() == 0 {
            self
        } else {
            State { inline: seq![], ..self }.push_lines(wrap::wrapped(self.inline, self.avail()))
        }
    }

    /// The start of a block: pending inline content is flushed, and a blank line
    /// parts it from what came before unless an item has just been opened.
    pub open spec fn block_start(self) -> State {
        let s = self.flush_inline();
        if s.at_item_start {
            State { at_item_start: false, ..s }
        } else {
            s.ensure_blank()
        }
    }

    pub open spec fn push_inline(self, text: Seq<char>, style: StyleView) -> State {
        State { inline: self.inline.push(SpanView { text, style }), ..self }
    }

    pub open spec fn push_style(self, style: StyleView) -> State {
        State { styles: self.styles.push(style), ..self }
    }

    pub open spec fn push_prefix(self, prefix: PrefixView) -> State {
        State { prefixes: self.prefixes.push(prefix), ..self }
    }

    /// A marker in front of the next line, and blanks below it.
    pub open spec fn push_marker(self, marker: Seq<char>) -> State {
        State {
            at_item_start: true,
            ..self.push_prefix(
                PrefixView {
                    first: marker,
                    rest: strings::copies(' ', width::str_width(marker) as nat),
                    style: colored(Color::DarkCyan),
                    first_done: false,
                },
            )
        }
    }

    /// The end of a block with a prefix.
    pub open spec fn pop_prefix(self) -> State {
        let s = self.flush_inline();
        State { prefixes: popped(s.prefixes), ..s }
    }

    /// A picture queued for transmission, and the id and grid it is shown by;
    /// nothing without graphics support, or where it is no picture. The same
    /// content twice is one image, in the grid it came in first.
    pub open spec fn queue(self, p: PictureView) -> Option<(State, u32, u16, u16)> {
        match (self.image_mode, images::size_of(p.png)) {
            (ImageMode::Kitty { cell_w, cell_h }, Some(size)) => {
                let id = image_id(p.png);
                let i = image_at(self.images, id, 0);
                if i < self.images.len() {
                    Some((self, id, self.images[i].cols, self.images[i].rows))
                } else {
                    let (cols, rows) = picture_grid(p, size, (cell_w, cell_h), self.avail());
                    let image = ImageView { id, png: p.png, cols, rows };
                    Some((State { images: self.images.push(image), ..self }, id, cols, rows))
                }
            },
            _ => None,
        }
    }

    /// What is made of an answer: the picture queued, where it is one.
    pub open spec fn queue_answer(self, picture: Option<PictureView>) -> Option<
        (State, u32, u16, u16),
    > {
        match picture {
            Some(p) => self.queue(p),
            None => None,
        }
    }

    /// An image: its cell grid and a caption where there is a picture, and a
    /// link otherwise.
    pub open spec fn emit_image(self, cap: CaptureView, picture: Option<PictureView>) -> State {
        let alt = prose::replaced(prose::expanded(cap.alt));
        match self.queue_answer(picture) {
            Some((s, id, cols, rows)) => {
                let caption = StyleView {
                    dim: true,
                    link: Some(cap.url),
                    ..text::plain_style()
                };
                let shown = if alt.len() == 0 {
                    "image"@
                } else {
                    alt
                };
                s.flush_inline().push_lines(grid(id, cols, rows)).push_line(
                    seq![SpanView { text: "🖼 "@ + shown, style: caption }],
                )
            },
            None => {
                let style = StyleView {
                    fg: Some(link_color(self.theme)),
                    underline: true,
                    link: Some(cap.url),
                    ..self.cur_style()
                };
                self.push_inline("🖼 "@ + alt, style)
            },
        }
    }

    /// A block of code: the cell grid of its diagram where there is a picture,
    /// and the highlighted code otherwise.
    pub open spec fn emit_code(self, code: CodeView, picture: Option<PictureView>) -> State {
        match self.queue_answer(picture) {
            Some((s, id, cols, rows)) => s.push_lines(grid(id, cols, rows)),
            None => self.push_lines(
                highlight::code_lines(self.syntaxes, self.palette, code.lang, code.buf),
            ),
        }
    }

    /// The answer to what was asked for last.
    pub open spec fn answer(self, picture: Option<PictureView>) -> State {
        let s = State { asked: None, ..self };
        match self.asked {
            Some(AskView::Image(cap)) => s.emit_image(cap, picture),
            Some(AskView::Code(code)) => s.emit_code(code, picture),
            None => self,
        }
    }

    /// The file that holds the picture of an image: a local one, where there is
    /// graphics support.
    pub open spec fn picture_file(self, url: Seq<char>) -> Option<Seq<char>> {
        if self.image_mode is Off || strings::has_part(url, "://"@) {
            None
        } else if paths::is_absolute(url) {
            Some(url)
        } else {
            match self.base {
                Some(b) => Some(paths::joined(b, url)),
                None => None,
            }
        }
    }

    /// An image whose alt text is complete.
    pub open spec fn image_done(self, cap: CaptureView) -> (State, Option<WantView>) {
        let s = State { image: None, ..self };
        match self.picture_file(cap.url) {
            Some(path) => (
                State { asked: Some(AskView::Image(cap)), ..s },
                Some(WantView::File(path, self.avail())),
            ),
            None => (s.emit_image(cap, None), None),
        }
    }

    /// A block of code that is complete.
    pub open spec fn code_done(self, code: CodeView) -> (State, Option<WantView>) {
        let s = State { code: None, ..self };
        if self.diagrams && !(self.image_mode is Off) && drawable(code.lang) {
            (
                State { asked: Some(AskView::Code(code)), ..s },
                Some(WantView::Diagram(diagram_request(code, self.theme), self.avail())),
            )
        } else {
            (s.emit_code(code, None), None)
        }
    }

    #[verifier::opaque]
    pub open spec fn start_tag(self, tag: TagView) -> State {
        match tag {
            TagView::Paragraph => self.block_start(),
            TagView::Heading(level) => self.block_start().push_style(
                heading_style(level, self.theme),
            ),
            TagView::BlockQuote(kind) => {
                let (color, title) = quote_look(kind);
                let s = self.block_start().push_prefix(
                    PrefixView {
                        first: "▎ "@,
                        rest: "▎ "@,
                        style: colored(color),
                        first_done: true,
                    },
                );
                match title {
                    Some(t) => State {
                        at_item_start: true,
                        ..s.push_line(
                            seq![
                                SpanView {
                                    text: t,
                                    style: StyleView { bold: true, ..colored(color) },
                                },
                            ],
                        )
                    },
                    None => s,
                }
            },
            TagView::CodeBlock(info) => State {
                code: Some(
                    CodeView {
                        lang: match info {
                            Some(i) => strings::first_word(i),
                            None => seq![],
                        },
                        buf: seq![],
                    },
                ),
                ..self.block_start()
            },
            TagView::List(start) => {
                let s = self.flush_inline();
                let t = if s.at_item_start || s.list_stack.len() > 0 {
                    State { at_item_start: false, ..s }
                } else {
                    s.ensure_blank()
                };
                State { list_stack: t.list_stack.push(start), ..t }
            },
            TagView::Item => {
                let s = self.flush_inline();
                State { list_stack: numbered(s.list_stack), ..s }.push_marker(
                    marker(s.list_stack),
                )
            },
            TagView::Table(aligns) => State {
                table: Some(
                    TableView {
                        aligns,
                        head: seq![],
                        rows: seq![],
                        cur_row: seq![],
                        in_head: false,
                    },
                ),
                ..self.block_start()
            },
            TagView::TableHead => match self.table {
                Some(t) => State {
                    table: Some(TableView { in_head: true, cur_row: seq![], ..t }),
                    ..self
                },
                None => self,
            },
            TagView::TableRow => match self.table {
                Some(t) => State { table: Some(TableView { cur_row: seq![], ..t }), ..self },
                None => self,
            },
            TagView::TableCell => State { inline: seq![], ..self },
            TagView::Emphasis => self.push_style(StyleView { italic: true, ..self.cur_style() }),
            TagView::Strong => self.push_style(StyleView { bold: true, ..self.cur_style() }),
            TagView::Strikethrough => self.push_style(
                StyleView { strikethrough: true, ..self.cur_style() },
            ),
            TagView::Link(dest) => self.push_style(
                StyleView {
                    fg: Some(link_color(self.theme)),
                    underline: true,
                    link: prose::resolved(dest, self.base, self.resolve_links),
                    ..self.cur_style()
                },
            ),
            TagView::Image(url) => State {
                image: Some(CaptureView { url, alt: seq![] }),
                ..self
            },
            TagView::FootnoteDefinition(name) => self.block_start().push_marker(
                "[^"@ + name + "] "@,
            ),
            TagView::HtmlBlock => self.block_start(),
            TagView::Other => self,
        }
    }

    /// The end of a heading: its text is listed, and a rule goes below the upper
    /// two levels.
    pub open spec fn end_heading(self, level: u8) -> State {
        let text = text::line_text(self.inline);
        let s = self.flush_inline();
        let t = State {
            styles: popped(s.styles),
            headings: s.headings.push(HeadingView { line: self.lines.len(), level, text }),
            ..s
        };
        if level <= 2 {
            let w = width::str_width(text) as nat;
            let n = if w < 1 {
                1
            } else if w > t.avail() {
                t.avail()
            } else {
                w
            };
            let ch = if level == 1 {
                '━'
            } else {
                '─'
            };
            let style = StyleView {
                bold: false,
                dim: level == 2,
                ..heading_style(level, self.theme)
            };
            t.push_line(seq![SpanView { text: strings::copies(ch, n), style }])
        } else {
            t
        }
    }

    pub open spec fn end_table(self) -> State {
        match self.table {
            Some(t) => {
                let s = State { table: None, ..self };
                s.push_lines(table::table_lines(t, s.avail()))
            },
            None => self,
        }
    }

    #[verifier::opaque]
    pub open spec fn end_tag(self, tag: pulldown_cmark::TagEnd) -> State {
        match tag {
            pulldown_cmark::TagEnd::Paragraph => self.flush_inline(),
            pulldown_cmark::TagEnd::Heading(level) => self.end_heading(
                event::level_number(level),
            ),
            pulldown_cmark::TagEnd::BlockQuote(_) => self.pop_prefix(),
            pulldown_cmark::TagEnd::List(_) => State {
                list_stack: popped(self.list_stack),
                ..self
            },
            pulldown_cmark::TagEnd::Item => State { at_item_start: false, ..self.pop_prefix() },
            pulldown_cmark::TagEnd::Table => self.end_table(),
            pulldown_cmark::TagEnd::TableHead => match self.table {
                Some(t) => State {
                    table: Some(
                        TableView { head: t.cur_row, cur_row: seq![], in_head: false, ..t },
                    ),
                    ..self
                },
                None => self,
            },
            pulldown_cmark::TagEnd::TableRow => match self.table {
                Some(t) => State {
                    table: Some(
                        TableView { rows: t.rows.push(t.cur_row), cur_row: seq![], ..t },
                    ),
                    ..self
                },
                None => self,
            },
            pulldown_cmark::TagEnd::TableCell => State {
                inline: seq![],
                table: match self.table {
                    Some(t) => Some(TableView { cur_row: t.cur_row.push(self.inline), ..t }),
                    None => None,
                },
                ..self
            },
            pulldown_cmark::TagEnd::Emphasis => State { styles: popped(self.styles), ..self },
            pulldown_cmark::TagEnd::Strong => State { styles: popped(self.styles), ..self },
            pulldown_cmark::TagEnd::Strikethrough => State {
                styles: popped(self.styles),
                ..self
            },
            pulldown_cmark::TagEnd::Link => State { styles: popped(self.styles), ..self },
            pulldown_cmark::TagEnd::FootnoteDefinition => State {
                at_item_start: false,
                ..self.pop_prefix()
            },
            pulldown_cmark::TagEnd::HtmlBlock => self.flush_inline(),
            _ => self,
        }
    }

    /// An event outside code blocks and alt text.
    #[verifier::opaque]
    pub open spec fn plain_event(self, e: EventView) -> State {
        match e {
            EventView::Start(tag) => self.start_tag(tag),
            EventView::End(tag) => self.end_tag(tag),
            EventView::Text(t) => self.push_inline(
                prose::replaced(prose::expanded(t)),
                self.cur_style(),
            ),
            EventView::Code(t) => self.push_inline(
                prose::expanded(t),
                StyleView { fg: Some(Color::Yellow), ..self.cur_style() },
            ),
            EventView::SoftBreak => self.push_inline(" "@, self.cur_style()),
            EventView::HardBreak => self.push_inline("\n"@, self.cur_style()),
            EventView::Rule => {
                let s = self.block_start();
                s.push_line(
                    seq![
                        SpanView {
                            text: strings::copies('─', s.avail()),
                            style: colored(Color::DarkGrey),
                        },
                    ],
                )
            },
            EventView::TaskListMarker(done) => if done {
                self.push_inline("☑ "@, colored(Color::Green))
            } else {
                self.push_inline("☐ "@, colored(Color::DarkGrey))
            },
            EventView::FootnoteReference(name) => self.push_inline(
                "[^"@ + name + "]"@,
                StyleView { fg: Some(Color::DarkCyan), ..self.cur_style() },
            ),
            EventView::Html(t) => self.push_inline(
                prose::expanded(t),
                StyleView { dim: true, ..self.cur_style() },
            ),
            EventView::InlineHtml(t) => self.push_inline(
                prose::expanded(t),
                StyleView { dim: true, ..self.cur_style() },
            ),
            EventView::InlineMath(t) => self.push_inline(
                prose::expanded(t),
                StyleView { fg: Some(Color::Yellow), ..self.cur_style() },
            ),
            EventView::DisplayMath(t) => self.push_inline(
                prose::expanded(t),
                StyleView { fg: Some(Color::Yellow), ..self.cur_style() },
            ),
        }
    }

    /// An event inside a code block, which swallows raw text until it closes.
    pub open spec fn code_event(self, code: CodeView, e: EventView) -> (State, Option<WantView>) {
        match e {
            EventView::Text(t) => (
                State { code: Some(CodeView { buf: code.buf + t, ..code }), ..self },
                None,
            ),
            EventView::End(pulldown_cmark::TagEnd::CodeBlock) => self.code_done(code),
            _ => (self, None),
        }
    }

    /// An event inside an image, where inline events feed the alt text; of nested
    /// elements only the text is kept.
    pub open spec fn image_event(self, cap: CaptureView, e: EventView) -> (
        State,
        Option<WantView>,
    ) {
        let more = |t: Seq<char>|
            State { image: Some(CaptureView { alt: cap.alt + t, ..cap }), ..self };
        match e {
            EventView::Text(t) => (more(t), None),
            EventView::Code(t) => (more(t), None),
            EventView::InlineHtml(t) => (more(t), None),
            EventView::SoftBreak => (more(" "@), None),
            EventView::HardBreak => (more(" "@), None),
            EventView::End(pulldown_cmark::TagEnd::Image) => self.image_done(cap),
            _ => (self, None),
        }
    }

    /// An event, and what is asked for at it. What was asked for before and not
    /// answered is not to be had.
    pub open spec fn event(self, e: EventView) -> (State, Option<WantView>) {
        let s = self.answer(None);
        match s.code {
            Some(code) => s.code_event(code, e),
            None => match s.image {
                Some(cap) => s.image_event(cap, e),
                None => (s.plain_event(e), None),
            },
        }
    }

    /// A run of events, where nothing that is asked for can be had.
    pub open spec fn events(self, es: Seq<EventView>) -> State
        decreases es.len(),
    {
        if es.len() == 0 {
            self
        } else {
            self.events(es.drop_last()).event(es.last()).0
        }
    }

    /// The document, after the last event.
    pub open spec fn document(self) -> DocumentView {
        let s = self.answer(None).flush_inline();
        DocumentView {
            lines: without_blank_end(s.lines),
            headings: s.headings,
            images: s.images,
        }
    }
}

/// The start of an element outside code blocks and alt text.
pub proof fn starts_plainly(s: State, tag: TagView)
    ensures
        s.plain_event(EventView::Start(tag)) == s.start_tag(tag),
{
    reveal(State::plain_event);
}

/// The end of an element outside code blocks and alt text.
pub proof fn ends_plainly(s: State, tag: pulldown_cmark::TagEnd)
    ensures
        s.plain_event(EventView::End(tag)) == s.end_tag(tag),
{
    reveal(State::plain_event);
}

/// HTML is shown alike in a line and on its own, and so is math.
pub proof fn blocks_show_like_inlines(s: State, t: Seq<char>)
    ensures
        s.plain_event(EventView::InlineHtml(t)) == s.plain_event(EventView::Html(t)),
        s.plain_event(EventView::DisplayMath(t)) == s.plain_event(EventView::InlineMath(t)),
{
    reveal(State::plain_event);
}

/// What the start of an element without an operation of its own comes to.
pub proof fn start_tag_plainly(s: State, level: u8, info: Option<Seq<char>>)
    ensures
        s.start_tag(TagView::Paragraph) == s.block_start(),
        s.start_tag(TagView::HtmlBlock) == s.block_start(),
        s.start_tag(TagView::Heading(level)) == s.block_start().push_style(
            heading_style(level, s.theme),
        ),
        s.start_tag(TagView::CodeBlock(info)) == (State {
            code: Some(
                CodeView {
                    lang: match info {
                        Some(i) => strings::first_word(i),
                        None => seq![],
                    },
                    buf: seq![],
                },
            ),
            ..s.block_start()
        }),
        s.start_tag(TagView::TableCell) == (State { inline: seq![], ..s }),
        s.start_tag(TagView::Other) == s,
{
    reveal(State::start_tag);
}

/// What the end of an element without an operation of its own comes to.
pub proof fn end_tag_plainly(s: State, tag: pulldown_cmark::TagEnd)
    ensures
        tag is Paragraph || tag is HtmlBlock ==> s.end_tag(tag) == s.flush_inline(),
        tag matches pulldown_cmark::TagEnd::Heading(l) ==> s.end_tag(tag) == s.end_heading(
            event::level_number(l),
        ),
        tag is BlockQuote ==> s.end_tag(tag) == s.pop_prefix(),
        tag is List ==> s.end_tag(tag) == (State { list_stack: popped(s.list_stack), ..s }),
        tag is Item || tag is FootnoteDefinition ==> s.end_tag(tag) == (State {
            at_item_start: false,
            ..s.pop_prefix()
        }),
        tag is Table ==> s.end_tag(tag) == s.end_table(),
        tag is Emphasis || tag is Strong || tag is Strikethrough || tag is Link ==> s.end_tag(tag)
            == (State { styles: popped(s.styles), ..s }),
        tag is CodeBlock || tag is DefinitionList || tag is DefinitionListTitle
            || tag is DefinitionListDefinition || tag is Superscript || tag is Subscript
            || tag is Image || tag is MetadataBlock ==> s.end_tag(tag) == s,
{
    reveal(State::end_tag);
}

} // verus!
