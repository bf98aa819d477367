//! The start and the end of elements.

use vstd::prelude::*;
use super::{heading_style, CodeState, Heading, ImageCapture, Prefix, Renderer};
use crate::event;
use crate::event::{aligns_of, heading_level, text_of};
use crate::numbers::decimal;
use crate::prose::resolve_link;
use crate::state;
use crate::state::{CodeView, HeadingView, State};
use crate::strings;
use crate::strings::{leading_word, one, repeat};
use crate::table;
use crate::table::{lay_out, Table};
use crate::text;
use crate::text::{Color, Line, Span, SpanView, Style, StyleView};
use crate::width::measure;

verus! {

broadcast use strings::group_views;

impl<'a> Renderer<'a> {
    pub(crate) fn start_quote(&mut self, kind: Option<pulldown_cmark::BlockQuoteKind>)
        ensures
            final(self)@ == old(self)@.start_tag(event::TagView::BlockQuote(kind)),
    {
        proof {
            reveal(State::start_tag);
        }
        self.block_start();
        let ghost begun = self@;
        // Mostly emoji from U+1F3xx+ (unambiguously wide) so column
        // accounting matches what terminals draw; ℹ️ is ambiguous-width
        // but sits at the start of a short title line where a one-cell
        // miscount cannot affect wrapping.
        let (color, title) = match kind {
            Some(pulldown_cmark::BlockQuoteKind::Note) => (Color::Blue, Some("ℹ️ Note")),
            Some(pulldown_cmark::BlockQuoteKind::Tip) => (Color::Green, Some("💡 Tip")),
            Some(pulldown_cmark::BlockQuoteKind::Important) => (
                Color::Magenta,
                Some("📢 Important"),
            ),
            Some(pulldown_cmark::BlockQuoteKind::Warning) => (Color::Yellow, Some("🚨 Warning")),
            Some(pulldown_cmark::BlockQuoteKind::Caution) => (Color::Red, Some("🛑 Caution")),
            None => (Color::DarkGreen, None),
        };
        let prefix = Prefix {
            first: "▎ ".to_owned(),
            rest: "▎ ".to_owned(),
            style: Style::default().fg(color),
            first_done: true,
        };
        let ghost pv = prefix@;
        self.prefixes.push(prefix);
        assert(self@ =~= begun.push_prefix(pv));
        if let Some(t) = title {
            let line = one(Span::new(t, Style::default().fg(color).bold()));
            let ghost want = StyleView { bold: true, ..state::colored(color) };
            assert(strings::views(line@) =~= seq![SpanView { text: t@, style: want }]);
            let ghost quoted = self@;
            self.push_line(line);
            // Content follows directly under the title, no blank line.
            self.at_item_start = true;
            assert(self@ =~= State {
                at_item_start: true,
                ..quoted.push_line(seq![SpanView { text: t@, style: want }])
            });
        }
    }

    pub(crate) fn start_list(&mut self, start: Option<u64>)
        ensures
            final(self)@ == old(self)@.start_tag(event::TagView::List(start)),
    {
        proof {
            reveal(State::start_tag);
        }
        self.flush_inline();
        if self.list_stack.len() == 0 && !self.at_item_start {
            self.ensure_blank();
        } else {
            self.at_item_start = false;
        }
        self.list_stack.push(start);
        assert(self@ =~= old(self)@.start_tag(event::TagView::List(start)));
    }

    pub(crate) fn start_item(&mut self)
        ensures
            final(self)@ == old(self)@.start_tag(event::TagView::Item),
    {
        proof {
            reveal(State::start_tag);
        }
        self.flush_inline();
        let ghost flushed = self@;
        let depth: usize = self.list_stack.len();
        let number = if depth > 0 {
            self.list_stack[depth - 1]
        } else {
            None
        };
        let marker = match number {
            Some(n) => {
                let mut m = decimal(n as u128);
                m.push_str(". ");
                let next: u64 = if n == u64::MAX {
                    0
                } else {
                    n + 1
                };
                self.list_stack.set(depth - 1, Some(next));
                m
            },
            None => {
                let i: usize = if depth > 0 {
                    (depth - 1) % 3
                } else {
                    0
                };
                if i == 0 {
                    "• ".to_owned()
                } else if i == 1 {
                    "◦ ".to_owned()
                } else {
                    "▪ ".to_owned()
                }
            },
        };
        assert(self.list_stack@ =~= state::numbered(flushed.list_stack));
        assert(self@ =~= State { list_stack: state::numbered(flushed.list_stack), ..flushed });
        self.push_marker(marker);
    }

    pub(crate) fn start_code(&mut self, lang: String)
        ensures
            final(self)@ == (State {
                code: Some(CodeView { lang: lang@, buf: seq![] }),
                ..old(self)@.block_start()
            }),
    {
        self.block_start();
        self.code = Some(CodeState { lang, buf: String::new() });
        assert(self@ =~= State {
            code: Some(CodeView { lang: lang@, buf: seq![] }),
            ..old(self)@.block_start()
        });
    }

    pub(crate) fn start_table(&mut self, aligns: Vec<table::Align>)
        ensures
            final(self)@ == old(self)@.start_tag(event::TagView::Table(aligns@)),
    {
        proof {
            reveal(State::start_tag);
        }
        self.block_start();
        self.table = Some(
            Table {
                aligns,
                head: Vec::new(),
                rows: Vec::new(),
                cur_row: Vec::new(),
                in_head: false,
            },
        );
        assert(self@ =~= old(self)@.start_tag(event::TagView::Table(aligns@)));
    }

    pub(crate) fn start_row(&mut self, head: bool)
        ensures
            final(self)@ == old(self)@.start_tag(
                if head {
                    event::TagView::TableHead
                } else {
                    event::TagView::TableRow
                },
            ),
    {
        proof {
            reveal(State::start_tag);
        }
        if let Some(t) = &mut self.table {
            if head {
                t.in_head = true;
            }
            t.cur_row = Vec::new();
        }
        assert(self@ =~= old(self)@.start_tag(
            if head {
                event::TagView::TableHead
            } else {
                event::TagView::TableRow
            },
        ));
    }

    pub(crate) fn start_emphasis(&mut self)
        ensures
            final(self)@ == old(self)@.start_tag(event::TagView::Emphasis),
    {
        proof {
            reveal(State::start_tag);
        }
        let mut s = self.cur_style();
        s.italic = true;
        self.push_style(s);
    }

    pub(crate) fn start_strong(&mut self)
        ensures
            final(self)@ == old(self)@.start_tag(event::TagView::Strong),
    {
        proof {
            reveal(State::start_tag);
        }
        let mut s = self.cur_style();
        s.bold = true;
        self.push_style(s);
    }

    pub(crate) fn start_strikethrough(&mut self)
        ensures
            final(self)@ == old(self)@.start_tag(event::TagView::Strikethrough),
    {
        proof {
            reveal(State::start_tag);
        }
        let mut s = self.cur_style();
        s.strikethrough = true;
        self.push_style(s);
    }

    pub(crate) fn start_link(&mut self, dest: &str)
        ensures
            final(self)@ == old(self)@.start_tag(event::TagView::Link(dest@)),
    {
        proof {
            reveal(State::start_tag);
        }
        let mut s = self.cur_style();
        s.fg = Some(self.theme.link_color());
        s.underline = true;
        s.link = resolve_link(dest, &self.base, self.resolve_links);
        self.push_style(s);
    }

    pub(crate) fn start_image(&mut self, url: String)
        ensures
            final(self)@ == old(self)@.start_tag(event::TagView::Image(url@)),
    {
        proof {
            reveal(State::start_tag);
        }
        self.image = Some(ImageCapture { url, alt: String::new() });
        assert(self@ =~= old(self)@.start_tag(event::TagView::Image(url@)));
    }

    pub(crate) fn start_footnote(&mut self, name: &str)
        ensures
            final(self)@ == old(self)@.start_tag(event::TagView::FootnoteDefinition(name@)),
    {
        proof {
            reveal(State::start_tag);
        }
        self.block_start();
        let mut marker: String = "[^".to_owned();
        marker.push_str(name);
        marker.push_str("] ");
        self.push_marker(marker);
    }

    pub(crate) fn start_tag(&mut self, tag: pulldown_cmark::Tag<'_>)
        ensures
            final(self)@ == old(self)@.start_tag(event::tag_view(tag)),
    {
        proof {
            state::start_tag_plainly(self@, 0, None);
        }
        match tag {
            pulldown_cmark::Tag::Paragraph => self.block_start(),
            pulldown_cmark::Tag::Heading { level, .. } => {
                proof {
                    state::start_tag_plainly(self@, event::level_number(level), None);
                }
                let style = heading_style(heading_level(level), self.theme);
                self.block_start();
                self.push_style(style);
            },
            pulldown_cmark::Tag::BlockQuote(kind) => self.start_quote(kind),
            pulldown_cmark::Tag::CodeBlock(pulldown_cmark::CodeBlockKind::Fenced(info)) => {
                let info_text = text_of(&info);
                proof {
                    state::start_tag_plainly(self@, 0, Some(info_text@));
                }
                let lang = leading_word(info_text.as_str());
                self.start_code(lang);
            },
            pulldown_cmark::Tag::CodeBlock(pulldown_cmark::CodeBlockKind::Indented) => {
                let lang = String::new();
                assert(lang@ =~= seq![]);
                self.start_code(lang);
            },
            pulldown_cmark::Tag::List(start) => self.start_list(start),
            pulldown_cmark::Tag::Item => self.start_item(),
            pulldown_cmark::Tag::Table(aligns) => {
                let own = aligns_of(&aligns);
                self.start_table(own);
            },
            pulldown_cmark::Tag::TableHead => self.start_row(true),
            pulldown_cmark::Tag::TableRow => self.start_row(false),
            pulldown_cmark::Tag::TableCell => {
                self.inline = Vec::new();
                assert(self@ =~= State { inline: seq![], ..old(self)@ });
            },
            pulldown_cmark::Tag::Emphasis => self.start_emphasis(),
            pulldown_cmark::Tag::Strong => self.start_strong(),
            pulldown_cmark::Tag::Strikethrough => self.start_strikethrough(),
            pulldown_cmark::Tag::Link { dest_url, .. } => {
                let dest = text_of(&dest_url);
                self.start_link(dest.as_str());
            },
            pulldown_cmark::Tag::Image { dest_url, .. } => {
                let url = text_of(&dest_url);
                self.start_image(url);
            },
            pulldown_cmark::Tag::FootnoteDefinition(name) => {
                let label = text_of(&name);
                self.start_footnote(label.as_str());
            },
            pulldown_cmark::Tag::HtmlBlock => self.block_start(),
            _ => {},
        }
    }

    pub(crate) fn end_heading(&mut self, level: u8)
        ensures
            final(self)@ == old(self)@.end_heading(level),
    {
        let mut line = Line { spans: text::clone_spans(&self.inline) };
        let title = line.plain();
        let title_width: usize = measure(title.as_str());
        let start: usize = self.lines.len();
        let mut style = heading_style(level, self.theme);
        style.bold = false;
        style.dim = level == 2;
        self.flush_inline();
        let ghost flushed = self@;
        self.pop_style();
        self.headings.push(Heading { line: start, level, text: title });
        let ghost listed = State {
            styles: state::popped(flushed.styles),
            headings: flushed.headings.push(
                HeadingView { line: start as nat, level, text: title@ },
            ),
            ..flushed
        };
        assert(self@ =~= listed);
        if level <= 2 {
            let avail: usize = self.avail();
            let w: usize = if title_width < 1 {
                1
            } else if title_width > avail {
                avail
            } else {
                title_width
            };
            let rule = if level == 1 {
                repeat('━', w)
            } else {
                repeat('─', w)
            };
            let under = one(Span { text: rule, style });
            assert(strings::views(under@) =~= seq![SpanView { text: rule@, style: style@ }]);
            self.push_line(under);
        }
    }

    pub(crate) fn end_table(&mut self)
        ensures
            final(self)@ == old(self)@.end_table(),
    {
        match self.table.take() {
            Some(t) => {
                assert(self@ =~= State { table: None, ..old(self)@ });
                let avail: usize = self.avail();
                let lines = lay_out(&t, avail);
                self.push_lines(lines);
            },
            None => {},
        }
    }

    pub(crate) fn end_head(&mut self)
        ensures
            final(self)@ == old(self)@.end_tag(pulldown_cmark::TagEnd::TableHead),
    {
        proof {
            reveal(State::end_tag);
        }
        match self.table.take() {
            Some(t) => {
                self.table = Some(
                    Table {
                        aligns: t.aligns,
                        head: t.cur_row,
                        rows: t.rows,
                        cur_row: Vec::new(),
                        in_head: false,
                    },
                );
            },
            None => {},
        }
        assert(self@ =~= old(self)@.end_tag(pulldown_cmark::TagEnd::TableHead));
    }

    pub(crate) fn end_row(&mut self)
        ensures
            final(self)@ == old(self)@.end_tag(pulldown_cmark::TagEnd::TableRow),
    {
        proof {
            reveal(State::end_tag);
        }
        match self.table.take() {
            Some(t) => {
                let mut rows = t.rows;
                rows.push(t.cur_row);
                self.table = Some(
                    Table {
                        aligns: t.aligns,
                        head: t.head,
                        rows,
                        cur_row: Vec::new(),
                        in_head: t.in_head,
                    },
                );
            },
            None => {},
        }
        assert(self@ =~= old(self)@.end_tag(pulldown_cmark::TagEnd::TableRow));
    }

    pub(crate) fn end_cell(&mut self)
        ensures
            final(self)@ == old(self)@.end_tag(pulldown_cmark::TagEnd::TableCell),
    {
        proof {
            reveal(State::end_tag);
        }
        let cell = Line { spans: text::clone_spans(&self.inline) };
        self.inline = Vec::new();
        match self.table.take() {
            Some(t) => {
                let mut cur_row = t.cur_row;
                cur_row.push(cell);
                self.table = Some(
                    Table {
                        aligns: t.aligns,
                        head: t.head,
                        rows: t.rows,
                        cur_row,
                        in_head: t.in_head,
                    },
                );
            },
            None => {},
        }
        assert(self@ =~= old(self)@.end_tag(pulldown_cmark::TagEnd::TableCell));
    }

    pub(crate) fn end_tag(&mut self, tag: pulldown_cmark::TagEnd)
        ensures
            final(self)@ == old(self)@.end_tag(tag),
    {
        proof {
            state::end_tag_plainly(self@, tag);
        }
        match tag {
            pulldown_cmark::TagEnd::Paragraph => self.flush_inline(),
            pulldown_cmark::TagEnd::Heading(level) => self.end_heading(heading_level(level)),
            pulldown_cmark::TagEnd::BlockQuote(_) => self.pop_prefix(),
            pulldown_cmark::TagEnd::List(_) => {
                let _ = self.list_stack.pop();
                assert(self@ =~= State {
                    list_stack: state::popped(old(self)@.list_stack),
                    ..old(self)@
                });
            },
            pulldown_cmark::TagEnd::Item => {
                self.pop_prefix();
                self.at_item_start = false;
                assert(self@ =~= State { at_item_start: false, ..old(self)@.pop_prefix() });
            },
            pulldown_cmark::TagEnd::Table => self.end_table(),
            pulldown_cmark::TagEnd::TableHead => self.end_head(),
            pulldown_cmark::TagEnd::TableRow => self.end_row(),
            pulldown_cmark::TagEnd::TableCell => self.end_cell(),
            pulldown_cmark::TagEnd::Emphasis => self.pop_style(),
            pulldown_cmark::TagEnd::Strong => self.pop_style(),
            pulldown_cmark::TagEnd::Strikethrough => self.pop_style(),
            pulldown_cmark::TagEnd::Link => self.pop_style(),
            pulldown_cmark::TagEnd::FootnoteDefinition => {
                self.pop_prefix();
                self.at_item_start = false;
                assert(self@ =~= State { at_item_start: false, ..old(self)@.pop_prefix() });
            },
            pulldown_cmark::TagEnd::HtmlBlock => self.flush_inline(),
            _ => {},
        }
    }
}

} // verus!
