//! Events, one by one and as a whole document.

use vstd::prelude::*;
use super::{blank_end, opt, Document, RenderOpts, Renderer, Want};
use crate::event;
use crate::event::{parse, text_of};
use crate::highlight::Highlighter;
use crate::prose::{clean_inline, replace_shortcodes};
use crate::state;
use crate::state::{CaptureView, State};
use crate::strings;
use crate::strings::{one, repeat};
use crate::text::{Color, Span, SpanView, Style};

verus! {

broadcast use strings::group_views;

impl<'a> Renderer<'a> {
    pub(crate) fn push_rule(&mut self)
        ensures
            final(self)@ == old(self)@.plain_event(event::EventView::Rule),
    {
        proof {
            reveal(State::plain_event);
        }
        self.block_start();
        let avail: usize = self.avail();
        let line = one(
            Span { text: repeat('─', avail), style: Style::default().fg(Color::DarkGrey) },
        );
        assert(strings::views(line@) =~= seq![
            SpanView {
                text: strings::copies('─', avail as nat),
                style: state::colored(Color::DarkGrey),
            },
        ]);
        self.push_line(line);
    }

    pub(crate) fn push_code(&mut self, t: &str)
        ensures
            final(self)@ == old(self)@.plain_event(event::EventView::Code(t@)),
    {
        proof {
            reveal(State::plain_event);
        }
        let mut style = self.cur_style();
        style.fg = Some(Color::Yellow);
        let clean = clean_inline(t);
        self.push_inline(clean, style);
    }

    pub(crate) fn push_html(&mut self, t: &str)
        ensures
            final(self)@ == old(self)@.plain_event(event::EventView::Html(t@)),
    {
        proof {
            reveal(State::plain_event);
        }
        let style = self.cur_style().dim();
        let clean = clean_inline(t);
        self.push_inline(clean, style);
    }

    pub(crate) fn push_math(&mut self, t: &str)
        ensures
            final(self)@ == old(self)@.plain_event(event::EventView::InlineMath(t@)),
    {
        proof {
            reveal(State::plain_event);
        }
        let style = self.cur_style().fg(Color::Yellow);
        let clean = clean_inline(t);
        self.push_inline(clean, style);
    }

    pub(crate) fn push_text(&mut self, t: &str)
        ensures
            final(self)@ == old(self)@.plain_event(event::EventView::Text(t@)),
    {
        proof {
            reveal(State::plain_event);
        }
        let style = self.cur_style();
        let clean = clean_inline(t);
        let shown = replace_shortcodes(clean.as_str());
        self.push_inline(shown, style);
    }

    pub(crate) fn push_reference(&mut self, name: &str)
        ensures
            final(self)@ == old(self)@.plain_event(event::EventView::FootnoteReference(name@)),
    {
        proof {
            reveal(State::plain_event);
        }
        let style = self.cur_style().fg(Color::DarkCyan);
        let mut label: String = "[^".to_owned();
        label.push_str(name);
        label.push_str("]");
        self.push_inline(label, style);
    }

    pub(crate) fn push_task(&mut self, done: bool)
        ensures
            final(self)@ == old(self)@.plain_event(event::EventView::TaskListMarker(done)),
    {
        proof {
            reveal(State::plain_event);
        }
        if done {
            self.push_inline("☑ ".to_owned(), Style::default().fg(Color::Green));
        } else {
            self.push_inline("☐ ".to_owned(), Style::default().fg(Color::DarkGrey));
        }
    }

    pub(crate) fn push_break(&mut self, hard: bool)
        ensures
            final(self)@ == old(self)@.plain_event(
                if hard {
                    event::EventView::HardBreak
                } else {
                    event::EventView::SoftBreak
                },
            ),
    {
        proof {
            reveal(State::plain_event);
        }
        let style = self.cur_style();
        if hard {
            self.push_inline("\n".to_owned(), style);
        } else {
            self.push_inline(" ".to_owned(), style);
        }
    }

    pub(crate) fn plain_event(&mut self, e: pulldown_cmark::Event<'_>)
        ensures
            final(self)@ == old(self)@.plain_event(event::event_view(e)),
    {
        match e {
            pulldown_cmark::Event::Start(tag) => {
                proof {
                    state::starts_plainly(self@, event::tag_view(tag));
                }
                self.start_tag(tag)
            },
            pulldown_cmark::Event::End(tag) => {
                proof {
                    state::ends_plainly(self@, tag);
                }
                self.end_tag(tag)
            },
            pulldown_cmark::Event::Text(t) => {
                let s = text_of(&t);
                self.push_text(s.as_str());
            },
            pulldown_cmark::Event::Code(t) => {
                let s = text_of(&t);
                self.push_code(s.as_str());
            },
            pulldown_cmark::Event::SoftBreak => self.push_break(false),
            pulldown_cmark::Event::HardBreak => self.push_break(true),
            pulldown_cmark::Event::Rule => self.push_rule(),
            pulldown_cmark::Event::TaskListMarker(done) => self.push_task(done),
            pulldown_cmark::Event::FootnoteReference(name) => {
                let s = text_of(&name);
                self.push_reference(s.as_str());
            },
            pulldown_cmark::Event::Html(t) => {
                let s = text_of(&t);
                self.push_html(s.as_str());
            },
            pulldown_cmark::Event::InlineHtml(t) => {
                let s = text_of(&t);
                proof {
                    state::blocks_show_like_inlines(self@, s@);
                }
                self.push_html(s.as_str());
            },
            pulldown_cmark::Event::InlineMath(t) => {
                let s = text_of(&t);
                self.push_math(s.as_str());
            },
            pulldown_cmark::Event::DisplayMath(t) => {
                let s = text_of(&t);
                proof {
                    state::blocks_show_like_inlines(self@, s@);
                }
                self.push_math(s.as_str());
            },
        }
    }

    /// An event inside a code block, which swallows raw text until it closes.
    pub(crate) fn code_event(&mut self, e: pulldown_cmark::Event<'_>) -> (r: Option<Want>)
        requires
            old(self)@.code is Some,
        ensures
            (final(self)@, opt(r)) == old(self)@.code_event(
                old(self)@.code->0,
                event::event_view(e),
            ),
    {
        match e {
            pulldown_cmark::Event::Text(t) => {
                let s = text_of(&t);
                let mut code = self.code.take().unwrap();
                code.buf.push_str(s.as_str());
                self.code = Some(code);
                assert(self@ =~= old(self)@.code_event(
                    old(self)@.code->0,
                    event::event_view(e),
                ).0);
                None
            },
            pulldown_cmark::Event::End(pulldown_cmark::TagEnd::CodeBlock) => {
                let code = self.code.take().unwrap();
                assert(self@ =~= State { code: None, ..old(self)@ });
                assert(self@.code_done(code@) == old(self)@.code_done(code@));
                self.code_done(code)
            },
            _ => None,
        }
    }

    /// Adds to the alt text of the image at hand.
    pub(crate) fn push_alt(&mut self, t: &str)
        requires
            old(self)@.image is Some,
        ensures
            final(self)@ == (State {
                image: Some(
                    CaptureView { alt: old(self)@.image->0.alt + t@, ..old(self)@.image->0 },
                ),
                ..old(self)@
            }),
    {
        let mut cap = self.image.take().unwrap();
        cap.alt.push_str(t);
        self.image = Some(cap);
        assert(self@ =~= State {
            image: Some(CaptureView { alt: old(self)@.image->0.alt + t@, ..old(self)@.image->0 }),
            ..old(self)@
        });
    }

    /// An event inside an image, where inline events feed the alt text.
    pub(crate) fn image_event(&mut self, e: pulldown_cmark::Event<'_>) -> (r: Option<Want>)
        requires
            old(self)@.image is Some,
        ensures
            (final(self)@, opt(r)) == old(self)@.image_event(
                old(self)@.image->0,
                event::event_view(e),
            ),
    {
        match e {
            pulldown_cmark::Event::Text(t) => {
                let s = text_of(&t);
                self.push_alt(s.as_str());
                None
            },
            pulldown_cmark::Event::Code(t) => {
                let s = text_of(&t);
                self.push_alt(s.as_str());
                None
            },
            pulldown_cmark::Event::InlineHtml(t) => {
                let s = text_of(&t);
                self.push_alt(s.as_str());
                None
            },
            pulldown_cmark::Event::SoftBreak => {
                self.push_alt(" ");
                None
            },
            pulldown_cmark::Event::HardBreak => {
                self.push_alt(" ");
                None
            },
            pulldown_cmark::Event::End(pulldown_cmark::TagEnd::Image) => {
                let cap = self.image.take().unwrap();
                assert(self@ =~= State { image: None, ..old(self)@ });
                assert(self@.image_done(cap@) == old(self)@.image_done(cap@));
                self.image_done(cap)
            },
            // Nested emphasis/links inside alt text: keep only the text.
            _ => None,
        }
    }

    /// Takes in the next event of the document. Where it asks for a picture,
    /// answer before the next one; what is not answered cannot be had.
    pub fn event(&mut self, e: pulldown_cmark::Event<'_>) -> (r: Option<Want>)
        ensures
            (final(self)@, opt(r)) == old(self)@.event(event::event_view(e)),
    {
        self.answer(None);
        if self.code.is_some() {
            self.code_event(e)
        } else if self.image.is_some() {
            self.image_event(e)
        } else {
            self.plain_event(e);
            None
        }
    }

    /// Ends the render and hands out the document.
    pub fn finish(self) -> (r: Document)
        ensures
            r@ == self@.document(),
    {
        let mut end = self;
        end.answer(None);
        end.flush_inline();
        let ghost flushed = end@;
        let ghost all = strings::views(end.lines@);
        while blank_end(&end.lines)
            invariant
                state::without_blank_end(strings::views(end.lines@))
                    == state::without_blank_end(all),
                end@ == (State { lines: strings::views(end.lines@), ..flushed }),
            decreases end.lines@.len(),
        {
            let ghost before = end.lines@;
            let _ = end.lines.pop();
            assert(strings::views(end.lines@) =~= strings::views(before).drop_last());
        }
        Document { lines: end.lines, headings: end.headings, images: end.images }
    }
}

/// Renders a document where no picture can be had: images are links, and
/// diagrams are code.
pub fn render(source: &str, hl: &Highlighter, opts: &RenderOpts) -> (r: Document)
    ensures
        r@ == state::initial(opts@, hl.syntax_set(), hl.color_theme()).events(
            event::parsed_events(source@, event::dialect()),
        ).document(),
{
    let events = parse(source);
    render_events(events, hl, opts)
}

/// Renders the events of a document where no picture can be had.
pub fn render_events(
    events: Vec<pulldown_cmark::Event<'_>>,
    hl: &Highlighter,
    opts: &RenderOpts,
) -> (r: Document)
    ensures
        r@ == state::initial(opts@, hl.syntax_set(), hl.color_theme()).events(
            event::event_views(events@),
        ).document(),
{
    let mut r = Renderer::new(hl, opts);
    let ghost start = r@;
    let ghost es = event::event_views(events@);
    assert(es.take(0) =~= seq![]);
    for e in it: events
        invariant
            it.seq() == events@,
            es == event::event_views(events@),
            r@ == start.events(es.take(it.index())),
    {
        assert(es.take(it.index() + 1).drop_last() =~= es.take(it.index()));
        let _ = r.event(e);
    }
    assert(es.take(events@.len() as int) =~= es);
    r.finish()
}

} // verus!
