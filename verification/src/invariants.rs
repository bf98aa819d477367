//! What every event keeps.

use vstd::prelude::*;
use crate::event::{EventView, TagView};
use crate::highlight;
use crate::rewrap;
use crate::state;
use crate::state::{CaptureView, CodeView, ImageView, PictureView, PrefixView, State};
use crate::strings;
use crate::table;
use crate::text;
use crate::text::SpanView;
use crate::width;
use crate::wrap;

verus! {

/// Whether what prefixes put below their first lines is blank but for quote
/// bars.
pub open spec fn rests_are_barren(prefixes: Seq<PrefixView>) -> bool {
    forall|i: int| 0 <= i < prefixes.len() ==> state::barren((#[trigger] prefixes[i]).rest)
}

/// Whether every image has the id of its content, and no two have the same.
pub open spec fn images_are_told_apart(images: Seq<ImageView>) -> bool {
    &&& forall|i: int|
        0 <= i < images.len() ==> (#[trigger] images[i]).id == state::image_id(images[i].png)
    &&& forall|i: int, j: int|
        0 <= i < j < images.len() ==> (#[trigger] images[i]).id != (#[trigger] images[j]).id
}

/// Whether headings are listed in the order of their lines, and none is beyond
/// the end.
pub open spec fn headings_are_in_order(s: State) -> bool {
    &&& forall|i: int|
        0 <= i < s.headings.len() ==> (#[trigger] s.headings[i]).line <= s.lines.len()
    &&& forall|i: int, j: int|
        0 <= i < j < s.headings.len() ==> (#[trigger] s.headings[i]).line <= (
        #[trigger] s.headings[j]).line
}

/// What holds of a render between any two events.
pub open spec fn holds(s: State) -> bool {
    rests_are_barren(s.prefixes) && images_are_told_apart(s.images) && headings_are_in_order(s)
}

/// Whether `t` came from `s` by going on: the options are the same, and what was
/// rendered, listed or queued stands as it was, with more behind it.
pub open spec fn goes_on(s: State, t: State) -> bool {
    &&& s.width == t.width && s.base == t.base && s.image_mode == t.image_mode && s.diagrams
        == t.diagrams && s.resolve_links == t.resolve_links && s.theme == t.theme && s.syntaxes
        == t.syntaxes && s.palette == t.palette
    &&& is_prefix(s.lines, t.lines)
    &&& is_prefix(s.headings, t.headings)
    &&& is_prefix(s.images, t.images)
}

pub open spec fn is_prefix<T>(a: Seq<T>, b: Seq<T>) -> bool {
    a.len() <= b.len() && b.take(a.len() as int) == a
}

proof fn prefix_pushed<T>(a: Seq<T>, b: Seq<T>, x: T)
    requires
        is_prefix(a, b),
    ensures
        is_prefix(a, b.push(x)),
{
    assert(b.push(x).take(a.len() as int) =~= b.take(a.len() as int));
}

proof fn prefix_itself<T>(a: Seq<T>)
    ensures
        is_prefix(a, a),
{
    assert(a.take(a.len() as int) =~= a);
}

proof fn prefix_chains<T>(a: Seq<T>, b: Seq<T>, c: Seq<T>)
    requires
        is_prefix(a, b),
        is_prefix(b, c),
    ensures
        is_prefix(a, c),
{
    assert(c.take(a.len() as int) =~= b.take(a.len() as int));
}

proof fn goes_on_chains(a: State, b: State, c: State)
    requires
        goes_on(a, b),
        goes_on(b, c),
    ensures
        goes_on(a, c),
{
    prefix_chains(a.lines, b.lines, c.lines);
    prefix_chains(a.headings, b.headings, c.headings);
    prefix_chains(a.images, b.images, c.images);
}

/// A step: the invariant is kept, and the render goes on.
#[verifier::opaque]
spec fn steps(s: State, t: State) -> bool {
    holds(s) ==> holds(t) && goes_on(s, t)
}

proof fn steps_chain(a: State, b: State, c: State)
    requires
        steps(a, b),
        steps(b, c),
    ensures
        steps(a, c),
{
    reveal(steps);
    if holds(a) {
        goes_on_chains(a, b, c);
    }
}

/// A change of what is neither rendered, listed, queued nor put in front of
/// lines is a step.
proof fn steps_aside(s: State, t: State)
    requires
        t.lines == s.lines,
        t.headings == s.headings,
        t.images == s.images,
        t.prefixes == s.prefixes,
        s.width == t.width && s.base == t.base && s.image_mode == t.image_mode && s.diagrams
            == t.diagrams && s.resolve_links == t.resolve_links && s.theme == t.theme && s.syntaxes
            == t.syntaxes && s.palette == t.palette,
    ensures
        steps(s, t),
{
    reveal(steps);
    prefix_itself(s.lines);
    prefix_itself(s.headings);
    prefix_itself(s.images);
}

proof fn step_line(s: State, line: Seq<SpanView>)
    ensures
        steps(s, s.push_line(line)),
{
    reveal(steps);
    let t = s.push_line(line);
    prefix_itself(s.lines);
    prefix_itself(s.headings);
    prefix_itself(s.images);
    prefix_pushed(s.lines, s.lines, t.lines.last());
    if holds(s) {
        assert forall|i: int| 0 <= i < t.prefixes.len() implies state::barren(
            (#[trigger] t.prefixes[i]).rest,
        ) by {
            assert(state::barren(s.prefixes[i].rest));
        }
    }
}

proof fn step_lines(s: State, lines: Seq<Seq<SpanView>>)
    ensures
        steps(s, s.push_lines(lines)),
        ({
            let t = s.push_lines(lines);
            t == (State { lines: t.lines, prefixes: t.prefixes, ..s }) && t.prefixes.len()
                == s.prefixes.len() && t.lines.len() == s.lines.len() + lines.len()
        }),
    decreases lines.len(),
{
    if lines.len() == 0 {
        steps_aside(s, s);
    } else {
        let t = s.push_lines(lines.drop_last());
        step_lines(s, lines.drop_last());
        step_line(t, lines.last());
        steps_chain(s, t, s.push_lines(lines));
    }
}

proof fn step_flush(s: State)
    ensures
        steps(s, s.flush_inline()),
        ({
            let t = s.flush_inline();
            t == (State { lines: t.lines, prefixes: t.prefixes, inline: t.inline, ..s })
        }),
{
    reveal(State::flush_inline);
    if s.inline.len() > 0 {
        let e = State { inline: seq![], ..s };
        steps_aside(s, e);
        let ls = wrap::wrapped(s.inline, s.avail());
        step_lines(e, ls);
        steps_chain(s, e, e.push_lines(ls));
    } else {
        steps_aside(s, s);
    }
}

proof fn step_blank(s: State)
    ensures
        steps(s, s.ensure_blank()),
{
    reveal(steps);
    steps_aside(s, s);
    if !(s.lines.len() == 0 || state::barren(text::line_text(s.lines.last()))) {
        let t = s.ensure_blank();
        prefix_itself(s.lines);
        prefix_pushed(s.lines, s.lines, t.lines.last());
    }
}

proof fn step_block(s: State)
    ensures
        steps(s, s.block_start()),
{
    let f = s.flush_inline();
    step_flush(s);
    steps_aside(f, State { at_item_start: false, ..f });
    step_blank(f);
    steps_chain(s, f, s.block_start());
}

proof fn step_prefix(s: State, p: PrefixView)
    requires
        state::barren(p.rest),
    ensures
        steps(s, s.push_prefix(p)),
{
    reveal(steps);
    prefix_itself(s.lines);
    prefix_itself(s.headings);
    prefix_itself(s.images);
}

proof fn step_marker(s: State, marker: Seq<char>)
    ensures
        steps(s, s.push_marker(marker)),
{
    let p = PrefixView {
        first: marker,
        rest: strings::copies(' ', width::str_width(marker) as nat),
        style: state::colored(text::Color::DarkCyan),
        first_done: false,
    };
    step_prefix(s, p);
    steps_aside(s.push_prefix(p), s.push_marker(marker));
    steps_chain(s, s.push_prefix(p), s.push_marker(marker));
}

proof fn step_pop(s: State)
    ensures
        steps(s, s.pop_prefix()),
{
    let f = s.flush_inline();
    step_flush(s);
    let t = s.pop_prefix();
    prefix_itself(f.lines);
    prefix_itself(f.headings);
    prefix_itself(f.images);
    assert(steps(f, t)) by {
        reveal(steps);
        if holds(f) {
            assert forall|i: int| 0 <= i < t.prefixes.len() implies state::barren(
                (#[trigger] t.prefixes[i]).rest,
            ) by {
                assert(state::barren(f.prefixes[i].rest));
            }
        }
    }
    steps_chain(s, f, t);
}

proof fn image_at_bounds(images: Seq<ImageView>, id: u32, from: int)
    requires
        0 <= from <= images.len(),
    ensures
        from <= state::image_at(images, id, from) <= images.len(),
        state::image_at(images, id, from) == images.len() ==> forall|j: int|
            from <= j < images.len() ==> (#[trigger] images[j]).id != id,
    decreases images.len() - from,
{
    if from < images.len() && images[from].id != id {
        image_at_bounds(images, id, from + 1);
    }
}

proof fn step_queue(s: State, picture: Option<PictureView>)
    ensures
        s.queue_answer(picture) matches Some((q, id, cols, rows)) ==> steps(s, q),
{
    reveal(steps);
    steps_aside(s, s);
    if let Some(p) = picture {
        let id = state::image_id(p.png);
        image_at_bounds(s.images, id, 0);
        if s.queue(p) is Some && state::image_at(s.images, id, 0) >= s.images.len() {
            let t = (s.queue(p)->0).0;
            prefix_itself(s.images);
            prefix_pushed(s.images, s.images, t.images.last());
        }
    }
}

proof fn step_image(s: State, cap: CaptureView, picture: Option<PictureView>)
    ensures
        steps(s, s.emit_image(cap, picture)),
{
    let r = s.emit_image(cap, picture);
    match s.queue_answer(picture) {
        Some((q, id, cols, rows)) => {
            let f = q.flush_inline();
            let g = f.push_lines(state::grid(id, cols, rows));
            step_queue(s, picture);
            step_flush(q);
            steps_chain(s, q, f);
            step_lines(f, state::grid(id, cols, rows));
            steps_chain(s, f, g);
            let alt = crate::prose::replaced(crate::prose::expanded(cap.alt));
            let shown = if alt.len() == 0 {
                "image"@
            } else {
                alt
            };
            let caption = text::StyleView {
                dim: true,
                link: Some(cap.url),
                ..text::plain_style()
            };
            let line = seq![SpanView { text: "🖼 "@ + shown, style: caption }];
            step_line(g, line);
            steps_chain(s, g, g.push_line(line));
        },
        None => {
            steps_aside(s, r);
        },
    }
}

proof fn step_code(s: State, code: CodeView, picture: Option<PictureView>)
    ensures
        steps(s, s.emit_code(code, picture)),
{
    match s.queue_answer(picture) {
        Some((q, id, cols, rows)) => {
            step_queue(s, picture);
            step_lines(q, state::grid(id, cols, rows));
            steps_chain(s, q, q.push_lines(state::grid(id, cols, rows)));
        },
        None => {
            step_lines(s, highlight::code_lines(s.syntaxes, s.palette, code.lang, code.buf));
        },
    }
}

proof fn step_answer(s: State, picture: Option<PictureView>)
    ensures
        steps(s, s.answer(picture)),
{
    let t = State { asked: None, ..s };
    steps_aside(s, t);
    steps_aside(s, s);
    match s.asked {
        Some(state::AskView::Image(cap)) => {
            step_image(t, cap, picture);
            steps_chain(s, t, t.emit_image(cap, picture));
        },
        Some(state::AskView::Code(code)) => {
            step_code(t, code, picture);
            steps_chain(s, t, t.emit_code(code, picture));
        },
        None => {},
    }
}

proof fn step_quote(s: State, kind: Option<pulldown_cmark::BlockQuoteKind>)
    ensures
        steps(s, s.start_tag(TagView::BlockQuote(kind))),
{
    reveal(State::start_tag);
    let r = s.start_tag(TagView::BlockQuote(kind));
    let b = s.block_start();
    step_block(s);
    let (color, title) = state::quote_look(kind);
    let p = PrefixView {
        first: "▎ "@,
        rest: "▎ "@,
        style: state::colored(color),
        first_done: true,
    };
    reveal_strlit("▎ ");
    assert(state::barren("▎ "@));
    let q = b.push_prefix(p);
    step_prefix(b, p);
    steps_chain(s, b, q);
    match title {
        Some(t) => {
            let line = seq![
                SpanView {
                    text: t,
                    style: text::StyleView { bold: true, ..state::colored(color) },
                },
            ];
            step_line(q, line);
            steps_aside(q.push_line(line), r);
            steps_chain(s, q, q.push_line(line));
            steps_chain(s, q.push_line(line), r);
        },
        None => {},
    }
}

proof fn step_list(s: State, start: Option<u64>)
    ensures
        steps(s, s.start_tag(TagView::List(start))),
{
    reveal(State::start_tag);
    let r = s.start_tag(TagView::List(start));
    let f = s.flush_inline();
    step_flush(s);
    let t = if f.at_item_start || f.list_stack.len() > 0 {
        State { at_item_start: false, ..f }
    } else {
        f.ensure_blank()
    };
    step_blank(f);
    steps_aside(f, State { at_item_start: false, ..f });
    steps_chain(s, f, t);
    steps_aside(t, r);
    steps_chain(s, t, r);
}

proof fn step_start(s: State, tag: TagView)
    ensures
        steps(s, s.start_tag(tag)),
{
    match tag {
        TagView::BlockQuote(kind) => {
            step_quote(s, kind);
        },
        TagView::List(start) => {
            step_list(s, start);
        },
        _ => {
            reveal(State::start_tag);
            let r = s.start_tag(tag);
            let b = s.block_start();
            step_block(s);
            match tag {
                TagView::Paragraph => {},
                TagView::HtmlBlock => {},
                TagView::Heading(level) => {
                    steps_aside(b, r);
                    steps_chain(s, b, r);
                },
                TagView::CodeBlock(info) => {
                    steps_aside(b, r);
                    steps_chain(s, b, r);
                },
                TagView::Table(aligns) => {
                    steps_aside(b, r);
                    steps_chain(s, b, r);
                },
                TagView::FootnoteDefinition(name) => {
                    step_marker(b, "[^"@ + name + "] "@);
                    steps_chain(s, b, r);
                },
                TagView::Item => {
                    let f = s.flush_inline();
                    let n = State { list_stack: state::numbered(f.list_stack), ..f };
                    step_flush(s);
                    steps_aside(f, n);
                    steps_chain(s, f, n);
                    step_marker(n, state::marker(f.list_stack));
                    steps_chain(s, n, r);
                },
                _ => {
                    steps_aside(s, r);
                },
            }
        },
    }
}

proof fn step_heading(s: State, level: u8)
    ensures
        steps(s, s.end_heading(level)),
{
    let txt = text::line_text(s.inline);
    let f = s.flush_inline();
    step_flush(s);
    let h = state::HeadingView { line: s.lines.len(), level, text: txt };
    let t = State { styles: state::popped(f.styles), headings: f.headings.push(h), ..f };
    let r = s.end_heading(level);
    prefix_itself(s.headings);
    prefix_pushed(s.headings, s.headings, h);
    assert(f.headings == s.headings);
    assert(steps(s, t)) by {
        reveal(steps);
    }
    if level <= 2 {
        let w = width::str_width(txt) as nat;
        let n = if w < 1 {
            1
        } else if w > t.avail() {
            t.avail()
        } else {
            w
        };
        let ch = if level == 1 {
            '━'
        } else {
            '─'
        };
        let style = text::StyleView {
            bold: false,
            dim: level == 2,
            ..state::heading_style(level, s.theme)
        };
        step_line(t, seq![SpanView { text: strings::copies(ch, n), style }]);
        steps_chain(s, t, r);
    }
}

proof fn step_end(s: State, tag: pulldown_cmark::TagEnd)
    ensures
        steps(s, s.end_tag(tag)),
{
    reveal(State::end_tag);
    let r = s.end_tag(tag);
    match tag {
        pulldown_cmark::TagEnd::Paragraph => {
            step_flush(s);
        },
        pulldown_cmark::TagEnd::HtmlBlock => {
            step_flush(s);
        },
        pulldown_cmark::TagEnd::Heading(level) => {
            step_heading(s, crate::event::level_number(level));
        },
        pulldown_cmark::TagEnd::BlockQuote(_) => {
            step_pop(s);
        },
        pulldown_cmark::TagEnd::Item => {
            step_pop(s);
            steps_aside(s.pop_prefix(), r);
            steps_chain(s, s.pop_prefix(), r);
        },
        pulldown_cmark::TagEnd::FootnoteDefinition => {
            step_pop(s);
            steps_aside(s.pop_prefix(), r);
            steps_chain(s, s.pop_prefix(), r);
        },
        pulldown_cmark::TagEnd::Table => {
            match s.table {
                Some(t) => {
                    let n = State { table: None, ..s };
                    steps_aside(s, n);
                    step_lines(n, table::table_lines(t, n.avail()));
                    steps_chain(s, n, r);
                },
                None => {
                    steps_aside(s, s);
                },
            }
        },
        _ => {
            steps_aside(s, r);
        },
    }
}

proof fn step_plain(s: State, e: EventView)
    ensures
        steps(s, s.plain_event(e)),
{
    match e {
        EventView::Start(tag) => {
            state::starts_plainly(s, tag);
            step_start(s, tag);
        },
        EventView::End(tag) => {
            state::ends_plainly(s, tag);
            step_end(s, tag);
        },
        EventView::Rule => {
            reveal(State::plain_event);
            let b = s.block_start();
            step_block(s);
            let line = seq![
                SpanView {
                    text: strings::copies('─', b.avail()),
                    style: state::colored(text::Color::DarkGrey),
                },
            ];
            step_line(b, line);
            steps_chain(s, b, b.push_line(line));
        },
        _ => {
            reveal(State::plain_event);
            steps_aside(s, s.plain_event(e));
        },
    }
}

proof fn step_in_code(s: State, code: CodeView, e: EventView)
    ensures
        steps(s, s.code_event(code, e).0),
{
    let r = s.code_event(code, e).0;
    match e {
        EventView::End(pulldown_cmark::TagEnd::CodeBlock) => {
            if s.diagrams && !(s.image_mode is Off) && state::drawable(code.lang) {
                steps_aside(s, r);
            } else {
                let c = State { code: None, ..s };
                steps_aside(s, c);
                step_code(c, code, None);
                steps_chain(s, c, r);
            }
        },
        _ => {
            steps_aside(s, r);
        },
    }
}

proof fn step_in_image(s: State, cap: CaptureView, e: EventView)
    ensures
        steps(s, s.image_event(cap, e).0),
{
    let r = s.image_event(cap, e).0;
    match e {
        EventView::End(pulldown_cmark::TagEnd::Image) => {
            if s.picture_file(cap.url) is Some {
                steps_aside(s, r);
            } else {
                let c = State { image: None, ..s };
                steps_aside(s, c);
                step_image(c, cap, None);
                steps_chain(s, c, r);
            }
        },
        _ => {
            steps_aside(s, r);
        },
    }
}

proof fn step_event(s: State, e: EventView)
    ensures
        steps(s, s.event(e).0),
{
    let a = s.answer(None);
    step_answer(s, None);
    match a.code {
        Some(code) => {
            step_in_code(a, code, e);
        },
        None => match a.image {
            Some(cap) => {
                step_in_image(a, cap, e);
            },
            None => {
                step_plain(a, e);
            },
        },
    }
    steps_chain(s, a, s.event(e).0);
}

/// The invariant holds of a render with nothing in it yet.
pub proof fn holds_at_first(
    opts: state::OptsView,
    syntaxes: syntect::parsing::SyntaxSet,
    palette: syntect::highlighting::Theme,
)
    ensures
        holds(state::initial(opts, syntaxes, palette)),
{
}

/// Every event keeps the invariant and goes on from what there was: lines that
/// are rendered, headings that are listed and images that are queued stay.
pub proof fn events_go_on(s: State, e: EventView)
    requires
        holds(s),
    ensures
        holds(s.event(e).0),
        goes_on(s, s.event(e).0),
{
    reveal(steps);
    step_event(s, e);
}

/// An answer keeps the invariant and goes on from what there was.
pub proof fn answers_go_on(s: State, picture: Option<PictureView>)
    requires
        holds(s),
    ensures
        holds(s.answer(picture)),
        goes_on(s, s.answer(picture)),
{
    reveal(steps);
    step_answer(s, picture);
}

/// The invariant holds after any run of events.
pub proof fn holds_throughout(s: State, es: Seq<EventView>)
    requires
        holds(s),
    ensures
        holds(s.events(es)),
        goes_on(s, s.events(es)),
    decreases es.len(),
{
    reveal(steps);
    steps_aside(s, s);
    if es.len() > 0 {
        holds_throughout(s, es.drop_last());
        let t = s.events(es.drop_last());
        events_go_on(t, es.last());
        goes_on_chains(s, t, s.events(es));
    }
}

proof fn barren_sum(a: Seq<char>, b: Seq<char>)
    requires
        state::barren(a),
        state::barren(b),
    ensures
        state::barren(a + b),
{
    assert forall|i: int| 0 <= i < (a + b).len() implies strings::is_white(#[trigger] (a + b)[i])
        || (a + b)[i] == state::QUOTE_BAR by {
        if i < a.len() {
            assert((a + b)[i] == a[i]);
        } else {
            assert((a + b)[i] == b[i - a.len()]);
        }
    }
}

proof fn blank_heads_are_barren(prefixes: Seq<PrefixView>)
    requires
        rests_are_barren(prefixes),
    ensures
        state::barren(text::line_text(state::blank_heads(prefixes))),
    decreases prefixes.len(),
{
    if prefixes.len() > 0 {
        let rest = prefixes.drop_last();
        assert forall|i: int| 0 <= i < rest.len() implies state::barren((#[trigger] rest[i]).rest) by {
            assert(state::barren(prefixes[i].rest));
        }
        blank_heads_are_barren(rest);
        let p = prefixes.last();
        assert(p == prefixes[prefixes.len() - 1]);
        let before = state::blank_heads(rest);
        if p.first_done {
            let s = SpanView { text: p.rest, style: p.style };
            assert(before.push(s).drop_last() =~= before);
            barren_sum(text::line_text(before), p.rest);
        }
    }
}

/// Blank lines do not pile up: asking for one where one was just asked for adds
/// none, however deep the quotes and lists are.
pub proof fn blanks_do_not_pile_up(s: State)
    requires
        holds(s),
    ensures
        s.ensure_blank().ensure_blank() == s.ensure_blank(),
{
    let t = s.ensure_blank();
    blank_heads_are_barren(s.prefixes);
    text::pushes_append_text(seq![], state::blank_heads(s.prefixes));
    let line = text::push_spans(seq![], state::blank_heads(s.prefixes));
    assert(text::line_text(seq![]) + text::line_text(state::blank_heads(s.prefixes))
        =~= text::line_text(state::blank_heads(s.prefixes)));
    assert(state::barren(text::line_text(line)));
}

/// Without graphics support, no event asks for a picture and none is queued.
pub proof fn nothing_is_asked_without_graphics(s: State, e: EventView)
    requires
        s.image_mode is Off,
        s.asked is None,
        holds(s),
    ensures
        s.event(e).1 is None,
        s.event(e).0.image_mode is Off,
        s.event(e).0.asked is None,
        s.event(e).0.images == s.images,
{
    events_go_on(s, e);
    no_queue_event(s, e);
}

proof fn lines_leave_the_rest(s: State, lines: Seq<Seq<SpanView>>)
    ensures
        s.push_lines(lines).asked == s.asked,
        s.push_lines(lines).images == s.images,
{
    step_lines(s, lines);
}

proof fn no_queue_event(s: State, e: EventView)
    requires
        s.image_mode is Off,
        s.asked is None,
    ensures
        s.event(e).1 is None,
        s.event(e).0.asked is None,
        s.event(e).0.images == s.images,
{
    assert(s.answer(None) == s);
    match s.code {
        Some(code) => {
            let c = State { code: None, ..s };
            lines_leave_the_rest(
                c,
                highlight::code_lines(s.syntaxes, s.palette, code.lang, code.buf),
            );
        },
        None => match s.image {
            Some(cap) => {},
            None => {
                no_queue_plain(s, e);
            },
        },
    }
}

/// Whether nothing was asked for or queued on the way from `s` to `t`.
spec fn quiet(s: State, t: State) -> bool {
    t.asked == s.asked && t.images == s.images
}

proof fn no_queue_start(s: State, tag: TagView)
    ensures
        quiet(s, s.start_tag(tag)),
{
    step_flush(s);
    reveal(State::start_tag);
}

proof fn no_queue_end(s: State, tag: pulldown_cmark::TagEnd)
    ensures
        quiet(s, s.end_tag(tag)),
{
    step_flush(s);
    reveal(State::end_tag);
    match s.table {
        Some(t) => {
            let n = State { table: None, ..s };
            lines_leave_the_rest(n, table::table_lines(t, n.avail()));
        },
        None => {},
    }
}

proof fn no_queue_plain(s: State, e: EventView)
    ensures
        quiet(s, s.plain_event(e)),
{
    match e {
        EventView::Start(tag) => {
            state::starts_plainly(s, tag);
            no_queue_start(s, tag);
        },
        EventView::End(tag) => {
            state::ends_plainly(s, tag);
            no_queue_end(s, tag);
        },
        _ => {
            step_flush(s);
            reveal(State::plain_event);
        },
    }
}

proof fn end_is_not_blank(lines: Seq<Seq<SpanView>>)
    ensures
        is_prefix(state::without_blank_end(lines), lines),
        state::without_blank_end(lines).len() > 0 ==> !strings::all_white(
            text::line_text(state::without_blank_end(lines).last()),
        ),
    decreases lines.len(),
{
    prefix_itself(lines);
    if lines.len() > 0 && strings::all_white(text::line_text(lines.last())) {
        end_is_not_blank(lines.drop_last());
        let r = state::without_blank_end(lines);
        assert(lines.take(r.len() as int) =~= lines.drop_last().take(r.len() as int));
    }
}

/// A document does not end in a blank line.
pub proof fn documents_end_in_text(s: State)
    ensures
        s.document().lines.len() > 0 ==> !strings::all_white(
            text::line_text(s.document().lines.last()),
        ),
{
    end_is_not_blank(s.answer(None).flush_inline().lines);
}

/// Flushed text fits the width: where a space takes one column, every word fits
/// the columns there are, and the prefixes leave ten columns or more, every line
/// fits beside the prefixes.
pub proof fn flushed_text_fits(s: State, i: int)
    requires
        width::str_width(seq![' ']) == 1,
        wrap::words_fit(s.inline, s.avail()),
        state::rest_width(s.prefixes) + 10 <= s.width,
        0 <= i < wrap::wrapped(s.inline, s.avail()).len(),
    ensures
        state::rest_width(s.prefixes) + text::line_width(wrap::wrapped(s.inline, s.avail())[i])
            <= s.width,
        s.inline.len() > 0 ==> s.flush_inline() == (State { inline: seq![], ..s }).push_lines(
            wrap::wrapped(s.inline, s.avail()),
        ),
{
    wrap::wrapping_fits(s.inline, s.avail());
    reveal(State::flush_inline);
}

/// Flushed printable ASCII, a column for each character, fits the width whatever
/// its words: where the prefixes leave ten columns or more, every line fits beside
/// them.
pub proof fn flushed_ascii_fits(s: State, i: int)
    requires
        rewrap::plain_ascii(s.inline),
        state::rest_width(s.prefixes) + 10 <= s.width,
        0 <= i < rewrap::ascii_wrapped(s.inline, s.avail()).len(),
    ensures
        state::rest_width(s.prefixes) + text::line_len(
            rewrap::ascii_wrapped(s.inline, s.avail())[i],
        ) <= s.width,
{
    rewrap::ascii_wraps_for_good(s.inline, s.avail());
}

} // verus!
