//! Elements that are closed leave no trace on the stacks of a render.

use vstd::prelude::*;
use crate::event::{EventView, TagView};
use crate::highlight;
use crate::state;
use crate::state::{CaptureView, CodeView, PictureView, State};
use crate::table;
use crate::text::SpanView;

verus! {

/// Content between events: a single event, or an element with its content.
pub enum Piece {
    Single(EventView),
    Element(TagView, Seq<Piece>, pulldown_cmark::TagEnd),
}

/// Whether a tag ends an element that another one starts.
pub open spec fn ends(tag: TagView, end: pulldown_cmark::TagEnd) -> bool {
    match tag {
        TagView::Paragraph => end is Paragraph,
        TagView::Heading(level) => end is Heading,
        TagView::BlockQuote(kind) => end is BlockQuote,
        TagView::CodeBlock(info) => end is CodeBlock,
        TagView::HtmlBlock => end is HtmlBlock,
        TagView::List(start) => end is List,
        TagView::Item => end is Item,
        TagView::FootnoteDefinition(name) => end is FootnoteDefinition,
        TagView::Table(aligns) => end is Table,
        TagView::TableHead => end is TableHead,
        TagView::TableRow => end is TableRow,
        TagView::TableCell => end is TableCell,
        TagView::Emphasis => end is Emphasis,
        TagView::Strong => end is Strong,
        TagView::Strikethrough => end is Strikethrough,
        TagView::Link(dest) => end is Link,
        TagView::Image(url) => end is Image,
        TagView::Other => end is DefinitionList || end is DefinitionListTitle
            || end is DefinitionListDefinition || end is Superscript || end is Subscript
            || end is MetadataBlock,
    }
}

/// The events of a piece.
pub open spec fn events_of(p: Piece) -> Seq<EventView>
    decreases p, 1nat, 0nat,
{
    match p {
        Piece::Single(e) => seq![e],
        Piece::Element(tag, content, end) => seq![EventView::Start(tag)] + events_in(
            p,
            content.len(),
        ) + seq![EventView::End(end)],
    }
}

/// The events of the first `n` pieces of an element's content.
pub open spec fn events_in(p: Piece, n: nat) -> Seq<EventView>
    decreases p, 0nat, n,
{
    match p {
        Piece::Element(tag, content, end) => if n == 0 || n > content.len() {
            seq![]
        } else {
            events_in(p, (n - 1) as nat) + events_of(content[n - 1])
        },
        _ => seq![],
    }
}

/// Whether a piece is balanced: elements end as they start, code blocks and
/// images hold none of their kind, and single events start and end nothing.
pub open spec fn balanced(p: Piece) -> bool
    decreases p, 1nat, 0nat,
{
    match p {
        Piece::Single(e) => !(e is Start) && !(e is End),
        Piece::Element(tag, content, end) => {
            &&& ends(tag, end)
            &&& balanced_in(p, content.len())
            &&& tag is CodeBlock || tag is Image ==> !events_in(p, content.len()).contains(
                EventView::End(end),
            )
        },
    }
}

/// Whether the first `n` pieces of an element's content are balanced.
pub open spec fn balanced_in(p: Piece, n: nat) -> bool
    decreases p, 0nat, n,
{
    match p {
        Piece::Element(tag, content, end) => if n == 0 || n > content.len() {
            true
        } else {
            balanced_in(p, (n - 1) as nat) && balanced(content[n - 1])
        },
        _ => true,
    }
}

/// The state after an event.
#[verifier::opaque]
pub open spec fn after(s: State, e: EventView) -> State {
    s.event(e).0
}

/// A run of events, each followed by an answer to what it asked for, if it asked
/// for anything.
pub open spec fn answered_run(
    s: State,
    es: Seq<EventView>,
    answers: spec_fn(State) -> Option<PictureView>,
) -> State
    decreases es.len(),
{
    if es.len() == 0 {
        s
    } else {
        let t = after(answered_run(s, es.drop_last(), answers), es.last());
        t.answer(answers(t))
    }
}

proof fn runs_join(
    s: State,
    a: Seq<EventView>,
    b: Seq<EventView>,
    answers: spec_fn(State) -> Option<PictureView>,
)
    ensures
        answered_run(s, a + b, answers) == answered_run(
            answered_run(s, a, answers),
            b,
            answers,
        ),
    decreases b.len(),
{
    if b.len() == 0 {
        assert(a + b =~= a);
    } else {
        assert((a + b).drop_last() =~= a + b.drop_last());
        runs_join(s, a, b.drop_last(), answers);
    }
}

proof fn runs_of_one(s: State, e: EventView, answers: spec_fn(State) -> Option<PictureView>)
    ensures
        answered_run(s, seq![e], answers) == ({
            let t = after(s, e);
            t.answer(answers(t))
        }),
{
    assert(seq![e].drop_last() =~= seq![]);
    assert(answered_run(s, seq![e].drop_last(), answers) == s);
}

/// Whether two states have the same styles and as many prefixes and lists, and
/// the second has neither a code block nor an image open and waits for nothing.
pub open spec fn level(s: State, t: State) -> bool {
    &&& t.styles == s.styles
    &&& t.prefixes.len() == s.prefixes.len()
    &&& t.list_stack.len() == s.list_stack.len()
    &&& t.code is None && t.image is None && t.asked is None
}

/// What no emission touches.
spec fn apart(s: State, t: State) -> bool {
    &&& t.styles == s.styles
    &&& t.prefixes.len() == s.prefixes.len()
    &&& t.list_stack == s.list_stack
    &&& t.code == s.code && t.image == s.image && t.asked == s.asked && t.table == s.table
    &&& t.at_item_start == s.at_item_start
}

proof fn lines_stay_apart(s: State, lines: Seq<Seq<SpanView>>)
    ensures
        apart(s, s.push_lines(lines)),
    decreases lines.len(),
{
    if lines.len() > 0 {
        lines_stay_apart(s, lines.drop_last());
    }
}

proof fn flush_stays_apart(s: State)
    ensures
        apart(s, s.flush_inline()),
{
    reveal(State::flush_inline);
    if s.inline.len() > 0 {
        lines_stay_apart(
            State { inline: seq![], ..s },
            crate::wrap::wrapped(s.inline, s.avail()),
        );
    }
}

proof fn image_stays_apart(s: State, cap: CaptureView, picture: Option<PictureView>)
    ensures
        apart(s, s.emit_image(cap, picture)),
{
    if let Some((q, id, cols, rows)) = s.queue_answer(picture) {
        flush_stays_apart(q);
        lines_stay_apart(q.flush_inline(), state::grid(id, cols, rows));
    }
}

proof fn code_stays_apart(s: State, code: CodeView, picture: Option<PictureView>)
    ensures
        apart(s, s.emit_code(code, picture)),
{
    if let Some((q, id, cols, rows)) = s.queue_answer(picture) {
        lines_stay_apart(q, state::grid(id, cols, rows));
    } else {
        lines_stay_apart(s, highlight::code_lines(s.syntaxes, s.palette, code.lang, code.buf));
    }
}

proof fn answer_levels(s: State, picture: Option<PictureView>)
    ensures
        ({
            let t = s.answer(picture);
            t.styles == s.styles && t.prefixes.len() == s.prefixes.len() && t.list_stack
                == s.list_stack && t.code == s.code && t.image == s.image && t.asked is None
        }),
{
    let n = State { asked: None, ..s };
    match s.asked {
        Some(state::AskView::Image(cap)) => {
            image_stays_apart(n, cap, picture);
        },
        Some(state::AskView::Code(code)) => {
            code_stays_apart(n, code, picture);
        },
        None => {},
    }
}

/// What the start of an element puts on the stacks: styles, prefixes, lists.
pub open spec fn pushes(tag: TagView) -> (nat, nat, nat) {
    match tag {
        TagView::Heading(level) => (1, 0, 0),
        TagView::Emphasis => (1, 0, 0),
        TagView::Strong => (1, 0, 0),
        TagView::Strikethrough => (1, 0, 0),
        TagView::Link(dest) => (1, 0, 0),
        TagView::BlockQuote(kind) => (0, 1, 0),
        TagView::Item => (0, 1, 0),
        TagView::FootnoteDefinition(name) => (0, 1, 0),
        TagView::List(start) => (0, 0, 1),
        _ => (0, 0, 0),
    }
}

proof fn start_levels(s: State, tag: TagView)
    requires
        s.asked is None,
        s.code is None,
        s.image is None,
    ensures
        ({
            let t = s.start_tag(tag);
            let (a, b, c) = pushes(tag);
            &&& t.styles.len() == s.styles.len() + a
            &&& t.styles.take(s.styles.len() as int) == s.styles
            &&& t.prefixes.len() == s.prefixes.len() + b
            &&& t.list_stack.len() == s.list_stack.len() + c
            &&& t.asked is None
            &&& t.code is Some <==> tag is CodeBlock
            &&& t.image is Some <==> tag is Image
        }),
{
    reveal(State::start_tag);
    flush_stays_apart(s);
    assert(s.styles.take(s.styles.len() as int) =~= s.styles);
    let t = s.start_tag(tag);
    assert(t.styles.take(s.styles.len() as int) =~= s.styles);
}

proof fn end_levels(s: State, tag: TagView, end: pulldown_cmark::TagEnd)
    requires
        s.asked is None,
        s.code is None,
        s.image is None,
        ends(tag, end),
        !(tag is CodeBlock),
        !(tag is Image),
    ensures
        ({
            let t = s.end_tag(end);
            let (a, b, c) = pushes(tag);
            &&& a == 0 ==> t.styles == s.styles
            &&& a == 1 && s.styles.len() > 0 ==> t.styles == s.styles.drop_last()
            &&& b == 0 ==> t.prefixes.len() == s.prefixes.len()
            &&& b == 1 && s.prefixes.len() > 0 ==> t.prefixes.len() == s.prefixes.len() - 1
            &&& c == 0 ==> t.list_stack.len() == s.list_stack.len()
            &&& c == 1 && s.list_stack.len() > 0 ==> t.list_stack.len() == s.list_stack.len() - 1
            &&& t.asked is None && t.code is None && t.image is None
        }),
{
    reveal(State::end_tag);
    flush_stays_apart(s);
    match s.table {
        Some(t) => {
            let n = State { table: None, ..s };
            lines_stay_apart(n, table::table_lines(t, n.avail()));
        },
        None => {},
    }
}

proof fn single_levels(s: State, e: EventView)
    requires
        s.asked is None,
        s.code is None,
        s.image is None,
        !(e is Start),
        !(e is End),
    ensures
        level(s, after(s, e)),
{
    reveal(after);
    flush_stays_apart(s);
    reveal(State::plain_event);
}

/// Content that a code block swallows: it stays open.
proof fn code_swallows(
    s: State,
    es: Seq<EventView>,
    answers: spec_fn(State) -> Option<PictureView>,
)
    requires
        s.asked is None,
        s.code is Some,
        s.image is None,
        !es.contains(EventView::End(pulldown_cmark::TagEnd::CodeBlock)),
    ensures
        ({
            let t = answered_run(s, es, answers);
            t.styles == s.styles && t.prefixes == s.prefixes && t.list_stack == s.list_stack
                && t.asked is None && t.code is Some && t.image is None
        }),
    decreases es.len(),
{
    reveal(after);
    if es.len() > 0 {
        let d = es.drop_last();
        assert forall|e: EventView| d.contains(e) implies es.contains(e) by {
            let i = choose|i: int| 0 <= i < d.len() && d[i] == e;
            assert(es[i] == e);
        }
        code_swallows(s, d, answers);
        assert(es.contains(es.last()));
    }
}

/// Content that an image swallows: it stays open.
proof fn image_swallows(
    s: State,
    es: Seq<EventView>,
    answers: spec_fn(State) -> Option<PictureView>,
)
    requires
        s.asked is None,
        s.code is None,
        s.image is Some,
        !es.contains(EventView::End(pulldown_cmark::TagEnd::Image)),
    ensures
        ({
            let t = answered_run(s, es, answers);
            t.styles == s.styles && t.prefixes == s.prefixes && t.list_stack == s.list_stack
                && t.asked is None && t.code is None && t.image is Some
        }),
    decreases es.len(),
{
    reveal(after);
    if es.len() > 0 {
        let d = es.drop_last();
        assert forall|e: EventView| d.contains(e) implies es.contains(e) by {
            let i = choose|i: int| 0 <= i < d.len() && d[i] == e;
            assert(es[i] == e);
        }
        image_swallows(s, d, answers);
        assert(es.contains(es.last()));
    }
}

proof fn code_closes(s: State)
    requires
        s.asked is None,
        s.code is Some,
        s.image is None,
    ensures
        ({
            let t = after(s, EventView::End(pulldown_cmark::TagEnd::CodeBlock));
            t.styles == s.styles && t.prefixes.len() == s.prefixes.len() && t.list_stack
                == s.list_stack && t.code is None && t.image is None
        }),
{
    reveal(after);
    let c = State { code: None, ..s };
    code_stays_apart(c, s.code->0, None);
}

proof fn image_closes(s: State)
    requires
        s.asked is None,
        s.code is None,
        s.image is Some,
    ensures
        ({
            let t = after(s, EventView::End(pulldown_cmark::TagEnd::Image));
            t.styles == s.styles && t.prefixes.len() == s.prefixes.len() && t.list_stack
                == s.list_stack && t.code is None && t.image is None
        }),
{
    reveal(after);
    let c = State { image: None, ..s };
    image_stays_apart(c, s.image->0, None);
}

proof fn element_opens(s: State, tag: TagView)
    requires
        s.asked is None,
        s.code is None,
        s.image is None,
    ensures
        after(s, EventView::Start(tag)) == s.start_tag(tag),
{
    reveal(after);
    state::starts_plainly(s, tag);
}

proof fn element_closes(s: State, end: pulldown_cmark::TagEnd)
    requires
        s.asked is None,
        s.code is None,
        s.image is None,
    ensures
        after(s, EventView::End(end)) == s.end_tag(end),
{
    reveal(after);
    state::ends_plainly(s, end);
}

/// The run of an element is that of its start, its content and its end.
proof fn element_runs(s: State, p: Piece, answers: spec_fn(State) -> Option<PictureView>)
    requires
        p is Element,
    ensures
        ({
            let opened = answered_run(s, seq![EventView::Start(p->Element_0)], answers);
            let filled = answered_run(opened, events_in(p, p->Element_1.len()), answers);
            answered_run(s, events_of(p), answers) == answered_run(
                filled,
                seq![EventView::End(p->Element_2)],
                answers,
            )
        }),
{
    let first = seq![EventView::Start(p->Element_0)];
    let inner = events_in(p, p->Element_1.len());
    let last = seq![EventView::End(p->Element_2)];
    runs_join(s, first, inner, answers);
    runs_join(s, first + inner, last, answers);
}

/// Every end undoes what its start pushed: after balanced content, with its
/// pictures answered in any way, the styles are what they were, and there are as
/// many prefixes and lists as before.
pub proof fn ends_undo_starts(
    s: State,
    p: Piece,
    answers: spec_fn(State) -> Option<PictureView>,
)
    requires
        balanced(p),
        s.asked is None,
        s.code is None,
        s.image is None,
    ensures
        level(s, answered_run(s, events_of(p), answers)),
    decreases p, 1nat, 0nat,
{
    match p {
        Piece::Single(e) => {
            runs_of_one(s, e, answers);
            single_levels(s, e);
            let t = after(s, e);
            answer_levels(t, answers(t));
        },
        Piece::Element(tag, content, end) => {
            let opened = s.start_tag(tag);
            let inner = events_in(p, content.len());
            element_runs(s, p, answers);
            element_opens(s, tag);
            start_levels(s, tag);
            runs_of_one(s, EventView::Start(tag), answers);
            assert(opened.answer(answers(opened)) == opened);
            let filled = answered_run(opened, inner, answers);
            runs_of_one(filled, EventView::End(end), answers);
            let closed = after(filled, EventView::End(end));
            answer_levels(closed, answers(closed));
            if tag is CodeBlock {
                code_swallows(opened, inner, answers);
                code_closes(filled);
            } else if tag is Image {
                image_swallows(opened, inner, answers);
                image_closes(filled);
            } else {
                content_levels(opened, p, content.len(), answers);
                element_closes(filled, end);
                end_levels(filled, tag, end);
            }
            if pushes(tag).0 == 1 {
                assert(opened.styles.drop_last() =~= s.styles);
            } else {
                assert(opened.styles =~= s.styles);
            }
        },
    }
}

proof fn content_levels(
    s: State,
    p: Piece,
    n: nat,
    answers: spec_fn(State) -> Option<PictureView>,
)
    requires
        p is Element,
        n <= p->Element_1.len(),
        balanced_in(p, n),
        s.asked is None,
        s.code is None,
        s.image is None,
    ensures
        level(s, answered_run(s, events_in(p, n), answers)),
    decreases p, 0nat, n,
{
    if n > 0 {
        let content = p->Element_1;
        content_levels(s, p, (n - 1) as nat, answers);
        let before = events_in(p, (n - 1) as nat);
        let t = answered_run(s, before, answers);
        runs_join(s, before, events_of(content[n - 1]), answers);
        ends_undo_starts(t, content[n - 1], answers);
    }
}

/// Whether at most one of these is the case: a code block is open, an image is
/// open, a picture is awaited.
pub open spec fn one_at_a_time(s: State) -> bool {
    &&& !(s.code is Some && s.image is Some)
    &&& !(s.code is Some && s.asked is Some)
    &&& !(s.image is Some && s.asked is Some)
}

/// No code block and no image is open while a picture is awaited, nor both at
/// once: every event and every answer keeps it so.
pub proof fn nothing_is_open_while_asking(s: State, e: EventView, picture: Option<PictureView>)
    requires
        one_at_a_time(s),
    ensures
        one_at_a_time(s.event(e).0),
        one_at_a_time(s.answer(picture)),
        s.event(e).1 is Some <==> s.event(e).0.asked is Some,
{
    answer_levels(s, picture);
    answer_levels(s, None);
    let a = s.answer(None);
    match a.code {
        Some(code) => {
            code_stays_apart(State { code: None, ..a }, code, None);
        },
        None => match a.image {
            Some(cap) => {
                image_stays_apart(State { image: None, ..a }, cap, None);
            },
            None => {
                match e {
                    EventView::Start(tag) => {
                        state::starts_plainly(a, tag);
                        start_levels(a, tag);
                    },
                    EventView::End(tag) => {
                        state::ends_plainly(a, tag);
                        end_closes(a, tag);
                    },
                    _ => {
                        single_levels(a, e);
                        reveal(after);
                    },
                }
            },
        },
    }
}

proof fn end_closes(s: State, tag: pulldown_cmark::TagEnd)
    requires
        s.asked is None,
        s.code is None,
        s.image is None,
    ensures
        s.end_tag(tag).asked is None,
        s.end_tag(tag).code is None,
        s.end_tag(tag).image is None,
{
    reveal(State::end_tag);
    flush_stays_apart(s);
    match s.table {
        Some(t) => {
            let n = State { table: None, ..s };
            lines_stay_apart(n, table::table_lines(t, n.avail()));
        },
        None => {},
    }
}

/// The grid that a picture is queued in stays within the columns there are, the
/// height cap and the picture's own size; its id is a nonzero number of 24 bits;
/// and the queue gains that picture and nothing else.
pub proof fn queued_grids_fit(s: State, p: PictureView)
    requires
        s.queue(p) is Some,
        state::image_at(s.images, state::image_id(p.png), 0) >= s.images.len(),
    ensures
        ({
            let (t, id, cols, rows) = s.queue(p)->0;
            let size = crate::images::size_of(p.png)->0;
            &&& s.image_mode matches state::ImageMode::Kitty { cell_w, cell_h } && 1 <= cols
                <= state::least(s.avail(), state::cells_for(size.0, cell_w)) && 1 <= rows
                <= state::least(state::MAX_IMAGE_ROWS as nat, state::cells_for(size.1, cell_h))
            &&& 1 <= id <= 0xff_ffff
            &&& t.images == s.images.push(state::ImageView { id, png: p.png, cols, rows })
        }),
{
    let size = crate::images::size_of(p.png)->0;
    if let state::ImageMode::Kitty { cell_w, cell_h } = s.image_mode {
        cells_are_reached(size.0, cell_w);
        cells_are_reached(size.1, cell_h);
    }
}

proof fn cells_are_reached(pixels: u32, cell: u16)
    requires
        pixels >= 1,
    ensures
        state::cells_for(pixels, cell) >= 1,
{
    let c: int = if cell < 1 {
        1
    } else {
        cell as int
    };
    assert((pixels + c - 1) / c >= 1) by (nonlinear_arith)
        requires
            c >= 1,
            pixels >= 1,
    ;
}

proof fn queued_last(images: Seq<state::ImageView>, id: u32, image: state::ImageView, from: int)
    requires
        0 <= from <= images.len(),
        state::image_at(images, id, from) >= images.len(),
        image.id == id,
    ensures
        state::image_at(images.push(image), id, from) == images.len(),
    decreases images.len() - from,
{
    let r = images.push(image);
    if from < images.len() {
        assert(r[from] == images[from]);
        queued_last(images, id, image, from + 1);
    }
}

/// The same content queued again is shown by the same id in the same grid, and
/// the queue does not change.
pub proof fn queueing_again_changes_nothing(s: State, p: PictureView, again: PictureView)
    requires
        s.queue(p) is Some,
        again.png == p.png,
    ensures
        ({
            let (t, id, cols, rows) = s.queue(p)->0;
            t.queue(again) == Some((t, id, cols, rows))
        }),
{
    let id = state::image_id(p.png);
    if state::image_at(s.images, id, 0) >= s.images.len() {
        let (t, _, cols, rows) = s.queue(p)->0;
        queued_last(s.images, id, state::ImageView { id, png: p.png, cols, rows }, 0);
    }
}

/// The grid of a picture is the one that is asked for, where it stays within the columns
/// there are, the height cap and the cells of the picture at its own size; each side
/// that is too long is as long as may be, and none is empty.
pub proof fn grids_are_as_asked(p: PictureView, size: (u32, u32), cell: (u16, u16), avail: nat)
    requires
        avail >= 1,
        size.0 >= 1,
        size.1 >= 1,
        cell.0 >= 1,
        cell.1 >= 1,
    ensures
        ({
            let (cols, rows) = state::picture_grid(p, size, cell, avail);
            let wide = (size.0 + cell.0 - 1) / (cell.0 as int);
            let high = (size.1 + cell.1 - 1) / (cell.1 as int);
            &&& 1 <= p.cols <= avail && p.cols <= wide ==> cols == p.cols
            &&& p.cols > avail || p.cols > wide ==> cols == avail || cols == wide
            &&& p.cols == 0 ==> cols == 1
            &&& 1 <= p.rows <= 24 && p.rows <= high ==> rows == p.rows
            &&& p.rows > 24 || p.rows > high ==> rows == 24 || rows == high
            &&& p.rows == 0 ==> rows == 1
        }),
{
    cells_are_reached(size.0, cell.0);
    cells_are_reached(size.1, cell.1);
}

} // verus!
