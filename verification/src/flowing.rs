//! How blocks follow each other: whatever text is pending is shown before anything else
//! is, and nothing that was shown is lost.

use vstd::prelude::*;
use crate::blocks;
use crate::event;
use crate::event::{EventView, TagView};
use crate::paragraphs;
use crate::state;
use crate::state::State;
use crate::strings;
use crate::table::Align;
use crate::text;
use crate::text::SpanView;
use crate::wrap;

verus! {

/// Whether a render shows what it showed before and, right below that, some lines, and
/// perhaps more.
pub open spec fn shows_first(before: State, after: State, lines: Seq<Seq<SpanView>>) -> bool {
    let n = before.lines.len();
    &&& after.lines.len() >= n + lines.len()
    &&& forall|i: int| 0 <= i < n ==> #[trigger] after.lines[i] == before.lines[i]
    &&& forall|i: int|
        0 <= i < lines.len() ==> blocks::reads(
            #[trigger] after.lines[n + i],
            blocks::lead(before.prefixes, i) + lines[i],
        )
}

/// The lines that pending text comes to: none where there is none.
pub open spec fn pending(s: State) -> Seq<Seq<SpanView>> {
    if s.inline.len() == 0 {
        seq![]
    } else {
        wrap::wrapped(s.inline, s.avail())
    }
}

/// Whether an event starts or ends a block.
pub open spec fn is_block(e: EventView) -> bool {
    match e {
        EventView::Start(tag) => tag is Paragraph || tag is Heading || tag is BlockQuote
            || tag is CodeBlock || tag is HtmlBlock || tag is List || tag is Item
            || tag is FootnoteDefinition || tag is Table,
        EventView::End(tag) => tag is Paragraph || tag is Heading || tag is BlockQuote
            || tag is HtmlBlock || tag is Item || tag is FootnoteDefinition,
        EventView::Rule => true,
        _ => false,
    }
}

/// Whether one render shows all that another does, and perhaps more.
spec fn goes_on(a: State, b: State) -> bool {
    &&& a.lines.len() <= b.lines.len()
    &&& forall|i: int| 0 <= i < a.lines.len() ==> #[trigger] b.lines[i] == a.lines[i]
}

proof fn flush_is_first(s: State, t: State)
    requires
        goes_on(s.flush_inline(), t),
    ensures
        shows_first(s, t, pending(s)),
{
    let f = s.flush_inline();
    reveal(State::flush_inline);
    let n = s.lines.len() as int;
    if s.inline.len() > 0 {
        paragraphs::flushed_shows(s);
    }
    let lines = pending(s);
    assert forall|i: int| 0 <= i < n implies #[trigger] t.lines[i] == s.lines[i] by {
        assert(t.lines[i] == f.lines[i]);
    }
    assert forall|i: int| 0 <= i < lines.len() implies blocks::reads(
        #[trigger] t.lines[n + i],
        blocks::lead(s.prefixes, i) + lines[i],
    ) by {
        assert(t.lines[n + i] == f.lines[n + i]);
    }
}

proof fn block_goes_on(s: State)
    ensures
        goes_on(s.flush_inline(), s.block_start()),
{
}

proof fn start_goes_on(s: State, tag: TagView)
    requires
        is_block(EventView::Start(tag)),
    ensures
        goes_on(s.flush_inline(), s.start_tag(tag)),
        s.start_tag(tag).inline.len() == 0,
{
    reveal(State::start_tag);
    block_goes_on(s);
    blocks::block_start_keeps(s);
    blocks::flush_keeps(s);
}

proof fn end_goes_on(s: State, tag: pulldown_cmark::TagEnd)
    requires
        is_block(EventView::End(tag)),
    ensures
        goes_on(s.flush_inline(), s.end_tag(tag)),
        s.end_tag(tag).inline.len() == 0,
{
    state::end_tag_plainly(s, tag);
    blocks::flush_keeps(s);
}

/// Pending text is shown as soon as a block starts or ends, below what was shown
/// before and above anything else, and is pending no more: nothing that a document
/// says between two blocks is lost or comes too late.
pub proof fn pending_text_is_shown(s: State, e: EventView)
    requires
        blocks::outside(s),
        is_block(e),
    ensures
        shows_first(s, s.event(e).0, pending(s)),
        s.event(e).0.inline.len() == 0,
{
    blocks::plainly(s, e);
    match e {
        EventView::Start(tag) => {
            state::starts_plainly(s, tag);
            start_goes_on(s, tag);
        },
        EventView::End(tag) => {
            state::ends_plainly(s, tag);
            end_goes_on(s, tag);
        },
        _ => {
            reveal(State::plain_event);
            block_goes_on(s);
            blocks::block_start_keeps(s);
        },
    }
    flush_is_first(s, s.event(e).0);
}

/// Every block is parted from what is above it as a paragraph is.
pub proof fn blocks_start_alike(s: State, info: Option<Seq<char>>, level: u8, aligns: Seq<Align>)
    requires
        blocks::outside(s),
    ensures
        ({
            let p = s.event(EventView::Start(TagView::Paragraph)).0;
            let c = s.event(EventView::Start(TagView::CodeBlock(info))).0;
            let h = s.event(EventView::Start(TagView::Heading(level))).0;
            let t = s.event(EventView::Start(TagView::Table(aligns))).0;
            let m = s.event(EventView::Start(TagView::HtmlBlock)).0;
            &&& c.lines == p.lines && c.prefixes == p.prefixes && c.at_item_start
                == p.at_item_start
            &&& h.lines == p.lines && h.prefixes == p.prefixes && h.at_item_start
                == p.at_item_start
            &&& t.lines == p.lines && t.prefixes == p.prefixes && t.at_item_start
                == p.at_item_start
            &&& m == p
            &&& !p.at_item_start
        }),
{
    blocks::plainly(s, EventView::Start(TagView::Paragraph));
    blocks::plainly(s, EventView::Start(TagView::CodeBlock(info)));
    blocks::plainly(s, EventView::Start(TagView::Heading(level)));
    blocks::plainly(s, EventView::Start(TagView::Table(aligns)));
    blocks::plainly(s, EventView::Start(TagView::HtmlBlock));
    state::starts_plainly(s, TagView::Paragraph);
    state::starts_plainly(s, TagView::CodeBlock(info));
    state::starts_plainly(s, TagView::Heading(level));
    state::starts_plainly(s, TagView::Table(aligns));
    state::starts_plainly(s, TagView::HtmlBlock);
    state::start_tag_plainly(s, level, info);
    table_starts(s, aligns);
}

proof fn table_starts(s: State, aligns: Seq<Align>)
    ensures
        s.start_tag(TagView::Table(aligns)).lines == s.block_start().lines,
        s.start_tag(TagView::Table(aligns)).prefixes == s.block_start().prefixes,
        s.start_tag(TagView::Table(aligns)).at_item_start == s.block_start().at_item_start,
{
    reveal(State::start_tag);
}

/// The end of HTML on lines of its own is that of a paragraph.
pub proof fn html_ends_like_paragraphs(s: State)
    requires
        blocks::outside(s),
    ensures
        s.event(EventView::End(pulldown_cmark::TagEnd::HtmlBlock)).0 == s.event(
            EventView::End(pulldown_cmark::TagEnd::Paragraph),
        ).0,
{
    blocks::plainly(s, EventView::End(pulldown_cmark::TagEnd::HtmlBlock));
    blocks::plainly(s, EventView::End(pulldown_cmark::TagEnd::Paragraph));
    state::ends_plainly(s, pulldown_cmark::TagEnd::HtmlBlock);
    state::ends_plainly(s, pulldown_cmark::TagEnd::Paragraph);
    state::end_tag_plainly(s, pulldown_cmark::TagEnd::HtmlBlock);
    state::end_tag_plainly(s, pulldown_cmark::TagEnd::Paragraph);
}

/// An item without paragraphs shows its text behind its marker.
pub proof fn tight_items_show_their_text(s: State, t: Seq<char>)
    requires
        blocks::outside(s),
        s.inline.len() == 0,
    ensures
        ({
            let open = s.event(EventView::Start(TagView::Item)).0;
            let done = open.event(EventView::Text(t)).0.event(
                EventView::End(pulldown_cmark::TagEnd::Item),
            ).0;
            let span = SpanView { text: paragraphs::prose_text(t), style: s.cur_style() };
            &&& shows_first(open, done, wrap::wrapped(seq![span], open.avail()))
            &&& done.lines.len() == open.lines.len() + wrap::wrapped(
                seq![span],
                open.avail(),
            ).len()
            &&& done.prefixes.len() == s.prefixes.len()
            &&& !done.at_item_start
        }),
{
    let start = TagView::Item;
    let end = pulldown_cmark::TagEnd::Item;
    blocks::plainly(s, EventView::Start(start));
    state::starts_plainly(s, start);
    item_opens(s);
    let open = s.start_tag(start);
    paragraphs::takes_text(open, t);
    let full = open.push_inline(paragraphs::prose_text(t), open.cur_style());
    let span = SpanView { text: paragraphs::prose_text(t), style: s.cur_style() };
    assert(full.inline =~= seq![span]);
    pending_text_is_shown(full, EventView::End(end));
    blocks::plainly(full, EventView::End(end));
    state::ends_plainly(full, end);
    state::end_tag_plainly(full, end);
    paragraphs::flushed_shows(full);
    blocks::pushed_lines_show(State { inline: seq![], ..full }, pending(full));
}

proof fn item_opens(s: State)
    requires
        s.inline.len() == 0,
    ensures
        ({
            let open = s.start_tag(TagView::Item);
            &&& open.inline == s.inline
            &&& open.lines == s.lines
            &&& open.styles == s.styles
            &&& open.prefixes.len() == s.prefixes.len() + 1
            &&& open.code == s.code && open.image == s.image && open.asked == s.asked
        }),
{
    reveal(State::start_tag);
    reveal(State::flush_inline);
}

// Documents.

proof fn only_blanks_go(lines: Seq<Seq<SpanView>>)
    ensures
        ({
            let kept = state::without_blank_end(lines);
            &&& kept.len() <= lines.len()
            &&& forall|i: int| 0 <= i < kept.len() ==> #[trigger] kept[i] == lines[i]
            &&& forall|i: int|
                kept.len() <= i < lines.len() ==> strings::all_white(
                    text::line_text(#[trigger] lines[i]),
                )
        }),
    decreases lines.len(),
{
    if lines.len() > 0 && strings::all_white(text::line_text(lines.last())) {
        let d = lines.drop_last();
        only_blanks_go(d);
        let kept = state::without_blank_end(lines);
        assert forall|i: int| 0 <= i < kept.len() implies #[trigger] kept[i] == lines[i] by {
            assert(kept[i] == d[i]);
        }
        assert forall|i: int| kept.len() <= i < lines.len() implies strings::all_white(
            text::line_text(#[trigger] lines[i]),
        ) by {
            if i < d.len() {
                assert(d[i] == lines[i]);
            }
        }
    }
}

/// A document is all that was shown, with the pending text below it, but for blank
/// lines at its end; and all headings and images.
pub proof fn documents_are_complete(s: State)
    requires
        blocks::outside(s),
    ensures
        ({
            let d = s.document();
            exists|end: State|
                #![trigger shows_first(s, end, pending(s))]
                shows_first(s, end, pending(s)) && end.lines.len() == s.lines.len() + pending(
                    s,
                ).len() && d.lines.len() <= end.lines.len() && (forall|i: int|
                    0 <= i < d.lines.len() ==> #[trigger] d.lines[i] == end.lines[i]) && (forall|
                    i: int,
                |
                    d.lines.len() <= i < end.lines.len() ==> strings::all_white(
                        text::line_text(#[trigger] end.lines[i]),
                    ))
        }),
        s.document().headings == s.headings,
        s.document().images == s.images,
{
    assert(s.answer(None) == s);
    let end = s.flush_inline();
    blocks::flush_keeps(s);
    flush_is_first(s, end);
    reveal(State::flush_inline);
    if s.inline.len() > 0 {
        blocks::pushed_lines_show(State { inline: seq![], ..s }, pending(s));
    }
    only_blanks_go(end.lines);
    assert(shows_first(s, end, pending(s)));
}

/// What is read of the alignment of a column and the level of a heading.
pub proof fn elements_are_read()
    ensures
        event::align_of(pulldown_cmark::Alignment::None) == Align::Unset,
        event::align_of(pulldown_cmark::Alignment::Left) == Align::Left,
        event::align_of(pulldown_cmark::Alignment::Center) == Align::Center,
        event::align_of(pulldown_cmark::Alignment::Right) == Align::Right,
        event::level_number(pulldown_cmark::HeadingLevel::H1) == 1,
        event::level_number(pulldown_cmark::HeadingLevel::H2) == 2,
        event::level_number(pulldown_cmark::HeadingLevel::H3) == 3,
        event::level_number(pulldown_cmark::HeadingLevel::H4) == 4,
        event::level_number(pulldown_cmark::HeadingLevel::H5) == 5,
        event::level_number(pulldown_cmark::HeadingLevel::H6) == 6,
        event::tag_view(pulldown_cmark::Tag::Emphasis) is Emphasis,
        event::tag_view(pulldown_cmark::Tag::Strong) is Strong,
        event::tag_view(pulldown_cmark::Tag::Strikethrough) is Strikethrough,
        event::event_view(pulldown_cmark::Event::SoftBreak) is SoftBreak,
        event::event_view(pulldown_cmark::Event::HardBreak) is HardBreak,
        event::event_view(pulldown_cmark::Event::Rule) is Rule,
        event::event_view(pulldown_cmark::Event::TaskListMarker(true))
            == EventView::TaskListMarker(true),
        event::event_view(pulldown_cmark::Event::TaskListMarker(false))
            == EventView::TaskListMarker(false),
{
}

} // verus!
