//! What is shown of text: a paragraph shows its words, whole, apart and in order.

use vstd::prelude::*;
use crate::blocks;
use crate::event::{EventView, TagView};
use crate::prose;
use crate::state;
use crate::state::State;
use crate::text;
use crate::text::SpanView;
use crate::words;
use crate::wrap;

verus! {

/// Text of a document as it is shown: tabs expanded, carriage returns gone, and the
/// names of emoji replaced.
pub open spec fn prose_text(t: Seq<char>) -> Seq<char> {
    prose::replaced(prose::expanded(t))
}

/// Whether an event adds to the text of a block or to how it looks.
pub open spec fn is_inline(e: EventView) -> bool {
    match e {
        EventView::Start(tag) => tag is Emphasis || tag is Strong || tag is Strikethrough
            || tag is Link,
        EventView::End(tag) => tag is Emphasis || tag is Strong || tag is Strikethrough
            || tag is Link,
        EventView::Rule => false,
        _ => true,
    }
}

/// What an event adds to the text of a block.
pub open spec fn says(e: EventView) -> Seq<char> {
    match e {
        EventView::Text(t) => prose_text(t),
        EventView::Code(t) => prose::expanded(t),
        EventView::Html(t) => prose::expanded(t),
        EventView::InlineHtml(t) => prose::expanded(t),
        EventView::InlineMath(t) => prose::expanded(t),
        EventView::DisplayMath(t) => prose::expanded(t),
        EventView::SoftBreak => seq![' '],
        EventView::HardBreak => seq!['\n'],
        EventView::TaskListMarker(done) => if done {
            seq!['☑', ' ']
        } else {
            seq!['☐', ' ']
        },
        EventView::FootnoteReference(name) => seq!['[', '^'] + name + seq![']'],
        _ => seq![],
    }
}

/// What events add to the text of a block.
pub open spec fn said(es: Seq<EventView>) -> Seq<char>
    decreases es.len(),
{
    if es.len() == 0 {
        seq![]
    } else {
        said(es.drop_last()) + says(es.last())
    }
}

pub open spec fn all_inline(es: Seq<EventView>) -> bool {
    forall|i: int| 0 <= i < es.len() ==> is_inline(#[trigger] es[i])
}

proof fn inline_tag(s: State, e: EventView)
    requires
        blocks::outside(s),
        is_inline(e),
        e is Start || e is End,
    ensures
        ({
            let r = s.event(e).0;
            r == (State { styles: r.styles, ..s })
        }),
{
    blocks::plainly(s, e);
    let r = s.event(e).0;
    match e {
        EventView::Start(tag) => {
            state::starts_plainly(s, tag);
            reveal(State::start_tag);
        },
        EventView::End(tag) => {
            state::ends_plainly(s, tag);
            state::end_tag_plainly(s, tag);
        },
        _ => {},
    }
    assert(r =~= State { styles: r.styles, ..s });
}

proof fn literal_texts()
    ensures
        " "@ == seq![' '],
        "\n"@ == seq!['\n'],
        "☑ "@ == seq!['☑', ' '],
        "☐ "@ == seq!['☐', ' '],
        "[^"@ == seq!['[', '^'],
        "]"@ == seq![']'],
{
    reveal_strlit(" ");
    reveal_strlit("\n");
    reveal_strlit("☑ ");
    reveal_strlit("☐ ");
    reveal_strlit("[^");
    reveal_strlit("]");
    assert(" "@ =~= seq![' ']);
    assert("\n"@ =~= seq!['\n']);
    assert("☑ "@ =~= seq!['☑', ' ']);
    assert("☐ "@ =~= seq!['☐', ' ']);
    assert("[^"@ =~= seq!['[', '^']);
    assert("]"@ =~= seq![']']);
}

proof fn inline_text(s: State, e: EventView)
    requires
        blocks::outside(s),
        is_inline(e),
        !(e is Start) && !(e is End),
    ensures
        ({
            let r = s.event(e).0;
            r == s.push_inline(says(e), r.inline.last().style)
        }),
{
    blocks::plainly(s, e);
    literal_texts();
    reveal(State::plain_event);
}

proof fn inline_event(s: State, e: EventView)
    requires
        blocks::outside(s),
        is_inline(e),
    ensures
        ({
            let r = s.event(e).0;
            &&& r == (State { inline: r.inline, styles: r.styles, ..s })
            &&& text::line_text(r.inline) == text::line_text(s.inline) + says(e)
            &&& s.inline.len() <= r.inline.len()
        }),
{
    let r = s.event(e).0;
    let t = text::line_text(s.inline);
    if e is Start || e is End {
        inline_tag(s, e);
        assert(t + says(e) =~= t);
    } else {
        inline_text(s, e);
        assert(r.inline.drop_last() =~= s.inline);
    }
}

/// The text of a block is what its events add, in order, and shows nothing before the
/// block ends.
pub proof fn text_is_taken_in_order(s: State, es: Seq<EventView>)
    requires
        blocks::outside(s),
        all_inline(es),
    ensures
        ({
            let r = s.events(es);
            &&& r == (State { inline: r.inline, styles: r.styles, ..s })
            &&& text::line_text(r.inline) == text::line_text(s.inline) + said(es)
            &&& s.inline.len() <= r.inline.len()
        }),
    decreases es.len(),
{
    if es.len() == 0 {
        assert(text::line_text(s.inline) + said(es) =~= text::line_text(s.inline));
        assert(s =~= State { inline: s.inline, styles: s.styles, ..s });
    } else {
        let d = es.drop_last();
        assert forall|i: int| 0 <= i < d.len() implies is_inline(#[trigger] d[i]) by {
            assert(d[i] == es[i]);
        }
        text_is_taken_in_order(s, d);
        assert(es.last() == es[es.len() - 1]);
        inline_event(s.events(d), es.last());
        let a = text::line_text(s.inline);
        assert(a + said(d) + says(es.last()) =~= a + said(es));
    }
}

/// What is flushed is shown, wrapped.
pub proof fn flushed_shows(s: State)
    requires
        s.inline.len() > 0,
    ensures
        blocks::shows(s, s.flush_inline(), wrap::wrapped(s.inline, s.avail())),
        s.flush_inline() == (State { inline: seq![], ..s }).push_lines(
            wrap::wrapped(s.inline, s.avail()),
        ),
{
    reveal(State::flush_inline);
    let t = State { inline: seq![], ..s };
    blocks::pushed_lines_show(t, wrap::wrapped(s.inline, s.avail()));
}

proof fn paragraph_opens(s: State)
    requires
        blocks::outside(s),
    ensures
        ({
            let open = s.event(EventView::Start(TagView::Paragraph)).0;
            blocks::outside(open) && open.inline.len() == 0 && open.styles == s.styles && open.width
                == s.width
        }),
{
    blocks::plainly(s, EventView::Start(TagView::Paragraph));
    state::starts_plainly(s, TagView::Paragraph);
    state::start_tag_plainly(s, 0, None);
    blocks::block_start_keeps(s);
}

proof fn paragraph_ends(s: State)
    requires
        blocks::outside(s),
    ensures
        s.event(EventView::End(pulldown_cmark::TagEnd::Paragraph)).0 == s.flush_inline(),
{
    blocks::plainly(s, EventView::End(pulldown_cmark::TagEnd::Paragraph));
    state::ends_plainly(s, pulldown_cmark::TagEnd::Paragraph);
    state::end_tag_plainly(s, pulldown_cmark::TagEnd::Paragraph);
}

/// A paragraph shows its words, whole, apart and in order: whatever it is made of,
/// where every word of it has room on a line, the words of its lines are those of its
/// text.
pub proof fn paragraphs_show_their_words(s: State, es: Seq<EventView>)
    requires
        blocks::outside(s),
        all_inline(es),
        ({
            let open = s.event(EventView::Start(TagView::Paragraph)).0;
            words::words_have_room(open.events(es).inline, open.avail())
        }),
    ensures
        ({
            let open = s.event(EventView::Start(TagView::Paragraph)).0;
            let done = open.events(
                es.push(EventView::End(pulldown_cmark::TagEnd::Paragraph)),
            );
            exists|lines: Seq<Seq<SpanView>>|
                #![trigger blocks::shows(open, done, lines)]
                blocks::shows(open, done, lines) && words::words(words::page(lines)) == words::words(
                    said(es),
                )
        }),
{
    let open = s.event(EventView::Start(TagView::Paragraph)).0;
    let end = EventView::End(pulldown_cmark::TagEnd::Paragraph);
    paragraph_opens(s);
    text_is_taken_in_order(open, es);
    let full = open.events(es);
    assert(es.push(end).drop_last() =~= es);
    paragraph_ends(full);
    let done = open.events(es.push(end));
    assert(text::line_text(open.inline) + said(es) =~= said(es));
    if full.inline.len() == 0 {
        let none = Seq::<Seq<SpanView>>::empty();
        reveal(State::flush_inline);
        assert(blocks::shows(open, done, none));
        assert(said(es).len() == 0);
        assert(said(es) =~= words::page(none));
    } else {
        flushed_shows(full);
        words::wrapping_keeps_words(full.inline, full.avail());
        assert(blocks::shows(open, done, wrap::wrapped(full.inline, full.avail())));
    }
}

/// The text of a paragraph over two lines of the source.
pub open spec fn two_lines(a: Seq<char>, b: Seq<char>, brk: EventView) -> Seq<EventView> {
    seq![EventView::Text(a), brk, EventView::Text(b)]
}

proof fn two_lines_say(a: Seq<char>, b: Seq<char>, brk: EventView)
    ensures
        said(two_lines(a, b, brk)) == prose_text(a) + says(brk) + prose_text(b),
{
    let es = two_lines(a, b, brk);
    let e2 = es.drop_last();
    let e1 = e2.drop_last();
    assert(e2 =~= seq![EventView::Text(a), brk]);
    assert(e1 =~= seq![EventView::Text(a)]);
    assert(e1.drop_last() =~= Seq::<EventView>::empty());
    assert(said(e1.drop_last()) =~= seq![]);
    assert(e1.last() == EventView::Text(a));
    assert(e2.last() == brk);
    assert(es.last() == EventView::Text(b));
    assert(said(e1) =~= prose_text(a));
    assert(said(e2) == said(e1) + says(brk));
}

/// A run of three events.
pub proof fn events_three(s: State, a: EventView, b: EventView, c: EventView)
    ensures
        s.events(seq![a, b, c]) == s.event(a).0.event(b).0.event(c).0,
{
    let es = seq![a, b, c];
    assert(es.drop_last() =~= seq![a, b]);
    assert(seq![a, b].drop_last() =~= seq![a]);
    assert(es.last() == c && seq![a, b].last() == b);
    blocks::events_one(s, a);
    assert(s.events(seq![a, b]) == s.events(seq![a]).event(b).0);
}

/// Text is added in the current style.
pub proof fn takes_text(s: State, t: Seq<char>)
    requires
        blocks::outside(s),
    ensures
        s.event(EventView::Text(t)).0 == s.push_inline(prose_text(t), s.cur_style()),
{
    blocks::plainly(s, EventView::Text(t));
    reveal(State::plain_event);
}

proof fn takes_break(s: State, brk: EventView)
    requires
        blocks::outside(s),
        brk is SoftBreak || brk is HardBreak,
    ensures
        s.event(brk).0 == s.push_inline(says(brk), s.cur_style()),
{
    inline_text(s, brk);
    blocks::plainly(s, brk);
    reveal(State::plain_event);
}

/// A soft break parts words: the text of a paragraph over two lines of the source has
/// the words of the one line and then those of the other.
pub proof fn soft_breaks_part_words(a: Seq<char>, b: Seq<char>)
    ensures
        words::words(said(two_lines(a, b, EventView::SoftBreak))) == words::words(prose_text(a))
            + words::words(prose_text(b)),
{
    two_lines_say(a, b, EventView::SoftBreak);
    words::words_stay_apart(prose_text(a), ' ', prose_text(b));
    assert(prose_text(a) + seq![' '] =~= prose_text(a).push(' '));
}

proof fn two_lines_taken(s: State, a: Seq<char>, b: Seq<char>, brk: EventView)
    requires
        blocks::outside(s),
        s.inline.len() == 0,
        brk is SoftBreak || brk is HardBreak,
    ensures
        ({
            let style = s.cur_style();
            s.events(two_lines(a, b, brk)).inline == seq![
                SpanView { text: prose_text(a), style },
                SpanView { text: says(brk), style },
                SpanView { text: prose_text(b), style },
            ]
        }),
        s.events(two_lines(a, b, brk)) == (State {
            inline: s.events(two_lines(a, b, brk)).inline,
            ..s
        }),
{
    events_three(s, EventView::Text(a), brk, EventView::Text(b));
    takes_text(s, a);
    let style = s.cur_style();
    let s1 = s.push_inline(prose_text(a), style);
    takes_break(s1, brk);
    let s2 = s1.push_inline(says(brk), style);
    takes_text(s2, b);
    let s3 = s2.push_inline(prose_text(b), style);
    assert(s3.inline =~= seq![
        SpanView { text: prose_text(a), style },
        SpanView { text: says(brk), style },
        SpanView { text: prose_text(b), style },
    ]);
}

proof fn two_lines_shown(open: State, a: Seq<char>, b: Seq<char>, brk: EventView)
    requires
        blocks::outside(open),
        open.inline.len() == 0,
        brk is SoftBreak || brk is HardBreak,
    ensures
        ({
            let done = open.events(
                two_lines(a, b, brk).push(EventView::End(pulldown_cmark::TagEnd::Paragraph)),
            );
            let style = open.cur_style();
            blocks::shows(
                open,
                done,
                wrap::wrapped(
                    seq![
                        SpanView { text: prose_text(a), style },
                        SpanView { text: says(brk), style },
                        SpanView { text: prose_text(b), style },
                    ],
                    open.avail(),
                ),
            )
        }),
{
    let es = two_lines(a, b, brk);
    let end = EventView::End(pulldown_cmark::TagEnd::Paragraph);
    two_lines_taken(open, a, b, brk);
    let full = open.events(es);
    assert(es.push(end).drop_last() =~= es);
    paragraph_ends(full);
    flushed_shows(full);
    assert(open.events(es.push(end)) == full.flush_inline());
}

/// A paragraph over two lines of the source that fits on a line of the screen is one:
/// its words, a space apart.
pub proof fn short_paragraphs_are_one_line(s: State, a: Seq<char>, b: Seq<char>)
    requires
        blocks::outside(s),
        !prose_text(a).contains('\n'),
        !prose_text(b).contains('\n'),
        ({
            let open = s.event(EventView::Start(TagView::Paragraph)).0;
            let spans = open.events(two_lines(a, b, EventView::SoftBreak)).inline;
            &&& words::words_have_room(spans, open.avail())
            &&& words::need(
                wrap::tokens(spans),
                |f: Seq<SpanView>| text::line_width(f),
            ) <= open.avail()
        }),
    ensures
        ({
            let open = s.event(EventView::Start(TagView::Paragraph)).0;
            let done = open.events(
                two_lines(a, b, EventView::SoftBreak).push(
                    EventView::End(pulldown_cmark::TagEnd::Paragraph),
                ),
            );
            let ws = words::words(prose_text(a)) + words::words(prose_text(b));
            &&& done.lines.len() == open.lines.len() + 1
            &&& text::line_text(done.lines.last()) == text::line_text(blocks::lead(open.prefixes, 0))
                + words::spaced(ws)
        }),
{
    let open = s.event(EventView::Start(TagView::Paragraph)).0;
    let es = two_lines(a, b, EventView::SoftBreak);
    paragraph_opens(s);
    two_lines_taken(open, a, b, EventView::SoftBreak);
    two_lines_shown(open, a, b, EventView::SoftBreak);
    let spans = open.events(es).inline;
    three_texts(spans[0], spans[1], spans[2]);
    two_lines_say(a, b, EventView::SoftBreak);
    soft_breaks_part_words(a, b);
    assert(words::unbroken(spans)) by {
        assert(!seq![' '].contains('\n'));
    }
    words::short_text_is_one_line(spans, open.avail());
    let lines = wrap::wrapped(spans, open.avail());
    let done = open.events(es.push(EventView::End(pulldown_cmark::TagEnd::Paragraph)));
    one_line_shown(open, done, lines);
}

proof fn one_line_shown(before: State, after: State, lines: Seq<Seq<SpanView>>)
    requires
        blocks::shows(before, after, lines),
        lines.len() == 1,
    ensures
        after.lines.len() == before.lines.len() + 1,
        text::line_text(after.lines.last()) == text::line_text(blocks::lead(before.prefixes, 0))
            + text::line_text(lines[0]),
{
    let n = before.lines.len() as int;
    assert(after.lines.last() == after.lines[n + 0]);
    words::text_of_sum(blocks::lead(before.prefixes, 0), lines[0]);
}

proof fn three_texts(a: SpanView, b: SpanView, c: SpanView)
    ensures
        text::line_text(seq![a, b, c]) == a.text + b.text + c.text,
{
    assert(seq![a, b, c].drop_last() =~= seq![a, b]);
    assert(seq![a, b].drop_last() =~= seq![a]);
    one_text(a);
    assert(text::line_text(seq![a, b]) == a.text + b.text);
}

/// A hard break ends the line: what comes before it and what comes after it are
/// wrapped on their own, one below the other.
pub proof fn hard_breaks_end_lines(s: State, a: Seq<char>, b: Seq<char>)
    requires
        blocks::outside(s),
        words::ends_visibly(prose_text(a)),
        words::ends_visibly(prose_text(b)),
    ensures
        ({
            let open = s.event(EventView::Start(TagView::Paragraph)).0;
            let done = open.events(
                two_lines(a, b, EventView::HardBreak).push(
                    EventView::End(pulldown_cmark::TagEnd::Paragraph),
                ),
            );
            let style = open.cur_style();
            blocks::shows(
                open,
                done,
                wrap::wrapped(seq![SpanView { text: prose_text(a), style }], open.avail())
                    + wrap::wrapped(seq![SpanView { text: prose_text(b), style }], open.avail()),
            )
        }),
{
    let open = s.event(EventView::Start(TagView::Paragraph)).0;
    paragraph_opens(s);
    two_lines_shown(open, a, b, EventView::HardBreak);
    let style = open.cur_style();
    let sa = seq![SpanView { text: prose_text(a), style }];
    let sb = seq![SpanView { text: prose_text(b), style }];
    one_text(sa[0]);
    one_text(sb[0]);
    words::breaks_end_lines(sa, style, sb, open.avail());
    assert(seq![
        SpanView { text: prose_text(a), style },
        SpanView { text: says(EventView::HardBreak), style },
        SpanView { text: prose_text(b), style },
    ] =~= sa.push(SpanView { text: seq!['\n'], style }) + sb);
}

/// The text of one span.
pub proof fn one_text(s: SpanView)
    ensures
        text::line_text(seq![s]) == s.text,
{
    assert(seq![s].drop_last() =~= seq![]);
    assert(text::line_text(seq![s].drop_last()) =~= seq![]);
    assert(text::line_text(seq![s]) =~= s.text);
}

} // verus!
