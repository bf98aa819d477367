//! What is shown of headings, quotes, lists, rules and images.

use vstd::prelude::*;
use crate::blocks;
use crate::event;
use crate::event::{EventView, TagView};
use crate::numbers;
use crate::paragraphs;
use crate::state;
use crate::state::{CaptureView, HeadingView, PrefixView, State, TermTheme};
use crate::strings;
use crate::text;
use crate::text::{Color, SpanView, StyleView};
use crate::width;
use crate::wrap;

verus! {

/// Plain text in a color.
pub open spec fn in_color(fg: Color) -> StyleView {
    StyleView { fg: Some(fg), ..text::plain_style() }
}

proof fn starts(s: State, tag: TagView)
    requires
        blocks::outside(s),
    ensures
        s.event(EventView::Start(tag)).0 == s.start_tag(tag),
{
    blocks::plainly(s, EventView::Start(tag));
    state::starts_plainly(s, tag);
}

proof fn ends(s: State, tag: pulldown_cmark::TagEnd)
    requires
        blocks::outside(s),
    ensures
        s.event(EventView::End(tag)).0 == s.end_tag(tag),
{
    blocks::plainly(s, EventView::End(tag));
    state::ends_plainly(s, tag);
}

// Blocks.

/// Whether a line shows nothing but the bars of quotes.
pub open spec fn is_blank(line: Seq<SpanView>) -> bool {
    forall|i: int|
        0 <= i < text::line_text(line).len() ==> strings::is_white(
            #[trigger] text::line_text(line)[i],
        ) || text::line_text(line)[i] == '▎'
}

/// A blank line parts a block from the text above it: one, where the text has no blank
/// line at its end, and none at the start of the document or of an item.
pub proof fn blocks_are_parted(s: State)
    requires
        blocks::outside(s),
        s.inline.len() == 0,
    ensures
        ({
            let open = s.event(EventView::Start(TagView::Paragraph)).0;
            let above = s.lines;
            if s.at_item_start || above.len() == 0 || is_blank(above.last()) {
                open.lines == above
            } else {
                &&& open.lines.len() == above.len() + 1
                &&& open.lines.drop_last() == above
                &&& text::line_text(open.lines.last()) == text::line_text(below(s.prefixes))
            }
        }),
{
    starts(s, TagView::Paragraph);
    state::start_tag_plainly(s, 0, None);
    reveal(State::flush_inline);
    let open = s.event(EventView::Start(TagView::Paragraph)).0;
    let none = Seq::<SpanView>::empty();
    if s.lines.len() > 0 {
        assert(is_blank(s.lines.last()) == state::barren(text::line_text(s.lines.last())));
    }
    if !s.at_item_start && s.lines.len() > 0 && !is_blank(s.lines.last()) {
        assert(open.lines.drop_last() =~= s.lines);
        text::pushes_append_text(none, state::blank_heads(s.prefixes));
        blank_is_below(s.prefixes);
        assert(text::line_text(none) + text::line_text(state::blank_heads(s.prefixes))
            =~= text::line_text(state::blank_heads(s.prefixes)));
    }
}

/// What stands in front of a blank line: what blocks put below their first lines, of
/// those whose first lines have been shown.
pub open spec fn below(prefixes: Seq<PrefixView>) -> Seq<SpanView>
    decreases prefixes.len(),
{
    if prefixes.len() == 0 {
        seq![]
    } else if !prefixes.last().first_done {
        below(prefixes.drop_last())
    } else {
        below(prefixes.drop_last()).push(
            SpanView { text: prefixes.last().rest, style: prefixes.last().style },
        )
    }
}

proof fn blank_is_below(prefixes: Seq<PrefixView>)
    ensures
        state::blank_heads(prefixes) == below(prefixes),
    decreases prefixes.len(),
{
    if prefixes.len() > 0 {
        blank_is_below(prefixes.drop_last());
    }
}

// Headings.

/// The color of a heading.
pub open spec fn heading_color(level: u8, theme: TermTheme) -> Color {
    match level {
        1 => Color::Magenta,
        2 => Color::Cyan,
        3 => Color::Blue,
        4 => Color::Green,
        5 => Color::Yellow,
        _ => if theme == TermTheme::Dark {
            Color::White
        } else {
            Color::Black
        },
    }
}

/// The lines of a heading: its text, wrapped, and for the upper two levels a rule below
/// it that is as long as the text, within one column and those there are.
pub open spec fn heading_lines(
    t: Seq<char>,
    level: u8,
    theme: TermTheme,
    avail: nat,
) -> Seq<Seq<SpanView>> {
    let bold = StyleView { bold: true, ..in_color(heading_color(level, theme)) };
    let text = wrap::wrapped(seq![SpanView { text: t, style: bold }], avail);
    let w = width::str_width(t) as nat;
    let n: nat = if w < 1 {
        1
    } else if w > avail {
        avail
    } else {
        w
    };
    if level == 1 {
        text.push(
            seq![
                SpanView {
                    text: Seq::new(n, |i: int| '━'),
                    style: in_color(heading_color(1, theme)),
                },
            ],
        )
    } else if level == 2 {
        text.push(
            seq![
                SpanView {
                    text: Seq::new(n, |i: int| '─'),
                    style: StyleView { dim: true, ..in_color(heading_color(2, theme)) },
                },
            ],
        )
    } else {
        text
    }
}

/// A heading is listed with its level and text at the line where it is shown, in bold
/// and in the color of its level, with a rule below the upper two levels.
pub proof fn headings_are_listed_and_shown(
    s: State,
    level: pulldown_cmark::HeadingLevel,
    t: Seq<char>,
)
    requires
        blocks::outside(s),
    ensures
        ({
            let n = event::level_number(level);
            let open = s.event(EventView::Start(TagView::Heading(n))).0;
            let done = open.event(EventView::Text(t)).0.event(
                EventView::End(pulldown_cmark::TagEnd::Heading(level)),
            ).0;
            let shown = paragraphs::prose_text(t);
            &&& blocks::shows(open, done, heading_lines(shown, n, s.theme, open.avail()))
            &&& done.headings == s.headings.push(
                HeadingView { line: open.lines.len(), level: n, text: shown },
            )
            &&& done.styles == s.styles
            &&& done.inline.len() == 0
        }),
{
    let n = event::level_number(level);
    let tag = TagView::Heading(n);
    let end = pulldown_cmark::TagEnd::Heading(level);
    starts(s, tag);
    state::start_tag_plainly(s, n, None);
    blocks::block_start_keeps(s);
    let open = s.event(EventView::Start(tag)).0;
    let bold = StyleView { bold: true, ..in_color(heading_color(n, s.theme)) };
    assert(open.cur_style() == bold);
    paragraphs::takes_text(open, t);
    let full = open.event(EventView::Text(t)).0;
    let shown = paragraphs::prose_text(t);
    let span = SpanView { text: shown, style: bold };
    assert(full.inline =~= seq![span]);
    ends(full, end);
    state::end_tag_plainly(full, end);
    paragraphs::flushed_shows(full);
    paragraphs::one_text(span);
    let flat = full.flush_inline();
    blocks::flush_keeps(full);
    let lines = wrap::wrapped(seq![span], open.avail());
    let base = State { inline: seq![], ..full };
    blocks::pushed_lines_show(base, lines);
    rests_stay(base.prefixes);
    assert(open.styles.drop_last() =~= s.styles);
    let mid = State {
        styles: state::popped(flat.styles),
        headings: flat.headings.push(HeadingView { line: full.lines.len(), level: n, text: shown }),
        ..flat
    };
    let done = full.end_heading(n);
    if n <= 2 {
        let w = width::str_width(shown) as nat;
        let k: nat = if w < 1 {
            1
        } else if w > open.avail() {
            open.avail()
        } else {
            w
        };
        let all = heading_lines(shown, n, s.theme, open.avail());
        let rule = all.last();
        assert(all.drop_last() =~= lines);
        assert(mid.avail() == open.avail());
        assert(strings::copies('━', k) =~= Seq::new(k, |i: int| '━'));
        assert(strings::copies('─', k) =~= Seq::new(k, |i: int| '─'));
        assert(done == mid.push_line(rule));
        blocks::pushed_lines_show(base, all);
        assert(base.push_lines(all) == base.push_lines(lines).push_line(rule));
        assert(done.lines == base.push_lines(all).lines);
    } else {
        assert(done == mid);
    }
}

proof fn rests_stay(prefixes: Seq<PrefixView>)
    ensures
        state::rest_width(state::begun(prefixes)) == state::rest_width(prefixes),
    decreases prefixes.len(),
{
    if prefixes.len() > 0 {
        rests_stay(prefixes.drop_last());
        assert(state::begun(prefixes).drop_last() =~= state::begun(prefixes.drop_last()));
    }
}

// Quotes.

/// The color of a quote.
pub open spec fn quote_color(kind: Option<pulldown_cmark::BlockQuoteKind>) -> Color {
    match kind {
        None => Color::DarkGreen,
        Some(pulldown_cmark::BlockQuoteKind::Note) => Color::Blue,
        Some(pulldown_cmark::BlockQuoteKind::Tip) => Color::Green,
        Some(pulldown_cmark::BlockQuoteKind::Important) => Color::Magenta,
        Some(pulldown_cmark::BlockQuoteKind::Warning) => Color::Yellow,
        Some(pulldown_cmark::BlockQuoteKind::Caution) => Color::Red,
    }
}

/// The title of a quote.
pub open spec fn quote_title(kind: pulldown_cmark::BlockQuoteKind) -> Seq<char> {
    match kind {
        pulldown_cmark::BlockQuoteKind::Note => "ℹ️ Note"@,
        pulldown_cmark::BlockQuoteKind::Tip => "💡 Tip"@,
        pulldown_cmark::BlockQuoteKind::Important => "📢 Important"@,
        pulldown_cmark::BlockQuoteKind::Warning => "🚨 Warning"@,
        pulldown_cmark::BlockQuoteKind::Caution => "🛑 Caution"@,
    }
}

/// Every line of a quote stands behind a bar in the color of the quote, inside
/// whatever the quote stands in. A quote of a kind is opened by its title, in bold;
/// when it ends, the bar does.
pub proof fn quotes_are_barred(
    s: State,
    kind: Option<pulldown_cmark::BlockQuoteKind>,
    i: int,
)
    requires
        blocks::outside(s),
    ensures
        ({
            let before = s.event(EventView::Start(TagView::Paragraph)).0;
            let open = s.event(EventView::Start(TagView::BlockQuote(kind))).0;
            let done = open.event(
                EventView::End(pulldown_cmark::TagEnd::BlockQuote(kind)),
            ).0;
            let bar = SpanView { text: seq!['▎', ' '], style: in_color(quote_color(kind)) };
            &&& open.prefixes.len() == before.prefixes.len() + 1
            &&& blocks::lead(open.prefixes, i) == (if kind is Some {
                blocks::lead(state::begun(before.prefixes), i)
            } else {
                blocks::lead(before.prefixes, i)
            }).push(bar)
            &&& kind matches Some(k) ==> {
                let quoted = State { prefixes: before.prefixes.push(open.prefixes.last()), ..before };
                blocks::shows(
                    quoted,
                    open,
                    seq![
                        seq![
                            SpanView {
                                text: quote_title(k),
                                style: StyleView { bold: true, ..in_color(quote_color(kind)) },
                            },
                        ],
                    ],
                )
            }
            &&& kind is None ==> open.lines == before.lines
            &&& done.prefixes == open.prefixes.drop_last()
        }),
{
    reveal_strlit("▎ ");
    assert("▎ "@ =~= seq!['▎', ' ']);
    starts(s, TagView::Paragraph);
    state::start_tag_plainly(s, 0, None);
    blocks::block_start_keeps(s);
    let before = s.block_start();
    starts(s, TagView::BlockQuote(kind));
    let open = s.event(EventView::Start(TagView::BlockQuote(kind))).0;
    let color = quote_color(kind);
    let p = PrefixView {
        first: "▎ "@,
        rest: "▎ "@,
        style: in_color(color),
        first_done: true,
    };
    let quoted = before.push_prefix(p);
    let bar = SpanView { text: seq!['▎', ' '], style: in_color(color) };
    assert(quoted.prefixes.drop_last() =~= before.prefixes);
    reveal(State::start_tag);
    match kind {
        Some(k) => {
            let line = seq![
                SpanView {
                    text: quote_title(k),
                    style: StyleView { bold: true, ..in_color(color) },
                },
            ];
            blocks::pushed_lines_show(quoted, seq![line]);
            assert(seq![line].drop_last() =~= Seq::<Seq<SpanView>>::empty());
            assert(quoted.push_lines(seq![line].drop_last()) == quoted);
            assert(quoted.push_lines(seq![line]) == quoted.push_line(line));
            assert(open == (State { at_item_start: true, ..quoted.push_line(line) }));
            assert(open.prefixes.drop_last() =~= state::begun(before.prefixes));
            assert(open.prefixes.last() == p);
        },
        None => {
            assert(open == quoted);
        },
    }
    assert(open.inline.len() == 0);
    ends(open, pulldown_cmark::TagEnd::BlockQuote(kind));
    state::end_tag_plainly(open, pulldown_cmark::TagEnd::BlockQuote(kind));
    reveal(State::flush_inline);
}

// Lists.

/// The marker of an item: its number, or a bullet that tells how deep the list is.
pub open spec fn item_marker(lists: Seq<Option<u64>>) -> Seq<char> {
    if lists.len() > 0 && lists.last() is Some {
        numbers::decimal_text(lists.last()->0 as nat) + seq!['.', ' ']
    } else if lists.len() == 0 || lists.len() % 3 == 1 {
        seq!['•', ' ']
    } else if lists.len() % 3 == 2 {
        seq!['◦', ' ']
    } else {
        seq!['▪', ' ']
    }
}

/// An item's first line stands behind its marker, and the others behind as many
/// spaces as the marker has columns. The next item of an ordered list has the next
/// number; when the item ends, what it put in front does.
pub proof fn items_are_marked(s: State)
    requires
        blocks::outside(s),
        s.inline.len() == 0,
    ensures
        ({
            let open = s.event(EventView::Start(TagView::Item)).0;
            let done = open.event(EventView::End(pulldown_cmark::TagEnd::Item)).0;
            let m = item_marker(s.list_stack);
            let style = in_color(Color::DarkCyan);
            &&& open.lines == s.lines
            &&& open.at_item_start
            &&& blocks::lead(open.prefixes, 0) == blocks::lead(s.prefixes, 0).push(
                SpanView { text: m, style },
            )
            &&& blocks::lead(open.prefixes, 1) == blocks::lead(s.prefixes, 1).push(
                SpanView { text: Seq::new(width::str_width(m) as nat, |i: int| ' '), style },
            )
            &&& s.list_stack.len() > 0 && s.list_stack.last() is Some ==> {
                let n = s.list_stack.last()->0;
                &&& open.list_stack.drop_last() == s.list_stack.drop_last()
                &&& n < u64::MAX ==> open.list_stack.last() == Some((n + 1) as u64)
            }
            &&& s.list_stack.len() == 0 || s.list_stack.last() is None ==> open.list_stack
                == s.list_stack
            &&& open.list_stack.len() == s.list_stack.len()
            &&& done.prefixes == s.prefixes
            &&& done.list_stack == open.list_stack
            &&& done.lines == s.lines
            &&& blocks::outside(done) && done.inline.len() == 0
        }),
{
    let open = s.event(EventView::Start(TagView::Item)).0;
    starts(s, TagView::Item);
    reveal(State::start_tag);
    reveal(State::flush_inline);
    let m = item_marker(s.list_stack);
    reveal_strlit(". ");
    reveal_strlit("• ");
    reveal_strlit("◦ ");
    reveal_strlit("▪ ");
    assert(". "@ =~= seq!['.', ' ']);
    assert("• "@ =~= seq!['•', ' ']);
    assert("◦ "@ =~= seq!['◦', ' ']);
    assert("▪ "@ =~= seq!['▪', ' ']);
    assert(state::marker(s.list_stack) == m);
    assert(open.prefixes.drop_last() =~= s.prefixes);
    let n = width::str_width(m) as nat;
    assert(strings::copies(' ', n) =~= Seq::new(n, |i: int| ' '));
    if s.list_stack.len() > 0 && s.list_stack.last() is Some {
        assert(open.list_stack.drop_last() =~= s.list_stack.drop_last());
    }
    ends(open, pulldown_cmark::TagEnd::Item);
    state::end_tag_plainly(open, pulldown_cmark::TagEnd::Item);
}

/// A render after an item.
#[verifier::opaque]
pub open spec fn after_item(s: State) -> State {
    s.event(EventView::Start(TagView::Item)).0.event(
        EventView::End(pulldown_cmark::TagEnd::Item),
    ).0
}

/// A render after `n` items.
pub open spec fn after_items(s: State, n: nat) -> State
    decreases n,
{
    if n == 0 {
        s
    } else {
        after_item(after_items(s, (n - 1) as nat))
    }
}

proof fn item_counts(s: State)
    requires
        blocks::outside(s),
        s.inline.len() == 0,
        s.list_stack.len() > 0,
        s.list_stack.last() is Some,
        s.list_stack.last()->0 < u64::MAX,
    ensures
        ({
            let t = after_item(s);
            &&& blocks::outside(t)
            &&& t.inline.len() == 0
            &&& t.list_stack == s.list_stack.drop_last().push(
                Some((s.list_stack.last()->0 + 1) as u64),
            )
        }),
{
    reveal(after_item);
    items_are_marked(s);
    let t = after_item(s);
    assert(t.list_stack =~= s.list_stack.drop_last().push(t.list_stack.last()));
}

proof fn list_opens(s: State, start: Option<u64>)
    requires
        s.inline.len() == 0,
    ensures
        s.start_tag(TagView::List(start)) == ({
            let t = if s.at_item_start || s.list_stack.len() > 0 {
                State { at_item_start: false, ..s }
            } else {
                s.ensure_blank()
            };
            State { list_stack: t.list_stack.push(start), ..t }
        }),
{
    reveal(State::start_tag);
    reveal(State::flush_inline);
}

proof fn items_count(s: State, first: u64, n: nat)
    requires
        blocks::outside(s),
        s.inline.len() == 0,
        s.list_stack.len() > 0,
        s.list_stack.last() == Some(first),
        first + n <= u64::MAX,
    ensures
        ({
            let t = after_items(s, n);
            &&& blocks::outside(t)
            &&& t.inline.len() == 0
            &&& t.list_stack == s.list_stack.drop_last().push(Some((first + n) as u64))
        }),
    decreases n,
{
    if n == 0 {
        assert(s.list_stack.drop_last().push(Some(first)) =~= s.list_stack);
    } else {
        items_count(s, first, (n - 1) as nat);
        let t = after_items(s, (n - 1) as nat);
        item_counts(t);
        assert(t.list_stack.drop_last() =~= s.list_stack.drop_last());
    }
}

/// The items of an ordered list are numbered upwards from its first number, one by one.
pub proof fn items_count_up(s: State, first: u64, n: nat)
    requires
        blocks::outside(s),
        s.inline.len() == 0,
        first + n <= u64::MAX,
    ensures
        ({
            let open = s.event(EventView::Start(TagView::List(Some(first)))).0;
            let t = after_items(open, n);
            &&& blocks::outside(t)
            &&& t.inline.len() == 0
            &&& t.list_stack == s.list_stack.push(Some((first + n) as u64))
            &&& item_marker(t.list_stack) == numbers::decimal_text((first + n) as nat) + seq![
                '.',
                ' ',
            ]
        }),
{
    let tag = TagView::List(Some(first));
    starts(s, tag);
    list_opens(s, Some(first));
    let open = s.start_tag(tag);
    items_count(open, first, n);
    assert(open.list_stack.drop_last() =~= s.list_stack);
}

/// A list is one deeper than the one it stands in. A blank line parts it from the text
/// above it, unless it stands in another list or at the start of an item.
pub proof fn lists_nest(s: State, start: Option<u64>)
    requires
        blocks::outside(s),
        s.inline.len() == 0,
    ensures
        ({
            let open = s.event(EventView::Start(TagView::List(start))).0;
            &&& open.list_stack == s.list_stack.push(start)
            &&& open.prefixes == s.prefixes
            &&& s.at_item_start || s.list_stack.len() > 0 || s.lines.len() == 0 || is_blank(
                s.lines.last(),
            ) ==> open.lines == s.lines
            &&& !(s.at_item_start || s.list_stack.len() > 0 || s.lines.len() == 0 || is_blank(
                s.lines.last(),
            )) ==> open.lines.len() == s.lines.len() + 1 && open.lines.drop_last() == s.lines
            &&& !open.at_item_start
        }),
{
    let open = s.start_tag(TagView::List(start));
    starts(s, TagView::List(start));
    list_opens(s, start);
    if s.lines.len() > 0 {
        assert(is_blank(s.lines.last()) == state::barren(text::line_text(s.lines.last())));
        if open.lines.len() > s.lines.len() {
            assert(open.lines.drop_last() =~= s.lines);
        }
    }
}

/// When a list ends, the one that it stands in goes on.
pub proof fn lists_end(s: State, ordered: bool)
    requires
        blocks::outside(s),
        s.list_stack.len() > 0,
    ensures
        s.event(EventView::End(pulldown_cmark::TagEnd::List(ordered))).0 == (State {
            list_stack: s.list_stack.drop_last(),
            ..s
        }),
{
    ends(s, pulldown_cmark::TagEnd::List(ordered));
    state::end_tag_plainly(s, pulldown_cmark::TagEnd::List(ordered));
}

/// A footnote's first line stands behind its name.
pub proof fn footnotes_are_marked(s: State, name: Seq<char>)
    requires
        blocks::outside(s),
    ensures
        ({
            let before = s.event(EventView::Start(TagView::Paragraph)).0;
            let open = s.event(EventView::Start(TagView::FootnoteDefinition(name))).0;
            let m = seq!['[', '^'] + name + seq![']', ' '];
            let style = in_color(Color::DarkCyan);
            &&& open.lines == before.lines
            &&& open.at_item_start
            &&& blocks::lead(open.prefixes, 0) == blocks::lead(before.prefixes, 0).push(
                SpanView { text: m, style },
            )
            &&& blocks::lead(open.prefixes, 1) == blocks::lead(before.prefixes, 1).push(
                SpanView { text: Seq::new(width::str_width(m) as nat, |i: int| ' '), style },
            )
            &&& open.event(
                EventView::End(pulldown_cmark::TagEnd::FootnoteDefinition),
            ).0.prefixes == before.prefixes
        }),
{
    let tag = TagView::FootnoteDefinition(name);
    let open = s.event(EventView::Start(tag)).0;
    starts(s, tag);
    starts(s, TagView::Paragraph);
    state::start_tag_plainly(s, 0, None);
    blocks::block_start_keeps(s);
    reveal(State::start_tag);
    let before = s.block_start();
    let m = seq!['[', '^'] + name + seq![']', ' '];
    reveal_strlit("[^");
    reveal_strlit("] ");
    assert("[^"@ =~= seq!['[', '^']);
    assert("] "@ =~= seq![']', ' ']);
    assert(open.prefixes.drop_last() =~= before.prefixes);
    let n = width::str_width(m) as nat;
    assert(strings::copies(' ', n) =~= Seq::new(n, |i: int| ' '));
    ends(open, pulldown_cmark::TagEnd::FootnoteDefinition);
    state::end_tag_plainly(open, pulldown_cmark::TagEnd::FootnoteDefinition);
    reveal(State::flush_inline);
}

/// A rule is a line across the columns there are.
pub proof fn rules_cross_the_page(s: State)
    requires
        blocks::outside(s),
    ensures
        ({
            let open = s.event(EventView::Start(TagView::Paragraph)).0;
            blocks::shows(
                open,
                s.event(EventView::Rule).0,
                seq![
                    seq![
                        SpanView {
                            text: Seq::new(open.avail(), |i: int| '─'),
                            style: in_color(Color::DarkGrey),
                        },
                    ],
                ],
            )
        }),
{
    starts(s, TagView::Paragraph);
    state::start_tag_plainly(s, 0, None);
    let open = s.block_start();
    blocks::plainly(s, EventView::Rule);
    reveal(State::plain_event);
    let n = open.avail();
    assert(strings::copies('─', n) =~= Seq::new(n, |i: int| '─'));
    let line = seq![
        SpanView { text: strings::copies('─', n), style: in_color(Color::DarkGrey) },
    ];
    blocks::pushed_lines_show(open, seq![line]);
    assert(seq![line].drop_last() =~= Seq::<Seq<SpanView>>::empty());
    assert(open.push_lines(seq![line].drop_last()) == open);
    assert(open.push_lines(seq![line]) == open.push_line(line));
}

/// The columns there are for text: those of the page but for what blocks put in front
/// of a line, ten at least. A page has twenty columns at least.
pub proof fn text_has_room(s: State)
    ensures
        state::rest_width(s.prefixes) + 10 < s.width ==> s.avail() + state::rest_width(s.prefixes)
            == s.width,
        state::rest_width(s.prefixes) + 10 >= s.width ==> s.avail() == 10,
        forall|o: state::OptsView, set, theme|
            #![trigger state::initial(o, set, theme)]
            state::initial(o, set, theme).width == (if o.width < 20 {
                20
            } else {
                o.width
            }) && state::initial(o, set, theme).lines.len() == 0,
{
}

// Images.

/// What an event inside an image adds to its alt text.
pub open spec fn alt_says(e: EventView) -> Seq<char> {
    match e {
        EventView::Text(t) => t,
        EventView::Code(t) => t,
        EventView::InlineHtml(t) => t,
        EventView::SoftBreak => seq![' '],
        EventView::HardBreak => seq![' '],
        _ => seq![],
    }
}

/// The alt text that events make.
pub open spec fn alt_text(es: Seq<EventView>) -> Seq<char>
    decreases es.len(),
{
    if es.len() == 0 {
        seq![]
    } else {
        alt_text(es.drop_last()) + alt_says(es.last())
    }
}

/// Whether no event ends an image.
pub open spec fn within_image(es: Seq<EventView>) -> bool {
    forall|i: int|
        0 <= i < es.len() ==> #[trigger] es[i] != EventView::End(pulldown_cmark::TagEnd::Image)
}

proof fn alt_collects(s: State, cap: CaptureView, es: Seq<EventView>)
    requires
        s.image == Some(cap),
        s.code is None,
        s.asked is None,
        within_image(es),
    ensures
        s.events(es) == (State {
            image: Some(CaptureView { url: cap.url, alt: cap.alt + alt_text(es) }),
            ..s
        }),
    decreases es.len(),
{
    if es.len() == 0 {
        assert(cap.alt + alt_text(es) =~= cap.alt);
        assert(s =~= State { image: Some(CaptureView { url: cap.url, alt: cap.alt }), ..s });
    } else {
        let d = es.drop_last();
        let e = es.last();
        assert(e == es[es.len() - 1]);
        assert forall|i: int| 0 <= i < d.len() implies #[trigger] d[i] != EventView::End(
            pulldown_cmark::TagEnd::Image,
        ) by {
            assert(d[i] == es[i]);
        }
        alt_collects(s, cap, d);
        let t = s.events(d);
        assert(t.answer(None) == t);
        reveal_strlit(" ");
        assert(" "@ =~= seq![' ']);
        let alt = cap.alt + alt_text(d);
        assert(alt + alt_says(e) =~= cap.alt + alt_text(es));
        assert(alt + Seq::<char>::empty() =~= alt);
    }
}

/// Without graphics an image is a link to its file behind a picture sign: its text is
/// all of its alt text, whatever that is made of, and what comes after looks as before.
pub proof fn images_are_links(s: State, url: Seq<char>, es: Seq<EventView>)
    requires
        blocks::outside(s),
        s.image_mode is Off,
        s.styles.len() > 0,
        within_image(es),
    ensures
        ({
            let done = s.event(EventView::Start(TagView::Image(url))).0.events(
                es.push(EventView::End(pulldown_cmark::TagEnd::Image)),
            );
            let span = done.inline.last();
            &&& done == (State { inline: s.inline.push(span), ..s })
            &&& span.text == seq!['🖼', ' '] + paragraphs::prose_text(alt_text(es))
            &&& span.style.link == Some(url)
            &&& span.style.underline
            &&& span.style.bold == s.styles.last().bold
            &&& span.style.italic == s.styles.last().italic
        }),
{
    let tag = TagView::Image(url);
    let end = EventView::End(pulldown_cmark::TagEnd::Image);
    starts(s, tag);
    image_opens(s, url);
    let open = s.start_tag(tag);
    let cap = CaptureView { url, alt: seq![] };
    alt_collects(open, cap, es);
    assert(es.push(end).drop_last() =~= es);
    let full = open.events(es);
    assert(cap.alt + alt_text(es) =~= alt_text(es));
    let whole = CaptureView { url, alt: alt_text(es) };
    image_closes(s, full, whole);
    assert(open.events(es.push(end)) == full.event(end).0);
    reveal_strlit("🖼 ");
    assert("🖼 "@ =~= seq!['🖼', ' ']);
}

proof fn image_opens(s: State, url: Seq<char>)
    ensures
        s.start_tag(TagView::Image(url)) == (State {
            image: Some(CaptureView { url, alt: seq![] }),
            ..s
        }),
{
    reveal(State::start_tag);
}

proof fn image_closes(s: State, full: State, whole: CaptureView)
    requires
        blocks::outside(s),
        s.image_mode is Off,
        full == (State { image: Some(whole), ..s }),
    ensures
        full.event(EventView::End(pulldown_cmark::TagEnd::Image)).0 == s.emit_image(whole, None),
{
    assert(full.answer(None) == full);
    assert(State { image: None, ..full } =~= s);
    assert(full.picture_file(whole.url) is None);
}

} // verus!
