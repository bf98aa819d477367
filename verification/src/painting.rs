//! What a terminal shows of what is drawn on it.

use vstd::prelude::*;
use crate::finding;
use crate::following;
use crate::geometry;
use crate::numbers;
use crate::pager::draw;
use crate::pager_view::{ModeView, PagerView, TargetView};
use crate::screen;
use crate::screen::{Attr, OpView, Pen};
use crate::search;
use crate::state::HeadingView;
use crate::strings;
use crate::text;
use crate::text::{Color, SpanView, StyleView};
use crate::width;

verus! {

/// A terminal, as far as one row of it goes: the row that the cursor is in, how text is
/// written, and what has been written on the one row since the cursor last went there,
/// from which column on.
#[verifier::ext_equal]
pub struct Term {
    pub at: int,
    pub from: int,
    pub look: StyleView,
    pub cells: Seq<(char, StyleView)>,
}

/// Characters in a look.
pub open spec fn in_look(s: Seq<char>, look: StyleView) -> Seq<(char, StyleView)> {
    Seq::new(s.len(), |i: int| (s[i], look))
}

/// Whether something printed is not text but an escape sequence.
pub open spec fn is_escape(s: Seq<char>) -> bool {
    s.len() > 0 && s[0] == '\u{1b}'
}

/// What one operation does.
pub open spec fn does(t: Term, op: OpView, row: int) -> Term {
    match op {
        OpView::MoveTo(x, y) => if y == row {
            Term { at: y as int, from: x as int, cells: seq![], ..t }
        } else {
            Term { at: y as int, ..t }
        },
        OpView::ClearLine => if t.at == row {
            Term { cells: seq![], ..t }
        } else {
            t
        },
        OpView::Print(s) => if t.at == row && !is_escape(s) {
            Term { cells: t.cells + in_look(s, t.look), ..t }
        } else {
            t
        },
        OpView::Fg(c) => Term { look: StyleView { fg: Some(c), ..t.look }, ..t },
        OpView::Put(a) => Term {
            look: match a {
                Attr::Reset => text::plain_style(),
                Attr::Bold => StyleView { bold: true, ..t.look },
                Attr::Dim => StyleView { dim: true, ..t.look },
                Attr::Italic => StyleView { italic: true, ..t.look },
                Attr::Underlined => StyleView { underline: true, ..t.look },
                Attr::CrossedOut => StyleView { strikethrough: true, ..t.look },
                Attr::Reverse => StyleView { reverse: true, ..t.look },
            },
            ..t
        },
        OpView::Begin => t,
        OpView::End => t,
    }
}

/// What operations do.
pub open spec fn run(t: Term, ops: Seq<OpView>, row: int) -> Term
    decreases ops.len(),
{
    if ops.len() == 0 {
        t
    } else {
        does(run(t, ops.drop_last(), row), ops.last(), row)
    }
}

/// Operations in two parts.
pub proof fn run_join(t: Term, a: Seq<OpView>, b: Seq<OpView>, row: int)
    ensures
        run(t, a + b, row) == run(run(t, a, row), b, row),
    decreases b.len(),
{
    if b.len() == 0 {
        assert(a + b =~= a);
    } else {
        assert((a + b).drop_last() =~= a + b.drop_last());
        run_join(t, a, b.drop_last(), row);
    }
}

/// One operation.
pub proof fn run_one(t: Term, op: OpView, row: int)
    ensures
        run(t, seq![op], row) == does(t, op, row),
{
    assert(seq![op].drop_last() =~= Seq::<OpView>::empty());
    assert(run(t, seq![op].drop_last(), row) == t);
}

proof fn put_is_done(t: Term, before: Seq<OpView>, on: bool, a: Attr, row: int)
    ensures
        run(t, before + screen::put_if(on, a), row) == (if on {
            does(run(t, before, row), OpView::Put(a), row)
        } else {
            run(t, before, row)
        }),
{
    run_join(t, before, screen::put_if(on, a), row);
    if on {
        run_one(run(t, before, row), OpView::Put(a), row);
    }
}

proof fn style_is_done(t: Term, style: StyleView, row: int)
    requires
        t.look == text::plain_style(),
    ensures
        run(t, screen::style_ops(style), row) == (Term {
            look: StyleView { link: None, ..style },
            ..t
        }),
{
    let o0: Seq<OpView> = match style.fg {
        Some(c) => seq![OpView::Fg(c)],
        None => seq![],
    };
    if let Some(c) = style.fg {
        run_one(t, OpView::Fg(c), row);
    }
    let o1 = o0 + screen::put_if(style.bold, Attr::Bold);
    let o2 = o1 + screen::put_if(style.dim, Attr::Dim);
    let o3 = o2 + screen::put_if(style.italic, Attr::Italic);
    let o4 = o3 + screen::put_if(style.underline, Attr::Underlined);
    let o5 = o4 + screen::put_if(style.strikethrough, Attr::CrossedOut);
    put_is_done(t, o0, style.bold, Attr::Bold, row);
    put_is_done(t, o1, style.dim, Attr::Dim, row);
    put_is_done(t, o2, style.italic, Attr::Italic, row);
    put_is_done(t, o3, style.underline, Attr::Underlined, row);
    put_is_done(t, o4, style.strikethrough, Attr::CrossedOut, row);
    put_is_done(t, o5, style.reverse, Attr::Reverse, row);
    let r = run(t, screen::style_ops(style), row);
    assert(r.look =~= StyleView { link: None, ..style });
}

/// A terminal on which text in a style has been written.
spec fn wrote(t: Term, cells: Seq<(char, StyleView)>, row: int) -> Term {
    if t.at == row {
        Term { cells: t.cells + cells, ..t }
    } else {
        t
    }
}

proof fn span_is_done(t: Term, s: Seq<char>, style: StyleView, row: int)
    requires
        t.look == text::plain_style(),
        !is_escape(s),
    ensures
        run(t, screen::span_ops(s, style), row) == wrote(
            t,
            in_look(s, StyleView { link: None, ..style }),
            row,
        ),
{
    let look = StyleView { link: None, ..style };
    let tail = seq![OpView::Print(s), OpView::Put(Attr::Reset)];
    let body = screen::style_ops(style) + tail;
    style_is_done(t, style, row);
    let t1 = Term { look, ..t };
    run_join(t, screen::style_ops(style), tail, row);
    assert(tail =~= seq![OpView::Print(s)] + seq![OpView::Put(Attr::Reset)]);
    run_join(t1, seq![OpView::Print(s)], seq![OpView::Put(Attr::Reset)], row);
    run_one(t1, OpView::Print(s), row);
    let t2 = does(t1, OpView::Print(s), row);
    run_one(t2, OpView::Put(Attr::Reset), row);
    assert(run(t, body, row) =~= wrote(t, in_look(s, look), row));
    if let Some(url) = screen::told_link(style.link) {
        reveal_strlit("\x1b]8;;");
        reveal_strlit("\x1b\\");
        reveal_strlit("\x1b]8;;\x1b\\");
        let open = OpView::Print("\x1b]8;;"@ + url + "\x1b\\"@);
        let close = OpView::Print("\x1b]8;;\x1b\\"@);
        assert(is_escape("\x1b]8;;"@ + url + "\x1b\\"@));
        assert(is_escape("\x1b]8;;\x1b\\"@));
        run_join(t, seq![open] + body, seq![close], row);
        run_join(t, seq![open], body, row);
        run_one(t, open, row);
        run_one(run(t, body, row), close, row);
    }
}

// Lines.

/// How a character is shown: in the style of its text, and reversed where it is
/// highlighted. That it leads somewhere is not seen.
pub open spec fn shown_style(style: StyleView, lit: bool) -> StyleView {
    StyleView { link: None, reverse: style.reverse || lit, ..style }
}

/// The characters of segments, as they are shown.
spec fn seg_cells(segs: Seq<(Seq<char>, bool)>, style: StyleView) -> Seq<(char, StyleView)>
    decreases segs.len(),
{
    if segs.len() == 0 {
        seq![]
    } else {
        seg_cells(segs.drop_last(), style) + in_look(
            segs.last().0,
            shown_style(style, segs.last().1),
        )
    }
}

/// Whether a pen has drawn text, as far as it fits in `max` columns.
spec fn drawn_to(
    p: Pen,
    t: Term,
    row: int,
    s: Seq<char>,
    cells: Seq<(char, StyleView)>,
    max: int,
    n: int,
) -> bool {
    &&& 0 <= n <= s.len()
    &&& cells.len() == s.len()
    &&& run(t, p.ops, row) == wrote(t, cells.take(n), row)
    &&& width::run_cols(s.take(n)) <= max
    &&& p.done ==> n < s.len() && width::run_cols(s.take(n + 1)) > max
    &&& !p.done ==> n == s.len() && p.col == width::run_cols(s)
}

proof fn seg_is_drawn(
    p: Pen,
    t: Term,
    row: int,
    s: Seq<char>,
    cells: Seq<(char, StyleView)>,
    max: int,
    n: int,
    seg: (Seq<char>, bool),
    style: StyleView,
) -> (m: int)
    requires
        t.look == text::plain_style(),
        drawn_to(p, t, row, s, cells, max, n),
        !seg.0.contains('\u{1b}'),
    ensures
        drawn_to(
            screen::draw_seg(p, seg, style, max),
            t,
            row,
            s + seg.0,
            cells + in_look(seg.0, shown_style(style, seg.1)),
            max,
            m,
        ),
{
    let x = seg.0;
    let look = shown_style(style, seg.1);
    let more = in_look(x, look);
    let q = screen::draw_seg(p, seg, style, max);
    if p.done {
        assert((s + x).take(n) =~= s.take(n));
        assert((s + x).take(n + 1) =~= s.take(n + 1));
        assert((cells + more).take(n) =~= cells.take(n));
        n
    } else {
        let room = max - p.col;
        let k = width::fit_len(x, room);
        assert(s.take(n) =~= s);
        assert(cells.take(n) =~= cells);
        width::fit_len_is_longest(x, room);
        let shown = if seg.1 {
            StyleView { reverse: true, ..style }
        } else {
            style
        };
        let e = screen::emitted(x, shown, room);
        let m = n + k;
        let t1 = run(t, p.ops, row);
        run_join(t, p.ops, e.0, row);
        assert((s + x).take(m) =~= s + x.take(k));
        width::run_cols_add(s, x.take(k));
        assert((cells + more).take(m) =~= cells + in_look(x.take(k), look));
        if k == 0 {
            assert(in_look(x.take(k), look) =~= seq![]);
            assert(cells + in_look(x.take(k), look) =~= cells);
        } else {
            assert(!is_escape(x.take(k))) by {
                if is_escape(x.take(k)) {
                    assert(x.contains(x[0]));
                }
            }
            span_is_done(t1, x.take(k), shown, row);
            assert(StyleView { link: None, ..shown } == look);
            assert(t.cells + cells + in_look(x.take(k), look) =~= t.cells + (cells + in_look(
                x.take(k),
                look,
            )));
        }
        if k < x.len() {
            assert((s + x).take(m + 1) =~= s + x.take(k + 1));
            width::run_cols_add(s, x.take(k + 1));
        } else {
            assert(x.take(k) =~= x);
        }
        m
    }
}

proof fn segs_are_drawn(
    p: Pen,
    t: Term,
    row: int,
    s: Seq<char>,
    cells: Seq<(char, StyleView)>,
    max: int,
    n: int,
    segs: Seq<(Seq<char>, bool)>,
    style: StyleView,
) -> (m: int)
    requires
        t.look == text::plain_style(),
        drawn_to(p, t, row, s, cells, max, n),
        !search::joined(segs).contains('\u{1b}'),
    ensures
        drawn_to(
            screen::draw_segs(p, segs, style, max),
            t,
            row,
            s + search::joined(segs),
            cells + seg_cells(segs, style),
            max,
            m,
        ),
    decreases segs.len(),
{
    if segs.len() == 0 {
        assert(s + search::joined(segs) =~= s);
        assert(cells + seg_cells(segs, style) =~= cells);
        n
    } else {
        let d = segs.drop_last();
        let last = segs.last();
        assert(search::joined(segs) == search::joined(d) + last.0);
        assert(!search::joined(d).contains('\u{1b}')) by {
            no_part(search::joined(d), last.0);
        }
        assert(!last.0.contains('\u{1b}')) by {
            no_part(search::joined(d), last.0);
        }
        let k = segs_are_drawn(p, t, row, s, cells, max, n, d, style);
        let m = seg_is_drawn(
            screen::draw_segs(p, d, style, max),
            t,
            row,
            s + search::joined(d),
            cells + seg_cells(d, style),
            max,
            k,
            last,
            style,
        );
        assert(s + search::joined(d) + last.0 =~= s + search::joined(segs));
        let more = in_look(last.0, shown_style(style, last.1));
        assert(cells + seg_cells(d, style) + more =~= cells + seg_cells(segs, style));
        m
    }
}

proof fn no_part(a: Seq<char>, b: Seq<char>)
    requires
        !(a + b).contains('\u{1b}'),
    ensures
        !a.contains('\u{1b}'),
        !b.contains('\u{1b}'),
{
    if a.contains('\u{1b}') {
        let i = choose|i: int| 0 <= i < a.len() && a[i] == '\u{1b}';
        assert((a + b)[i] == '\u{1b}');
    }
    if b.contains('\u{1b}') {
        let i = choose|i: int| 0 <= i < b.len() && b[i] == '\u{1b}';
        assert((a + b)[a.len() + i] == '\u{1b}');
    }
}

/// The characters of a line as they are shown, those in some ranges of its bytes
/// highlighted.
pub open spec fn line_cells(spans: Seq<SpanView>, ranges: Seq<(usize, usize)>) -> Seq<
    (char, StyleView),
>
    decreases spans.len(),
{
    if spans.len() == 0 {
        seq![]
    } else {
        let d = spans.drop_last();
        let s = spans.last();
        let before = search::byte_len(text::line_text(d)) as int;
        line_cells(d, ranges) + Seq::new(
            s.text.len(),
            |k: int|
                (
                    s.text[k],
                    shown_style(
                        s.style,
                        search::lit(ranges, before + search::byte_len(s.text.take(k))),
                    ),
                ),
        )
    }
}

proof fn seg_cells_are_marked(segs: Seq<(Seq<char>, bool)>, style: StyleView)
    ensures
        search::marks(segs).len() == search::joined(segs).len(),
        seg_cells(segs, style) == Seq::new(
            search::joined(segs).len(),
            |k: int| (search::joined(segs)[k], shown_style(style, search::marks(segs)[k])),
        ),
    decreases segs.len(),
{
    let all = Seq::new(
        search::joined(segs).len(),
        |k: int| (search::joined(segs)[k], shown_style(style, search::marks(segs)[k])),
    );
    if segs.len() > 0 {
        seg_cells_are_marked(segs.drop_last(), style);
    }
    assert(seg_cells(segs, style) =~= all);
}

proof fn between_in_span(
    before: Seq<char>,
    s: Seq<char>,
    after: Seq<char>,
    ranges: Seq<(usize, usize)>,
)
    requires
        search::on_chars(before + s + after, 0, ranges),
    ensures
        search::on_chars(s, search::byte_len(before) as int, ranges),
{
    let all = before + s + after;
    let offset = search::byte_len(before) as int;
    assert forall|i: int, k: int| 0 <= i < ranges.len() && 0 <= k < s.len() implies {
        let at = offset + search::byte_len(#[trigger] s.take(k));
        let next = at + search::char_bytes(s[k]);
        !(at < (#[trigger] ranges[i]).0 < next) && !(at < ranges[i].1 < next)
    } by {
        let j = before.len() + k;
        assert(all.take(j) =~= before + s.take(k));
        search::byte_len_add(before, s.take(k));
        assert(all[j] == s[k]);
    }
}

proof fn spans_are_drawn(
    spans: Seq<SpanView>,
    after: Seq<char>,
    ranges: Seq<(usize, usize)>,
    t: Term,
    row: int,
    max: int,
) -> (m: int)
    requires
        t.look == text::plain_style(),
        max >= 0,
        !text::line_text(spans).contains('\u{1b}'),
        search::on_chars(text::line_text(spans) + after, 0, ranges),
    ensures
        drawn_to(
            screen::draw_spans(spans, ranges, max),
            t,
            row,
            text::line_text(spans),
            line_cells(spans, ranges),
            max,
            m,
        ),
        ({
            let p = screen::draw_spans(spans, ranges, max);
            !p.done ==> p.offset == search::byte_len(text::line_text(spans))
        }),
    decreases spans.len(),
{
    let none = Seq::<char>::empty();
    if spans.len() == 0 {
        assert(t.cells + line_cells(spans, ranges).take(0) =~= t.cells);
        assert(text::line_text(spans).take(0) =~= none);
        0
    } else {
        let d = spans.drop_last();
        let s = spans.last();
        let before = text::line_text(d);
        no_part(before, s.text);
        assert(before + s.text + after =~= before + (s.text + after));
        let k = spans_are_drawn(d, s.text + after, ranges, t, row, max);
        let p = screen::draw_spans(d, ranges, max);
        let cells = line_cells(d, ranges);
        let more = line_cells(spans, ranges).skip(cells.len() as int);
        if p.done {
            assert(text::line_text(spans).take(k) =~= before.take(k));
            assert(text::line_text(spans).take(k + 1) =~= before.take(k + 1));
            assert(line_cells(spans, ranges).take(k) =~= cells.take(k));
            k
        } else {
            let segs = search::segments(s.text, p.offset, ranges);
            search::segments_join(s.text, p.offset, ranges);
            between_in_span(before, s.text, after, ranges);
            search::segments_mark_the_ranges(s.text, p.offset, ranges);
            seg_cells_are_marked(segs, s.style);
            let m = segs_are_drawn(p, t, row, before, cells, max, k, segs, s.style);
            assert(cells + seg_cells(segs, s.style) =~= line_cells(spans, ranges));
            search::byte_len_add(before, s.text);
            let q = screen::draw_segs(p, segs, s.style, max);
            assert(screen::draw_spans(spans, ranges, max).ops == q.ops);
            m
        }
    }
}

/// Whether some characters are as much of a line as fits in `max` columns.
pub open spec fn is_shown(
    cells: Seq<(char, StyleView)>,
    spans: Seq<SpanView>,
    ranges: Seq<(usize, usize)>,
    max: nat,
) -> bool {
    let n = cells.len() as int;
    let s = text::line_text(spans);
    &&& n <= s.len()
    &&& cells == line_cells(spans, ranges).take(n)
    &&& width::run_cols(s.take(n)) <= max
    &&& n < s.len() ==> width::run_cols(s.take(n + 1)) > max
}

/// A line is drawn from its start as far as it fits, every character in its style, and
/// those reversed that are in the ranges to be highlighted.
pub proof fn lines_are_drawn(
    spans: Seq<SpanView>,
    ranges: Seq<(usize, usize)>,
    t: Term,
    row: int,
    max: nat,
)
    requires
        t.look == text::plain_style(),
        !text::line_text(spans).contains('\u{1b}'),
        search::on_chars(text::line_text(spans), 0, ranges),
    ensures
        ({
            let r = run(t, screen::line_ops(spans, ranges, max), row);
            &&& r == (Term { cells: r.cells, ..t })
            &&& t.at != row ==> r.cells == t.cells
            &&& t.at == row && t.cells.len() == 0 ==> is_shown(r.cells, spans, ranges, max)
        }),
{
    let none = Seq::<char>::empty();
    assert(text::line_text(spans) + none =~= text::line_text(spans));
    let m = spans_are_drawn(spans, none, ranges, t, row, max as int);
    let cells = line_cells(spans, ranges);
    if t.cells.len() == 0 {
        assert(t.cells + cells.take(m) =~= cells.take(m));
    }
}

// The screen.

/// Whether a byte of a line is one that a search found.
pub open spec fn is_found(p: PagerView, line: int, at: int) -> bool {
    p.search matches Some(s) && exists|i: int|
        0 <= i < s.matches.len() && (#[trigger] s.matches[i]).0 == line && s.matches[i].1 <= at
            < s.matches[i].2
}

proof fn ranges_are_matches(matches: Seq<(usize, usize, usize)>, line: int, at: int)
    ensures
        search::lit(draw::ranges_on(matches, line), at) <==> exists|i: int|
            0 <= i < matches.len() && (#[trigger] matches[i]).0 == line && matches[i].1 <= at
                < matches[i].2,
    decreases matches.len(),
{
    let ranges = draw::ranges_on(matches, line);
    if matches.len() > 0 {
        let d = matches.drop_last();
        let m = matches.last();
        let before = draw::ranges_on(d, line);
        ranges_are_matches(d, line, at);
        if search::lit(ranges, at) {
            let i = choose|i: int|
                0 <= i < ranges.len() && (#[trigger] ranges[i]).0 <= at < ranges[i].1;
            if i < before.len() {
                assert(before[i] == ranges[i]);
                assert(search::lit(before, at));
                let k = choose|k: int|
                    0 <= k < d.len() && (#[trigger] d[k]).0 == line && d[k].1 <= at < d[k].2;
                assert(matches[k] == d[k]);
            } else {
                assert(matches[matches.len() - 1] == m);
            }
        }
        if exists|i: int|
            0 <= i < matches.len() && (#[trigger] matches[i]).0 == line && matches[i].1 <= at
                < matches[i].2 {
            let i = choose|i: int|
                0 <= i < matches.len() && (#[trigger] matches[i]).0 == line && matches[i].1 <= at
                    < matches[i].2;
            if i < d.len() {
                assert(d[i] == matches[i]);
                assert(search::lit(before, at));
                let k = choose|k: int|
                    0 <= k < before.len() && (#[trigger] before[k]).0 <= at < before[k].1;
                assert(ranges[k] == before[k]);
            } else {
                assert(ranges[ranges.len() - 1] == (m.1, m.2));
            }
        }
    }
}

/// What is highlighted on a line is what a search found there.
pub proof fn finds_are_highlighted(p: PagerView, line: int, at: int)
    ensures
        search::lit(draw::highlights(p, line), at) <==> is_found(p, line, at),
{
    if let Some(s) = p.search {
        ranges_are_matches(s.matches, line, at);
    }
}

/// Whether a line can be drawn: it holds no escape sequences, and what is highlighted
/// of it are whole characters.
pub open spec fn drawable(p: PagerView, line: int) -> bool {
    &&& !text::line_text(p.doc.lines[line]).contains('\u{1b}')
    &&& search::on_chars(text::line_text(p.doc.lines[line]), 0, draw::highlights(p, line))
}

/// Whether all lines can be drawn.
pub open spec fn all_drawable(p: PagerView) -> bool {
    forall|line: int| 0 <= line < p.doc.lines.len() ==> #[trigger] drawable(p, line)
}

/// Whether a row shows the line of the document that stands there, from the margin on,
/// or a mark where the document is over.
pub open spec fn row_is_right(p: PagerView, t: Term, row: int) -> bool {
    let line = p.top + row;
    &&& t.from == geometry::margin(p.cfg.left_margin, p.w)
    &&& line < p.doc.lines.len() ==> is_shown(
        t.cells,
        p.doc.lines[line],
        draw::highlights(p, line),
        following::shown_cols(p),
    )
    &&& line >= p.doc.lines.len() ==> t.cells == seq![
        ('~', StyleView { fg: Some(Color::DarkGrey), ..text::plain_style() }),
    ]
}

proof fn run_three(t: Term, a: OpView, b: OpView, c: OpView, row: int)
    ensures
        run(t, seq![a, b, c], row) == does(does(does(t, a, row), b, row), c, row),
{
    let ops = seq![a, b, c];
    assert(ops.drop_last() =~= seq![a, b]);
    assert(seq![a, b].drop_last() =~= seq![a]);
    assert(ops.last() == c && seq![a, b].last() == b);
    run_one(t, a, row);
    assert(run(t, seq![a, b], row) == does(run(t, seq![a], row), b, row));
}

proof fn row_is_drawn(p: PagerView, t: Term, n: int, row: int)
    requires
        t.look == text::plain_style(),
        all_drawable(p),
        0 <= n <= u16::MAX,
    ensures
        ({
            let r = run(t, draw::row_ops(p, n), row);
            &&& r.look == text::plain_style()
            &&& r.at == n
            &&& n == row ==> row_is_right(p, r, row)
            &&& n != row ==> r.from == t.from && r.cells == t.cells
        }),
{
    let line = p.top + n;
    let m = geometry::margin(p.cfg.left_margin, p.w);
    let head = seq![
        OpView::MoveTo(0, n as u16),
        OpView::ClearLine,
        OpView::MoveTo(m, n as u16),
    ];
    run_three(t, OpView::MoveTo(0, n as u16), OpView::ClearLine, OpView::MoveTo(m, n as u16), row);
    let t1 = run(t, head, row);
    if line < p.doc.lines.len() {
        let ops = screen::line_ops(p.doc.lines[line], draw::highlights(p, line), p.visible());
        run_join(t, head, ops, row);
        assert(drawable(p, line));
        lines_are_drawn(
            p.doc.lines[line],
            draw::highlights(p, line),
            t1,
            row,
            p.visible(),
        );
    } else {
        reveal_strlit("~");
        assert("~"@ =~= seq!['~']);
        let ops = seq![
            OpView::Fg(Color::DarkGrey),
            OpView::Print("~"@),
            OpView::Put(Attr::Reset),
        ];
        run_join(t, head, ops, row);
        run_three(
            t1,
            OpView::Fg(Color::DarkGrey),
            OpView::Print("~"@),
            OpView::Put(Attr::Reset),
            row,
        );
        let r = run(t1, ops, row);
        if n == row {
            assert(r.cells =~= seq![
                ('~', StyleView { fg: Some(Color::DarkGrey), ..text::plain_style() }),
            ]);
        }
    }
}

proof fn rows_are_drawn(p: PagerView, t: Term, n: nat, row: int)
    requires
        t.look == text::plain_style(),
        all_drawable(p),
        n <= u16::MAX,
    ensures
        ({
            let r = run(t, draw::rows_ops(p, n), row);
            &&& r.look == text::plain_style()
            &&& 0 <= row < n ==> row_is_right(p, r, row)
        }),
    decreases n,
{
    if n > 0 {
        let k = (n - 1) as nat;
        rows_are_drawn(p, t, k, row);
        run_join(t, draw::rows_ops(p, k), draw::row_ops(p, n - 1), row);
        row_is_drawn(p, run(t, draw::rows_ops(p, k), row), n - 1, row);
    }
}

/// What the bottom row says.
pub open spec fn bottom_text(p: PagerView) -> Seq<char> {
    match p.mode {
        ModeView::Prompt { backward, buf } => seq![
            if backward {
                '?'
            } else {
                '/'
            },
        ] + buf,
        _ => draw::bar_text(draw::caption_text(p), draw::position_text(p), p.w as nat),
    }
}

proof fn status_is_drawn(p: PagerView, t: Term, row: int)
    requires
        t.look == text::plain_style(),
        p.h >= 1,
        !is_escape(bottom_text(p)),
    ensures
        ({
            let r = run(t, draw::status_ops(p), row);
            let look = if p.mode is Prompt {
                text::plain_style()
            } else {
                StyleView { reverse: true, ..text::plain_style() }
            };
            &&& r.look == text::plain_style()
            &&& row == p.h - 1 ==> r.from == 0 && r.cells == in_look(
                screen::fitted(bottom_text(p), p.w as nat),
                look,
            )
            &&& row != p.h - 1 ==> r.from == t.from && r.cells == t.cells
        }),
{
    let at = (p.h - 1) as u16;
    let head = seq![OpView::MoveTo(0, at), OpView::ClearLine];
    assert(head =~= seq![OpView::MoveTo(0, at)] + seq![OpView::ClearLine]);
    run_join(t, seq![OpView::MoveTo(0, at)], seq![OpView::ClearLine], row);
    run_one(t, OpView::MoveTo(0, at), row);
    let t0 = does(t, OpView::MoveTo(0, at), row);
    run_one(t0, OpView::ClearLine, row);
    let t1 = run(t, head, row);
    reveal_strlit("?");
    reveal_strlit("/");
    assert("?"@ =~= seq!['?']);
    assert("/"@ =~= seq!['/']);
    let shown = screen::fitted(bottom_text(p), p.w as nat);
    width::fit_len_is_longest(bottom_text(p), p.w as int);
    assert(!is_escape(shown));
    let none = Seq::<(char, StyleView)>::empty();
    match p.mode {
        ModeView::Prompt { backward, buf } => {
            run_join(t, head, seq![OpView::Print(shown)], row);
            run_one(t1, OpView::Print(shown), row);
            assert(none + in_look(shown, text::plain_style()) =~= in_look(
                shown,
                text::plain_style(),
            ));
        },
        _ => {
            let ops = seq![
                OpView::Put(Attr::Reverse),
                OpView::Print(shown),
                OpView::Put(Attr::Reset),
            ];
            run_join(t, head, ops, row);
            run_three(
                t1,
                OpView::Put(Attr::Reverse),
                OpView::Print(shown),
                OpView::Put(Attr::Reset),
                row,
            );
            let look = StyleView { reverse: true, ..text::plain_style() };
            assert(none + in_look(shown, look) =~= in_look(shown, look));
        },
    }
}

/// The screen shows the document: on every row but the last, from the margin on, the
/// line that is so far below the top line, or a mark where the document is over; and
/// on the last row the prompt or the status bar.
pub proof fn screens_show_the_document(p: PagerView, t: Term, row: int)
    requires
        t.look == text::plain_style(),
        all_drawable(p),
        p.h >= 3,
        0 <= row < p.h,
        p.mode is Normal || p.mode is Prompt,
        !is_escape(bottom_text(p)),
    ensures
        ({
            let r = run(t, draw::screen_ops(p), row);
            &&& row < p.h - 1 ==> row_is_right(p, r, row)
            &&& row == p.h - 1 ==> r.from == 0 && r.cells == in_look(
                screen::fitted(bottom_text(p), p.w as nat),
                if p.mode is Prompt {
                    text::plain_style()
                } else {
                    StyleView { reverse: true, ..text::plain_style() }
                },
            )
        }),
{
    let rows = draw::rows_ops(p, p.content_h());
    let status = draw::status_ops(p);
    let none = Seq::<OpView>::empty();
    let a = seq![OpView::Begin] + rows;
    let b = a + status;
    assert(draw::screen_ops(p) =~= b + seq![OpView::End]);
    run_join(t, b, seq![OpView::End], row);
    run_join(t, a, status, row);
    run_join(t, seq![OpView::Begin], rows, row);
    run_one(t, OpView::Begin, row);
    rows_are_drawn(p, t, p.content_h(), row);
    let t1 = run(t, rows, row);
    status_is_drawn(p, t1, row);
    let t2 = run(t1, status, row);
    run_one(t2, OpView::End, row);
}

/// The status bar tells which lines are shown, of how many, and how far that is: the
/// first and the last one on screen, counted from one, and the percentage of the
/// document down to the last, or that it is the end.
pub proof fn positions_are_told(p: PagerView)
    requires
        p.top < p.doc.lines.len(),
    ensures
        ({
            let total = p.doc.lines.len();
            let last = if p.top + following::shown_rows(p) < total {
                (p.top + following::shown_rows(p)) as nat
            } else {
                total
            };
            let lines = seq![' '] + numbers::decimal_text(p.top + 1) + seq!['-']
                + numbers::decimal_text(last) + seq!['/'] + numbers::decimal_text(total);
            draw::position_text(p) == (if last == total {
                lines + seq![' ', 'E', 'N', 'D', ' ']
            } else {
                lines + seq![' '] + numbers::decimal_text(last * 100 / total) + seq!['%', ' ']
            })
        }),
{
    reveal_strlit(" ");
    reveal_strlit("-");
    reveal_strlit("/");
    reveal_strlit(" END ");
    reveal_strlit("% ");
    assert(" "@ =~= seq![' ']);
    assert("-"@ =~= seq!['-']);
    assert("/"@ =~= seq!['/']);
    assert(" END "@ =~= seq![' ', 'E', 'N', 'D', ' ']);
    assert("% "@ =~= seq!['%', ' ']);
}

/// The left of the status bar is what there is to say, or else the title, and the
/// count that was typed.
pub proof fn captions_are_told(p: PagerView)
    ensures
        ({
            let left = match p.message {
                Some(m) => seq![' '] + m,
                None => seq![' '] + p.title + seq![' '],
            };
            draw::caption_text(p) == (if p.count.len() > 0 {
                left + seq![' ', '['] + p.count + seq![']']
            } else {
                left
            })
        }),
{
    reveal_strlit(" ");
    reveal_strlit(" [");
    reveal_strlit("]");
    assert(" "@ =~= seq![' ']);
    assert(" ["@ =~= seq![' ', '[']);
    assert("]"@ =~= seq![']']);
}

/// The status bar has the position at its right end and, in front of it and of spaces,
/// as much of the caption as there is room for.
pub proof fn bars_hold_both(left: Seq<char>, right: Seq<char>, w: nat)
    requires
        width::str_width(right) <= w,
    ensures
        ({
            let bar = draw::bar_text(left, right, w);
            let room = w - width::str_width(right);
            let n = width::fit_len(left, room);
            let used = width::str_width(left.take(n));
            &&& 0 <= n <= left.len()
            &&& width::run_cols(left.take(n)) <= room
            &&& n < left.len() ==> width::run_cols(left.take(n + 1)) > room
            &&& used <= room ==> bar == left.take(n) + Seq::new(
                (room - used) as nat,
                |i: int| ' ',
            ) + right
        }),
{
    let room = w - width::str_width(right);
    width::fit_len_is_longest(left, room);
    let n = width::fit_len(left, room);
    let used = width::str_width(left.take(n));
    if used <= room {
        let k = (room - used) as nat;
        assert(strings::copies(' ', k) =~= Seq::new(k, |i: int| ' '));
    }
}

// Overlays.

proof fn label_is_drawn(t: Term, x: u16, y: u16, c: char, row: int)
    requires
        t.look == text::plain_style(),
        c != '\u{1b}',
    ensures
        ({
            let ops = seq![
                OpView::MoveTo(x, y),
                OpView::Put(Attr::Reverse),
                OpView::Put(Attr::Bold),
                OpView::Print(seq![c]),
                OpView::Put(Attr::Reset),
            ];
            let r = run(t, ops, row);
            &&& r.look == text::plain_style()
            &&& y == row ==> r.from == x && r.cells == seq![
                (c, StyleView { reverse: true, bold: true, ..text::plain_style() }),
            ]
            &&& y != row ==> r.from == t.from && r.cells == t.cells
        }),
{
    let a = seq![OpView::MoveTo(x, y), OpView::Put(Attr::Reverse), OpView::Put(Attr::Bold)];
    let b = seq![OpView::Print(seq![c]), OpView::Put(Attr::Reset)];
    let ops = seq![
        OpView::MoveTo(x, y),
        OpView::Put(Attr::Reverse),
        OpView::Put(Attr::Bold),
        OpView::Print(seq![c]),
        OpView::Put(Attr::Reset),
    ];
    assert(ops =~= a + b);
    run_join(t, a, b, row);
    run_three(t, OpView::MoveTo(x, y), OpView::Put(Attr::Reverse), OpView::Put(Attr::Bold), row);
    let t1 = run(t, a, row);
    assert(b =~= seq![OpView::Print(seq![c])] + seq![OpView::Put(Attr::Reset)]);
    run_join(t1, seq![OpView::Print(seq![c])], seq![OpView::Put(Attr::Reset)], row);
    run_one(t1, OpView::Print(seq![c]), row);
    let t2 = does(t1, OpView::Print(seq![c]), row);
    run_one(t2, OpView::Put(Attr::Reset), row);
    if y == row {
        assert(t2.cells =~= seq![
            (c, StyleView { reverse: true, bold: true, ..text::plain_style() }),
        ]);
    }
}

/// The label of a link is written over the first cell of the link, behind the margin,
/// in reverse and bold.
pub proof fn labels_are_drawn(
    targets: Seq<TargetView>,
    margin: u16,
    n: nat,
    t: Term,
)
    requires
        0 < n <= targets.len(),
        t.look == text::plain_style(),
        forall|i: int| 0 <= i < targets.len() ==> (#[trigger] targets[i]).label != '\u{1b}',
        margin + targets[n - 1].col <= 0xffff,
    ensures
        ({
            let last = targets[n - 1];
            let r = run(t, draw::label_ops(targets, margin, n), last.row as int);
            &&& r.look == text::plain_style()
            &&& r.from == margin + last.col
            &&& r.cells == seq![
                (last.label, StyleView { reverse: true, bold: true, ..text::plain_style() }),
            ]
        }),
{
    let last = targets[n - 1];
    let row = last.row as int;
    let before = draw::label_ops(targets, margin, (n - 1) as nat);
    labels_leave_plain(targets, margin, (n - 1) as nat, t, row);
    let x = draw::shifted(margin, last.col);
    let ops = seq![
        OpView::MoveTo(x, last.row),
        OpView::Put(Attr::Reverse),
        OpView::Put(Attr::Bold),
        OpView::Print(seq![last.label]),
        OpView::Put(Attr::Reset),
    ];
    run_join(t, before, ops, row);
    label_is_drawn(run(t, before, row), x, last.row, last.label, row);
}

proof fn labels_leave_plain(
    targets: Seq<TargetView>,
    margin: u16,
    n: nat,
    t: Term,
    row: int,
)
    requires
        n <= targets.len(),
        t.look == text::plain_style(),
        forall|i: int| 0 <= i < targets.len() ==> (#[trigger] targets[i]).label != '\u{1b}',
    ensures
        run(t, draw::label_ops(targets, margin, n), row).look == text::plain_style(),
    decreases n,
{
    if n > 0 {
        let last = targets[n - 1];
        let before = draw::label_ops(targets, margin, (n - 1) as nat);
        labels_leave_plain(targets, margin, (n - 1) as nat, t, row);
        let x = draw::shifted(margin, last.col);
        let ops = seq![
            OpView::MoveTo(x, last.row),
            OpView::Put(Attr::Reverse),
            OpView::Put(Attr::Bold),
            OpView::Print(seq![last.label]),
            OpView::Put(Attr::Reset),
        ];
        run_join(t, before, ops, row);
        label_is_drawn(run(t, before, row), x, last.row, last.label, row);
    }
}

/// An entry of the table of contents is written behind an indent of two columns for
/// each level below the first, as far as it fits, and over the whole width of the
/// table; the one that is selected is reversed.
pub proof fn contents_are_drawn(
    hs: Seq<HeadingView>,
    sel: usize,
    from: nat,
    x0: nat,
    y0: nat,
    inner_w: nat,
    n: nat,
    j: int,
    t: Term,
)
    requires
        0 <= j < n,
        from + j < hs.len(),
        y0 + n <= 0xffff,
        x0 + 2 <= 0xffff,
        t.look == text::plain_style(),
        forall|i: int| 0 <= i < hs.len() ==> !(#[trigger] hs[i]).text.contains('\u{1b}'),
    ensures
        ({
            let h = hs[from + j];
            let r = run(t, draw::toc_rows(hs, sel, from, x0, y0, inner_w, n), y0 + j + 1);
            let whole = Seq::new(
                if h.level > 0 {
                    (2 * (h.level - 1)) as nat
                } else {
                    0
                },
                |i: int| ' ',
            ) + h.text;
            let shown = screen::fitted(whole, inner_w);
            let look = StyleView { reverse: from + j == sel, ..text::plain_style() };
            let pad = if width::str_width(shown) < inner_w {
                inner_w - width::str_width(shown)
            } else {
                0
            };
            &&& r.from == x0 + 2
            &&& r.cells == in_look(shown, look) + in_look(
                Seq::new(pad as nat, |i: int| ' '),
                look,
            )
            &&& r.look == text::plain_style()
        }),
    decreases n,
{
    let i = from + n - 1;
    let row = y0 + j + 1;
    let before = draw::toc_rows(hs, sel, from, x0, y0, inner_w, (n - 1) as nat);
    contents_leave_plain(hs, sel, from, x0, y0, inner_w, (n - 1) as nat, t, row);
    let move_to = OpView::MoveTo((x0 + 2) as u16, (y0 + n) as u16);
    let entry = if i < hs.len() {
        draw::toc_entry(hs[i], i == sel, inner_w)
    } else {
        seq![]
    };
    let t0 = run(t, before, row);
    let all = draw::toc_rows(hs, sel, from, x0, y0, inner_w, n);
    assert(all == before + seq![move_to] + entry);
    run_join(t, before + seq![move_to], entry, row);
    run_join(t, before, seq![move_to], row);
    run_one(t0, move_to, row);
    let t1 = does(t0, move_to, row);
    if i < hs.len() {
        entry_is_drawn(hs[i], i == sel, inner_w, t1, row);
    }
    if j < n - 1 {
        contents_are_drawn(hs, sel, from, x0, y0, inner_w, (n - 1) as nat, j, t);
    }
}

proof fn entry_is_drawn(h: HeadingView, selected: bool, inner_w: nat, t: Term, row: int)
    requires
        t.look == text::plain_style(),
        !h.text.contains('\u{1b}'),
    ensures
        ({
            let r = run(t, draw::toc_entry(h, selected, inner_w), row);
            let whole = Seq::new(
                if h.level > 0 {
                    (2 * (h.level - 1)) as nat
                } else {
                    0
                },
                |i: int| ' ',
            ) + h.text;
            let shown = screen::fitted(whole, inner_w);
            let look = StyleView { reverse: selected, ..text::plain_style() };
            let pad = if width::str_width(shown) < inner_w {
                inner_w - width::str_width(shown)
            } else {
                0
            };
            r == wrote(
                t,
                in_look(shown, look) + in_look(Seq::new(pad as nat, |i: int| ' '), look),
                row,
            )
        }),
{
    let n: nat = if h.level > 0 {
        (2 * (h.level - 1)) as nat
    } else {
        0
    };
    let whole = Seq::new(n, |i: int| ' ') + h.text;
    assert(strings::copies(' ', draw::indent(h.level)) =~= Seq::new(n, |i: int| ' '));
    let shown = screen::fitted(whole, inner_w);
    let look = StyleView { reverse: selected, ..text::plain_style() };
    let pad = (if width::str_width(shown) < inner_w {
        inner_w - width::str_width(shown)
    } else {
        0
    }) as nat;
    let spaces = strings::copies(' ', pad);
    assert(spaces =~= Seq::new(pad, |i: int| ' '));
    width::fit_len_is_longest(whole, inner_w as int);
    assert(!is_escape(shown)) by {
        if is_escape(shown) {
            assert(shown[0] == whole[0]);
            if n == 0 {
                assert(h.text.contains(h.text[0]));
            }
        }
    }
    let head = screen::put_if(selected, Attr::Reverse);
    let none = Seq::<OpView>::empty();
    put_is_done(t, none, selected, Attr::Reverse, row);
    assert(none + head =~= head);
    let t1 = run(t, head, row);
    assert(t1.look =~= look);
    let tail = seq![OpView::Print(shown), OpView::Print(spaces), OpView::Put(Attr::Reset)];
    run_join(t, head, tail, row);
    run_three(
        t1,
        OpView::Print(shown),
        OpView::Print(spaces),
        OpView::Put(Attr::Reset),
        row,
    );
    let cells = in_look(shown, look) + in_look(spaces, look);
    assert(t.cells + in_look(shown, look) + in_look(spaces, look) =~= t.cells + cells);
    assert(run(t, head + tail, row) =~= wrote(t, cells, row));
}

proof fn contents_leave_plain(
    hs: Seq<HeadingView>,
    sel: usize,
    from: nat,
    x0: nat,
    y0: nat,
    inner_w: nat,
    n: nat,
    t: Term,
    row: int,
)
    requires
        t.look == text::plain_style(),
        forall|i: int| 0 <= i < hs.len() ==> !(#[trigger] hs[i]).text.contains('\u{1b}'),
    ensures
        run(t, draw::toc_rows(hs, sel, from, x0, y0, inner_w, n), row).look == text::plain_style(),
    decreases n,
{
    if n > 0 {
        let i = from + n - 1;
        let before = draw::toc_rows(hs, sel, from, x0, y0, inner_w, (n - 1) as nat);
        contents_leave_plain(hs, sel, from, x0, y0, inner_w, (n - 1) as nat, t, row);
        let move_to = OpView::MoveTo((x0 + 2) as u16, (y0 + n) as u16);
        let entry = if i < hs.len() {
            draw::toc_entry(hs[i], i == sel, inner_w)
        } else {
            seq![]
        };
        let t0 = run(t, before, row);
        run_join(t, before + seq![move_to], entry, row);
        run_join(t, before, seq![move_to], row);
        run_one(t0, move_to, row);
        if i < hs.len() {
            entry_is_drawn(hs[i], i == sel, inner_w, does(t0, move_to, row), row);
        }
    }
}

/// The table of contents shows the entries around the one that is selected, which is
/// always among them.
pub proof fn contents_show_the_selection(p: PagerView, sel: usize)
    requires
        sel < p.doc.headings.len(),
    ensures
        exists|from: nat, x0: nat, y0: nat, w: nat, h: nat|
            from <= sel < from + h && h >= 1 && draw::toc_ops(p, sel) == screen::box_ops(
                x0 as u16,
                y0 as u16,
                w,
                h,
                " Contents "@,
            ) + #[trigger] draw::toc_rows(p.doc.headings, sel, from, x0, y0, w, h),
{
    let w = draw::toc_width(p);
    let k = draw::overlay_height(p, p.doc.headings.len());
    let h = if k < 1 {
        1
    } else {
        k
    };
    let from = if sel < h {
        0
    } else {
        (sel - (h - 1)) as nat
    };
    let x0 = draw::centered(p.w as nat, w + 4);
    let y0 = draw::centered(p.content_h(), h + 2);
    assert(draw::toc_ops(p, sel) == screen::box_ops(
        x0 as u16,
        y0 as u16,
        w,
        h,
        " Contents "@,
    ) + draw::toc_rows(p.doc.headings, sel, from, x0, y0, w, h));
}

/// What a search found in a line are whole characters of it.
pub proof fn finds_are_whole(p: PagerView, line: int)
    requires
        p.doc.lines.len() <= usize::MAX,
        search::countable(p.doc.lines, p.doc.lines.len()),
        p.search matches Some(s) ==> s.matches == search::all_matches(p.doc.lines, s.query),
        0 <= line < p.doc.lines.len(),
    ensures
        search::on_chars(text::line_text(p.doc.lines[line]), 0, draw::highlights(p, line)),
{
    let s = text::line_text(p.doc.lines[line]);
    let ranges = draw::highlights(p, line);
    assert forall|i: int, k: int| 0 <= i < ranges.len() && 0 <= k < s.len() implies {
        let at = 0 + search::byte_len(#[trigger] s.take(k));
        let next = at + search::char_bytes(s[k]);
        !(at < (#[trigger] ranges[i]).0 < next) && !(at < ranges[i].1 < next)
    } by {
        let found = p.search->0;
        ranges_come_from(found.matches, line, i);
        let j = choose|j: int|
            0 <= j < found.matches.len() && (#[trigger] found.matches[j]).0 == line && ranges[i]
                == (found.matches[j].1, found.matches[j].2);
        finding::matches_are_finds(p.doc.lines, found.query, j);
        let m = found.matches[j];
        let q = found.query;
        let at = choose|at: int|
            #![trigger finding::found_at(s, q, at)]
            finding::found_at(s, q, at) && m.1 == search::byte_len(s.take(at)) && m.2
                == search::byte_len(s.take(at + q.len()));
        assert(s.take(k + 1).drop_last() =~= s.take(k));
        bytes_are_apart(s, k, at);
        bytes_are_apart(s, k, at + q.len());
    }
}

proof fn bytes_are_apart(s: Seq<char>, k: int, at: int)
    requires
        0 <= k < s.len(),
        0 <= at <= s.len(),
    ensures
        !(search::byte_len(s.take(k)) < search::byte_len(s.take(at)) < search::byte_len(
            s.take(k + 1),
        )),
{
    if at <= k {
        search::bytes_grow(s, at, k);
    } else {
        search::bytes_grow(s, k + 1, at);
    }
}

proof fn ranges_come_from(matches: Seq<(usize, usize, usize)>, line: int, i: int)
    requires
        0 <= i < draw::ranges_on(matches, line).len(),
    ensures
        exists|j: int|
            0 <= j < matches.len() && (#[trigger] matches[j]).0 == line && draw::ranges_on(
                matches,
                line,
            )[i] == (matches[j].1, matches[j].2),
    decreases matches.len(),
{
    let d = matches.drop_last();
    let before = draw::ranges_on(d, line);
    let ranges = draw::ranges_on(matches, line);
    if i < before.len() {
        ranges_come_from(d, line, i);
        let j = choose|j: int|
            0 <= j < d.len() && (#[trigger] d[j]).0 == line && before[i] == (d[j].1, d[j].2);
        assert(matches[j] == d[j]);
        assert(ranges[i] == before[i]);
    } else {
        assert(matches[matches.len() - 1] == matches.last());
    }
}

// Links.

/// The sequence that tells a terminal where the text behind it leads.
pub open spec fn link_start(url: Seq<char>) -> Seq<char> {
    seq!['\u{1b}', ']', '8', ';', ';'] + url + seq!['\u{1b}', '\\']
}

/// A terminal is told where text leads, before the text and its looks and until behind
/// them, unless it leads to a place in the document; of other text it is told nothing.
pub proof fn links_are_told(s: Seq<char>, style: StyleView)
    ensures
        ({
            let ops = screen::span_ops(s, style);
            let plain = screen::span_ops(s, StyleView { link: None, ..style });
            match style.link {
                Some(url) => if url.len() > 0 && url[0] == '#' {
                    ops == plain
                } else {
                    ops == seq![OpView::Print(link_start(url))] + plain + seq![
                        OpView::Print(link_start(seq![])),
                    ]
                },
                None => ops == plain,
            }
        }),
{
    reveal_strlit("\x1b]8;;");
    reveal_strlit("\x1b\\");
    reveal_strlit("\x1b]8;;\x1b\\");
    assert("\x1b]8;;"@ =~= seq!['\u{1b}', ']', '8', ';', ';']);
    assert("\x1b\\"@ =~= seq!['\u{1b}', '\\']);
    assert("\x1b]8;;\x1b\\"@ =~= link_start(seq![]));
    let plain = StyleView { link: None, ..style };
    assert(screen::style_ops(style) == screen::style_ops(plain));
}

/// What is centered has as much room on its left as on its right, or one column less.
pub proof fn boxes_are_centered(room: nat, size: nat)
    ensures
        ({
            let left = draw::centered(room, size);
            let right = room - size - left;
            &&& size <= room ==> 0 <= left <= right <= left + 1
            &&& size > room ==> left == 0
        }),
{
}

} // verus!
