//! What is drawn on the terminal, as a list of operations.

use vstd::prelude::*;
use crate::search;
use crate::search::segment_far;
use crate::strings;
use crate::strings::{from_chars, repeat, to_chars};
use crate::text::{Color, Line, SpanView, Style, StyleView};
use crate::width;
use crate::width::{fit_chars, measure};

verus! {

broadcast use strings::group_views;

/// A text attribute.
#[derive(Clone, Copy, Debug, PartialEq, Eq, Structural)]
pub enum Attr {
    Reset,
    Bold,
    Dim,
    Italic,
    Underlined,
    CrossedOut,
    Reverse,
}

/// One operation on the terminal.
pub enum Op {
    /// Start of a synchronized update.
    Begin,
    /// End of a synchronized update.
    End,
    /// Moves the cursor to a column and a row.
    MoveTo(u16, u16),
    /// Clears from the cursor to the end of the line.
    ClearLine,
    Print(String),
    Fg(Color),
    Put(Attr),
}

pub enum OpView {
    Begin,
    End,
    MoveTo(u16, u16),
    ClearLine,
    Print(Seq<char>),
    Fg(Color),
    Put(Attr),
}

impl View for Op {
    type V = OpView;

    open spec fn view(&self) -> OpView {
        match self {
            Op::Begin => OpView::Begin,
            Op::End => OpView::End,
            Op::MoveTo(x, y) => OpView::MoveTo(*x, *y),
            Op::ClearLine => OpView::ClearLine,
            Op::Print(s) => OpView::Print(s@),
            Op::Fg(c) => OpView::Fg(*c),
            Op::Put(a) => OpView::Put(*a),
        }
    }
}

/// The operations of a vector of them.
pub open spec fn ops(out: Vec<Op>) -> Seq<OpView> {
    strings::views(out@)
}

/// As much of a string as fits in `max` columns.
pub open spec fn fitted(s: Seq<char>, max: nat) -> Seq<char> {
    s.take(width::fit_len(s, max as int))
}

/// Truncates a string to at most `max` display columns.
pub fn fit(s: &str, max: usize) -> (r: String)
    ensures
        r@ == fitted(s@, max as nat),
{
    let chars = to_chars(s);
    let (n, _) = fit_chars(&chars, max);
    let r = from_chars(&chars, 0, n);
    assert(r@ =~= s@.take(n as int));
    r
}

/// What fits takes no more columns than there are.
pub proof fn fitted_fits(s: Seq<char>, max: nat)
    ensures
        width::run_cols(fitted(s, max)) <= max,
{
    width::fit_len_is_longest(s, max as int);
}

/// The target that is told to the terminal: not that of a link within the
/// document.
pub open spec fn told_link(link: Option<Seq<char>>) -> Option<Seq<char>> {
    match link {
        Some(url) => if url.len() > 0 && url[0] == '#' {
            None
        } else {
            Some(url)
        },
        None => None,
    }
}

/// One attribute, where it is on.
pub open spec fn put_if(on: bool, a: Attr) -> Seq<OpView> {
    if on {
        seq![OpView::Put(a)]
    } else {
        seq![]
    }
}

/// How a style is switched on.
pub open spec fn style_ops(style: StyleView) -> Seq<OpView> {
    (match style.fg {
        Some(c) => seq![OpView::Fg(c)],
        None => seq![],
    }) + put_if(style.bold, Attr::Bold) + put_if(style.dim, Attr::Dim) + put_if(
        style.italic,
        Attr::Italic,
    ) + put_if(style.underline, Attr::Underlined) + put_if(style.strikethrough, Attr::CrossedOut)
        + put_if(style.reverse, Attr::Reverse)
}

/// How text in a style is written.
pub open spec fn span_ops(s: Seq<char>, style: StyleView) -> Seq<OpView> {
    let body = style_ops(style) + seq![OpView::Print(s), OpView::Put(Attr::Reset)];
    match told_link(style.link) {
        Some(url) => seq![OpView::Print("\x1b]8;;"@ + url + "\x1b\\"@)] + body + seq![
            OpView::Print("\x1b]8;;\x1b\\"@),
        ],
        None => body,
    }
}

fn push_if(out: &mut Vec<Op>, on: bool, a: Attr)
    ensures
        ops(*final(out)) == ops(*old(out)) + put_if(on, a),
{
    if on {
        out.push(Op::Put(a));
    }
    assert(ops(*out) =~= ops(*old(out)) + put_if(on, a));
}

fn push_style(out: &mut Vec<Op>, style: &Style)
    ensures
        ops(*final(out)) == ops(*old(out)) + style_ops(style@),
{
    let ghost start = ops(*out);
    let ghost mut acc: Seq<OpView> = match style.fg {
        Some(c) => seq![OpView::Fg(c)],
        None => seq![],
    };
    if let Some(fg) = style.fg {
        out.push(Op::Fg(fg));
    }
    assert(ops(*out) =~= start + acc);
    push_if(out, style.bold, Attr::Bold);
    proof {
        append_moves_in(start, acc, put_if(style.bold, Attr::Bold));
        acc = acc + put_if(style.bold, Attr::Bold);
    }
    push_if(out, style.dim, Attr::Dim);
    proof {
        append_moves_in(start, acc, put_if(style.dim, Attr::Dim));
        acc = acc + put_if(style.dim, Attr::Dim);
    }
    push_if(out, style.italic, Attr::Italic);
    proof {
        append_moves_in(start, acc, put_if(style.italic, Attr::Italic));
        acc = acc + put_if(style.italic, Attr::Italic);
    }
    push_if(out, style.underline, Attr::Underlined);
    proof {
        append_moves_in(start, acc, put_if(style.underline, Attr::Underlined));
        acc = acc + put_if(style.underline, Attr::Underlined);
    }
    push_if(out, style.strikethrough, Attr::CrossedOut);
    proof {
        append_moves_in(start, acc, put_if(style.strikethrough, Attr::CrossedOut));
        acc = acc + put_if(style.strikethrough, Attr::CrossedOut);
    }
    push_if(out, style.reverse, Attr::Reverse);
    proof {
        append_moves_in(start, acc, put_if(style.reverse, Attr::Reverse));
    }
}

pub proof fn append_moves_in(a: Seq<OpView>, b: Seq<OpView>, c: Seq<OpView>)
    ensures
        a + b + c == a + (b + c),
{
    assert(a + b + c =~= a + (b + c));
}

fn push_body(out: &mut Vec<Op>, s: String, style: &Style)
    ensures
        ops(*final(out)) == ops(*old(out)) + (style_ops(style@) + seq![
            OpView::Print(s@),
            OpView::Put(Attr::Reset),
        ]),
{
    let ghost start = ops(*out);
    push_style(out, style);
    out.push(Op::Print(s));
    out.push(Op::Put(Attr::Reset));
    proof {
        let tail = seq![OpView::Print(s@), OpView::Put(Attr::Reset)];
        assert(ops(*out) =~= start + style_ops(style@) + tail);
        append_moves_in(start, style_ops(style@), tail);
    }
}

fn push_span(out: &mut Vec<Op>, s: String, style: &Style)
    ensures
        ops(*final(out)) == ops(*old(out)) + span_ops(s@, style@),
{
    let ghost start = ops(*out);
    let ghost body = style_ops(style@) + seq![OpView::Print(s@), OpView::Put(Attr::Reset)];
    let link = match &style.link {
        Some(url) => {
            let chars = to_chars(url.as_str());
            if chars.len() > 0 && chars[0] == '#' {
                None
            } else {
                Some(url)
            }
        },
        None => None,
    };
    match link {
        Some(url) => {
            let mut open: String = "\x1b]8;;".to_owned();
            open.push_str(url.as_str());
            open.push_str("\x1b\\");
            let ghost head = seq![OpView::Print(open@)];
            let ghost tail = seq![OpView::Print("\x1b]8;;\x1b\\"@)];
            out.push(Op::Print(open));
            assert(ops(*out) =~= start + head);
            push_body(out, s, style);
            out.push(Op::Print("\x1b]8;;\x1b\\".to_owned()));
            assert(ops(*out) =~= start + head + body + tail);
            proof {
                append_moves_in(start, head, body);
                append_moves_in(start, head + body, tail);
            }
        },
        None => {
            push_body(out, s, style);
        },
    }
}

/// What is written of text in a style within a budget of columns, the columns
/// it takes, and whether all of it was written.
pub open spec fn emitted(s: Seq<char>, style: StyleView, budget: int) -> (Seq<OpView>, int, bool) {
    let n = width::fit_len(s, budget);
    (
        if n == 0 {
            seq![]
        } else {
            span_ops(s.take(n), style)
        },
        width::run_cols(s.take(n)) as int,
        n == s.len(),
    )
}

/// Writes `s` in `style`, using at most `budget` columns. Returns the columns
/// used and whether the whole text fit.
pub fn emit_span(out: &mut Vec<Op>, s: &str, style: &Style, budget: usize) -> (r: (usize, bool))
    ensures
        ({
            let e = emitted(s@, style@, budget as int);
            ops(*final(out)) == ops(*old(out)) + e.0 && r.0 == e.1 && r.1 == e.2
        }),
        r.0 <= budget,
{
    let chars = to_chars(s);
    let (n, used) = fit_chars(&chars, budget);
    if n == 0 {
        assert(ops(*out) + Seq::<OpView>::empty() =~= ops(*out));
        return (used, n == chars.len());
    }
    let shown = from_chars(&chars, 0, n);
    assert(shown@ =~= s@.take(n as int));
    push_span(out, shown, style);
    (used, n == chars.len())
}

/// Where the drawing of a line stands: what was written, the column, the bytes
/// of the line that went by, and whether the right edge was reached.
#[verifier::ext_equal]
pub struct Pen {
    pub ops: Seq<OpView>,
    pub col: int,
    pub offset: int,
    pub done: bool,
}

/// A segment drawn; highlighted text is reversed.
pub open spec fn draw_seg(p: Pen, seg: (Seq<char>, bool), style: StyleView, max: int) -> Pen {
    if p.done {
        p
    } else {
        let shown = if seg.1 {
            StyleView { reverse: true, ..style }
        } else {
            style
        };
        let e = emitted(seg.0, shown, max - p.col);
        Pen { ops: p.ops + e.0, col: p.col + e.1, done: !e.2, ..p }
    }
}

pub open spec fn draw_segs(p: Pen, segs: Seq<(Seq<char>, bool)>, style: StyleView, max: int) -> Pen
    decreases segs.len(),
{
    if segs.len() == 0 {
        p
    } else {
        draw_seg(draw_segs(p, segs.drop_last(), style, max), segs.last(), style, max)
    }
}

/// A span drawn, in segments.
pub open spec fn draw_span(p: Pen, span: SpanView, ranges: Seq<(usize, usize)>, max: int) -> Pen {
    if p.done {
        p
    } else {
        let q = draw_segs(p, search::segments(span.text, p.offset, ranges), span.style, max);
        Pen { offset: p.offset + search::byte_len(span.text), ..q }
    }
}

pub open spec fn draw_spans(spans: Seq<SpanView>, ranges: Seq<(usize, usize)>, max: int) -> Pen
    decreases spans.len(),
{
    if spans.len() == 0 {
        Pen { ops: seq![], col: 0, offset: 0, done: false }
    } else {
        draw_span(draw_spans(spans.drop_last(), ranges, max), spans.last(), ranges, max)
    }
}

/// How a line is drawn in `max` columns, with ranges of its bytes highlighted.
/// Drawing stops at the first truncation: what came after skipped content would
/// garble the right edge.
pub open spec fn line_ops(spans: Seq<SpanView>, ranges: Seq<(usize, usize)>, max: nat) -> Seq<
    OpView,
> {
    draw_spans(spans, ranges, max as int).ops
}

proof fn done_stays(p: Pen, segs: Seq<(Seq<char>, bool)>, style: StyleView, max: int, n: int)
    requires
        0 <= n <= segs.len(),
        draw_segs(p, segs.take(n), style, max).done,
    ensures
        draw_segs(p, segs, style, max) == draw_segs(p, segs.take(n), style, max),
    decreases segs.len(),
{
    if n == segs.len() {
        assert(segs.take(n) =~= segs);
    } else {
        assert(segs.drop_last().take(n) =~= segs.take(n));
        done_stays(p, segs.drop_last(), style, max, n);
    }
}

proof fn done_stays_over_spans(
    spans: Seq<SpanView>,
    ranges: Seq<(usize, usize)>,
    max: int,
    n: int,
)
    requires
        0 <= n <= spans.len(),
        draw_spans(spans.take(n), ranges, max).done,
    ensures
        draw_spans(spans, ranges, max) == draw_spans(spans.take(n), ranges, max),
    decreases spans.len(),
{
    if n == spans.len() {
        assert(spans.take(n) =~= spans);
    } else {
        assert(spans.drop_last().take(n) =~= spans.take(n));
        done_stays_over_spans(spans.drop_last(), ranges, max, n);
    }
}

/// Draws segments from column `col` on; returns the column reached and whether
/// all was drawn.
fn push_segments(
    out: &mut Vec<Op>,
    segs: &Vec<(String, bool)>,
    style: &Style,
    col: usize,
    max: usize,
    Ghost(p): Ghost<Pen>,
) -> (r: (usize, bool))
    requires
        col <= max,
        p.col == col,
        !p.done,
    ensures
        ({
            let q = draw_segs(p, search::segment_views(segs@), style@, max as int);
            r.0 == q.col && r.1 == !q.done && r.0 <= max && q.offset == p.offset && exists|
                added: Seq<OpView>,
            |
                #[trigger] (p.ops + added) == q.ops && ops(*final(out)) == ops(*old(out)) + added
        }),
{
    let ghost sv = search::segment_views(segs@);
    let ghost start = ops(*out);
    let ghost mut added: Seq<OpView> = seq![];
    let mut col: usize = col;
    let mut i: usize = 0;
    assert(sv.take(0) =~= seq![]);
    assert(p.ops + added =~= p.ops);
    assert(start + added =~= start);
    while i < segs.len()
        invariant
            i <= segs@.len(),
            sv == search::segment_views(segs@),
            col <= max,
            ({
                let q = draw_segs(p, sv.take(i as int), style@, max as int);
                q.col == col && !q.done && q.offset == p.offset && p.ops + added == q.ops
            }),
            start == ops(*old(out)),
            ops(*out) == start + added,
        decreases segs@.len() - i,
    {
        assert(sv.take(i + 1).drop_last() =~= sv.take(i as int));
        let mut shown = style.clone();
        if segs[i].1 {
            shown.reverse = true;
        }
        assert(sv[i as int] == (segs@[i as int].0@, segs@[i as int].1));
        let ghost before = added;
        let ghost e = emitted(sv[i as int].0, shown@, max - col);
        let (used, complete) = emit_span(out, segs[i].0.as_str(), &shown, max - col);
        proof {
            added = before + e.0;
            assert(start + before + e.0 =~= start + added);
            assert(p.ops + before + e.0 =~= p.ops + added);
        }
        col = col + used;
        if !complete {
            proof {
                done_stays(p, sv, style@, max as int, i + 1);
            }
            return (col, false);
        }
        i = i + 1;
    }
    assert(sv.take(i as int) =~= sv);
    (col, true)
}

/// Draws a line in `max` columns, with ranges of its bytes highlighted.
pub fn draw_line(out: &mut Vec<Op>, line: &Line, ranges: &[(usize, usize)], max: usize)
    ensures
        ops(*final(out)) == ops(*old(out)) + line_ops(line@, ranges@, max as nat),
{
    let ghost start = ops(*out);
    let ghost vs = line@;
    let mut col: usize = 0;
    let mut offset: u128 = 0;
    let mut i: usize = 0;
    let n: usize = line.spans.len();
    assert(vs.take(0) =~= seq![]);
    assert(start + Seq::<OpView>::empty() =~= start);
    while i < n
        invariant
            i <= n,
            n == line.spans@.len(),
            vs == line@,
            col <= max,
            offset <= i * 0xffff_ffff_ffff_ffff,
            start == ops(*old(out)),
            ({
                let p = draw_spans(vs.take(i as int), ranges@, max as int);
                p.col == col && p.offset == offset && !p.done && ops(*out) == start + p.ops
            }),
        decreases n - i,
    {
        assert(vs.take(i + 1).drop_last() =~= vs.take(i as int));
        let span = &line.spans[i];
        let ghost p = draw_spans(vs.take(i as int), ranges@, max as int);
        let len: usize = span.text.as_str().as_bytes().len();
        proof {
            search::byte_len_is_encoded_len(span.text@);
        }
        let segs = segment_far(span.text.as_str(), offset, ranges);
        let (next, complete) = push_segments(out, &segs, &span.style, col, max, Ghost(p));
        let ghost q = draw_span(p, vs[i as int], ranges@, max as int);
        proof {
            let added = choose|added: Seq<OpView>|
                #[trigger] (p.ops + added) == q.ops && ops(*out) == start + p.ops + added;
            assert(start + p.ops + added =~= start + (p.ops + added));
            assert(ops(*out) == start + q.ops);
        }
        col = next;
        offset = offset + len as u128;
        if !complete {
            proof {
                done_stays_over_spans(vs, ranges@, max as int, i + 1);
            }
            return ;
        }
        i = i + 1;
    }
    assert(vs.take(i as int) =~= vs);
}

/// How a box with a title is drawn, around `inner_w` columns and `inner_h` rows
/// and a column of space on either side.
pub open spec fn box_ops(x0: u16, y0: u16, inner_w: nat, inner_h: nat, title: Seq<char>) -> Seq<
    OpView,
> {
    let t = fitted(title, inner_w);
    let tw = width::str_width(t) as int;
    let fill = if tw < inner_w + 2 {
        inner_w + 2 - tw
    } else {
        0
    };
    seq![
        OpView::MoveTo(x0, y0),
        OpView::Print("┌"@ + t + strings::copies('─', fill as nat) + "┐"@),
    ] + box_rows(x0, y0, inner_w, inner_h) + seq![
        OpView::MoveTo(x0, (y0 + 1 + inner_h) as u16),
        OpView::Print("└"@ + strings::copies('─', inner_w + 2) + "┘"@),
    ]
}

/// The first `n` rows of a box.
pub open spec fn box_rows(x0: u16, y0: u16, inner_w: nat, n: nat) -> Seq<OpView>
    decreases n,
{
    if n == 0 {
        seq![]
    } else {
        box_rows(x0, y0, inner_w, (n - 1) as nat) + seq![
            OpView::MoveTo(x0, (y0 + n) as u16),
            OpView::Print("│ "@ + strings::copies(' ', inner_w) + " │"@),
        ]
    }
}

/// Draws a box with a title.
pub fn draw_box(out: &mut Vec<Op>, x0: u16, y0: u16, inner_w: usize, inner_h: usize, title: &str)
    requires
        inner_w <= 0xffff,
        y0 + 1 + inner_h <= 0xffff,
    ensures
        ops(*final(out)) == ops(*old(out)) + box_ops(
            x0,
            y0,
            inner_w as nat,
            inner_h as nat,
            title@,
        ),
{
    let ghost start = ops(*out);
    let t = fit(title, inner_w);
    let tw: usize = measure(t.as_str());
    let fill: usize = if tw < inner_w + 2 {
        inner_w + 2 - tw
    } else {
        0
    };
    let mut top: String = "┌".to_owned();
    top.push_str(t.as_str());
    let dashes = repeat('─', fill);
    top.push_str(dashes.as_str());
    top.push_str("┐");
    let ghost head = seq![OpView::MoveTo(x0, y0), OpView::Print(top@)];
    out.push(Op::MoveTo(x0, y0));
    out.push(Op::Print(top));
    assert(ops(*out) =~= start + head);
    let mut row: usize = 0;
    assert(start + head + Seq::<OpView>::empty() =~= start + head);
    while row < inner_h
        invariant
            row <= inner_h,
            y0 + 1 + inner_h <= 0xffff,
            ops(*out) == start + head + box_rows(x0, y0, inner_w as nat, row as nat),
        decreases inner_h - row,
    {
        let ghost before = box_rows(x0, y0, inner_w as nat, row as nat);
        let mut s: String = "│ ".to_owned();
        let spaces = repeat(' ', inner_w);
        s.push_str(spaces.as_str());
        s.push_str(" │");
        let y: u16 = y0 + 1 + row as u16;
        out.push(Op::MoveTo(x0, y));
        out.push(Op::Print(s));
        assert(ops(*out) =~= start + head + (before + seq![
            OpView::MoveTo(x0, y),
            OpView::Print(s@),
        ]));
        row = row + 1;
    }
    let mut bottom: String = "└".to_owned();
    let line = repeat('─', inner_w + 2);
    bottom.push_str(line.as_str());
    bottom.push_str("┘");
    let y: u16 = y0 + 1 + inner_h as u16;
    out.push(Op::MoveTo(x0, y));
    out.push(Op::Print(bottom));
    proof {
        let rows = box_rows(x0, y0, inner_w as nat, inner_h as nat);
        let tail = seq![OpView::MoveTo(x0, y), OpView::Print(bottom@)];
        assert(ops(*out) =~= start + head + rows + tail);
        append_moves_in(start, head, rows);
        append_moves_in(start, head + rows, tail);
    }
}

} // verus!
