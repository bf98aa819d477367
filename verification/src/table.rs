//! Table layout: column widths, borders and rows of aligned cells.

use vstd::prelude::*;
use crate::strings;
use crate::strings::{from_chars, one, repeat, swap_chars};
use crate::text;
use crate::text::{Color, Line, Span, SpanView, Style, StyleView, total_width};
use crate::width;
use crate::width::fit_chars;

verus! {

broadcast use strings::group_views;

/// The widest a column is laid out.
pub const MAX_TABLE_CELL: usize = 40;

/// How the cells of a column are aligned.
#[derive(Clone, Copy, Debug, PartialEq, Eq, Structural)]
pub enum Align {
    Unset,
    Left,
    Center,
    Right,
}

/// A table as it is collected; a cell is a line of styled text.
pub struct Table {
    pub aligns: Vec<Align>,
    pub head: Vec<Line>,
    pub rows: Vec<Vec<Line>>,
    pub cur_row: Vec<Line>,
    pub in_head: bool,
}

#[verifier::ext_equal]
pub struct TableView {
    pub aligns: Seq<Align>,
    pub head: Seq<Seq<SpanView>>,
    pub rows: Seq<Seq<Seq<SpanView>>>,
    pub cur_row: Seq<Seq<SpanView>>,
    pub in_head: bool,
}

impl View for Table {
    type V = TableView;

    open spec fn view(&self) -> TableView {
        TableView {
            aligns: self.aligns@,
            head: strings::views(self.head@),
            rows: strings::views2(self.rows@),
            cur_row: strings::views(self.cur_row@),
            in_head: self.in_head,
        }
    }
}

/// `spans` with every line break turned into a space.
pub open spec fn cleaned(spans: Seq<SpanView>) -> Seq<SpanView> {
    spans.map_values(
        |s: SpanView| SpanView { text: strings::swapped(s.text, '\n', ' '), style: s.style },
    )
}

/// What is left of `spans` in `room` columns: the spans, the columns they
/// take, and whether anything had to go.
pub open spec fn cut(spans: Seq<SpanView>, room: int) -> (Seq<SpanView>, int, bool)
    decreases spans.len(),
{
    if spans.len() == 0 {
        (seq![], 0, false)
    } else {
        let t = strings::swapped(spans[0].text, '\n', ' ');
        let n = width::fit_len(t, room);
        let kept = t.take(n);
        let piece = if n > 0 {
            seq![SpanView { text: kept, style: spans[0].style }]
        } else {
            seq![]
        };
        if n < t.len() {
            (piece, width::run_cols(kept) as int, true)
        } else {
            let rest = cut(spans.skip(1), room - width::run_cols(kept));
            (piece + rest.0, width::run_cols(kept) + rest.1, rest.2)
        }
    }
}

/// The mark that stands for text that was cut off.
pub open spec fn ellipsis() -> SpanView {
    SpanView { text: "…"@, style: StyleView { dim: true, ..text::plain_style() } }
}

/// A cell cut down to `max` columns, and the columns it then takes.
pub open spec fn truncated(spans: Seq<SpanView>, max: nat) -> (Seq<SpanView>, int) {
    if text::line_width(spans) <= max {
        (cleaned(spans), text::line_width(spans) as int)
    } else {
        let c = cut(
            spans,
            if max > 0 {
                max - 1
            } else {
                0
            },
        );
        if c.2 {
            (c.0.push(ellipsis()), c.1 + 1)
        } else {
            (c.0, c.1)
        }
    }
}

proof fn cut_fits(spans: Seq<SpanView>, room: int)
    requires
        room >= 0,
    ensures
        0 <= cut(spans, room).1 <= room,
    decreases spans.len(),
{
    if spans.len() > 0 {
        let t = strings::swapped(spans[0].text, '\n', ' ');
        let n = width::fit_len(t, room);
        width::fit_len_is_longest(t, room);
        if n >= t.len() {
            cut_fits(spans.skip(1), room - width::run_cols(t.take(n)));
        }
    }
}

/// A truncated cell takes at most the columns it was given, one at least.
pub proof fn truncated_fits(spans: Seq<SpanView>, max: nat)
    requires
        max >= 1,
    ensures
        0 <= truncated(spans, max).1 <= max,
{
    cut_fits(spans, max - 1);
}

/// Cuts a styled cell down to `max` columns, appending `…` when truncated.
pub fn truncate_spans(spans: &Vec<Span>, max: usize) -> (r: (Vec<Span>, usize))
    ensures
        (strings::views(r.0@), r.1 as int) == truncated(strings::views(spans@), max as nat),
        text::all_printable(strings::views(spans@)) ==> r.1 == text::line_len(
            strings::views(r.0@),
        ),
{
    let ghost vs = strings::views(spans@);
    let total: u128 = total_width(spans);
    if total <= max as u128 {
        let mut out: Vec<Span> = Vec::new();
        let mut i: usize = 0;
        while i < spans.len()
            invariant
                i <= spans@.len(),
                vs == strings::views(spans@),
                strings::views(out@) =~= cleaned(vs).take(i as int),
                text::line_len(strings::views(out@)) == text::line_len(vs.take(i as int)),
            decreases spans@.len() - i,
        {
            let chars = swap_chars(spans[i].text.as_str(), '\n', ' ');
            let t = from_chars(&chars, 0, chars.len());
            assert(t@ =~= chars@);
            assert(vs.take(i + 1).drop_last() =~= vs.take(i as int));
            let ghost before = strings::views(out@);
            out.push(Span { text: t, style: spans[i].style.clone() });
            assert(strings::views(out@).drop_last() =~= before);
            i = i + 1;
        }
        assert(cleaned(vs).take(i as int) =~= cleaned(vs));
        assert(vs.take(i as int) =~= vs);
        return (out, total as usize);
    }
    let budget: usize = if max > 0 {
        max - 1
    } else {
        0
    };
    let mut out: Vec<Span> = Vec::new();
    let mut used: usize = 0;
    let mut i: usize = 0;
    let ghost whole = cut(vs, budget as int);
    assert(vs.skip(0) =~= vs);
    assert(seq![] + whole.0 =~= whole.0);
    while i < spans.len()
        invariant
            i <= spans@.len(),
            vs == strings::views(spans@),
            text::line_width(vs) > max,
            used <= budget,
            budget == (if max > 0 {
                max - 1
            } else {
                0
            }),
            whole == cut(vs, budget as int),
            ({
                let rest = cut(vs.skip(i as int), budget - used);
                whole == (strings::views(out@) + rest.0, used + rest.1, rest.2)
            }),
            text::all_printable(vs) ==> used == text::line_len(strings::views(out@)),
        decreases spans@.len() - i,
    {
        let ghost rest = cut(vs.skip(i as int), budget - used);
        let ghost before = strings::views(out@);
        assert(vs.skip(i as int)[0] == spans@[i as int]@);
        assert(vs.skip(i as int).skip(1) =~= vs.skip(i + 1));
        let chars = swap_chars(spans[i].text.as_str(), '\n', ' ');
        let (n, w) = fit_chars(&chars, budget - used);
        if n > 0 {
            let t = from_chars(&chars, 0, n);
            assert(t@ =~= chars@.take(n as int));
            out.push(Span { text: t, style: spans[i].style.clone() });
            assert(strings::views(out@).drop_last() =~= before);
        }
        assert(text::all_printable(vs) ==> width::printable_text(chars@)) by {
            assert(vs[i as int] == spans@[i as int]@);
        }
        used = used + w;
        if n < chars.len() {
            assert(whole.0 =~= strings::views(out@));
            let ghost now = strings::views(out@);
            out.push(Span::new("…", Style::default().dim()));
            proof {
                reveal_strlit("…");
                assert(strings::views(out@) =~= now.push(ellipsis()));
                assert(now.push(ellipsis()).drop_last() =~= now);
                assert(ellipsis().text.len() == 1);
                assert(text::all_printable(vs) ==> used == text::line_len(now));
                assert(text::line_len(now.push(ellipsis())) == text::line_len(now) + 1);
            }
            return (out, used + 1);
        }
        proof {
            let after = cut(vs.skip(i + 1), budget - used);
            assert(before + rest.0 =~= strings::views(out@) + after.0);
        }
        i = i + 1;
    }
    assert(vs.skip(i as int) =~= seq![]);
    assert(whole.0 =~= strings::views(out@));
    (out, used)
}

/// The style of a table's lines.
pub open spec fn border_style() -> StyleView {
    StyleView { fg: Some(Color::DarkGrey), ..text::plain_style() }
}

/// The spans of a cell, all bold in the head.
pub open spec fn emboldened(spans: Seq<SpanView>, bold: bool) -> Seq<SpanView> {
    if bold {
        spans.map_values(
            |s: SpanView| SpanView { text: s.text, style: StyleView { bold: true, ..s.style } },
        )
    } else {
        spans
    }
}

/// The columns left and right of a cell that leaves `pad` columns free.
pub open spec fn padding(align: Option<Align>, pad: int) -> (int, int) {
    match align {
        Some(Align::Right) => (pad, 0),
        Some(Align::Center) => (pad / 2, pad - pad / 2),
        _ => (0, pad),
    }
}

/// A span of `n` spaces.
pub open spec fn blank(n: int) -> SpanView {
    SpanView { text: strings::copies(' ', n as nat), style: text::plain_style() }
}

/// The bar that opens column `i` of a row.
pub open spec fn bar_text(i: int) -> Seq<char> {
    if i == 0 {
        "│ "@
    } else {
        " │ "@
    }
}

/// Cell `i` of a row, which may have too few.
pub open spec fn cell_at(cells: Seq<Seq<SpanView>>, i: int) -> Seq<SpanView> {
    if i < cells.len() {
        cells[i]
    } else {
        seq![]
    }
}

/// The columns left and right of cell `i` of a row.
pub open spec fn cell_pads(
    cells: Seq<Seq<SpanView>>,
    aligns: Seq<Align>,
    widths: Seq<usize>,
    i: int,
) -> (int, int) {
    let used = truncated(cell_at(cells, i), widths[i] as nat).1;
    let align = if i < aligns.len() {
        Some(aligns[i])
    } else {
        None
    };
    padding(
        align,
        if used < widths[i] {
            widths[i] - used
        } else {
            0
        },
    )
}

/// The spans of column `i` of a row, with the bar that opens it.
pub open spec fn cell_spans(
    cells: Seq<Seq<SpanView>>,
    aligns: Seq<Align>,
    widths: Seq<usize>,
    bold: bool,
    i: int,
) -> Seq<SpanView> {
    let spans = truncated(cell_at(cells, i), widths[i] as nat).0;
    let (left, right) = cell_pads(cells, aligns, widths, i);
    seq![SpanView { text: bar_text(i), style: border_style() }, blank(left)] + emboldened(
        spans,
        bold,
    ) + seq![blank(right)]
}

/// The first `n` columns of a row.
pub open spec fn row_cells(
    cells: Seq<Seq<SpanView>>,
    aligns: Seq<Align>,
    widths: Seq<usize>,
    bold: bool,
    n: nat,
) -> Seq<SpanView>
    decreases n,
{
    if n == 0 {
        seq![]
    } else {
        row_cells(cells, aligns, widths, bold, (n - 1) as nat) + cell_spans(
            cells,
            aligns,
            widths,
            bold,
            n - 1,
        )
    }
}

/// A whole row of a table.
pub open spec fn row_line(
    cells: Seq<Seq<SpanView>>,
    aligns: Seq<Align>,
    widths: Seq<usize>,
    bold: bool,
) -> Seq<SpanView> {
    row_cells(cells, aligns, widths, bold, widths.len()).push(
        SpanView { text: " │"@, style: border_style() },
    )
}

fn embolden(spans: Vec<Span>) -> (r: Vec<Span>)
    ensures
        strings::views(r@) == emboldened(strings::views(spans@), true),
{
    let mut out: Vec<Span> = Vec::new();
    let ghost want = emboldened(strings::views(spans@), true);
    let mut i: usize = 0;
    while i < spans.len()
        invariant
            i <= spans@.len(),
            want == emboldened(strings::views(spans@), true),
            strings::views(out@) =~= want.take(i as int),
        decreases spans@.len() - i,
    {
        let mut s = spans[i].clone();
        s.style.bold = true;
        out.push(s);
        i = i + 1;
    }
    assert(want.take(i as int) =~= want);
    out
}

/// Whether what is shown of cell `i` of a row takes one column for each character.
pub open spec fn column_a_char(
    cells: Seq<Seq<SpanView>>,
    widths: Seq<usize>,
    i: int,
) -> bool {
    let (spans, used) = truncated(cell_at(cells, i), widths[i] as nat);
    text::line_len(spans) == used
}

/// Whether the cells of a row hold only printable ASCII.
pub open spec fn ascii_row(cells: Seq<Seq<SpanView>>) -> bool {
    forall|i: int| 0 <= i < cells.len() ==> text::all_printable(#[trigger] cells[i])
}

/// Whether the cells of a table hold only printable ASCII.
pub open spec fn ascii_table(t: TableView) -> bool {
    ascii_row(t.head) && forall|i: int| 0 <= i < t.rows.len() ==> ascii_row(#[trigger] t.rows[i])
}

/// Lays out one cell of a row, with the bar that opens it.
fn table_cell(
    cells: &Vec<Line>,
    aligns: &Vec<Align>,
    widths: &Vec<usize>,
    bold: bool,
    i: usize,
) -> (r: Vec<Span>)
    requires
        i < widths@.len(),
    ensures
        strings::views(r@) == cell_spans(
            strings::views(cells@),
            aligns@,
            widths@,
            bold,
            i as int,
        ),
        text::all_printable(cell_at(strings::views(cells@), i as int)) ==> column_a_char(
            strings::views(cells@),
            widths@,
            i as int,
        ),
{
    let w: usize = widths[i];
    let none: Vec<Span> = Vec::new();
    let (spans, used) = if i < cells.len() {
        truncate_spans(&cells[i].spans, w)
    } else {
        truncate_spans(&none, w)
    };
    let mut spans = if bold {
        embolden(spans)
    } else {
        spans
    };
    let pad: usize = if used < w {
        w - used
    } else {
        0
    };
    let align = if i < aligns.len() {
        Some(aligns[i])
    } else {
        None
    };
    let (left, right) = match align {
        Some(Align::Right) => (pad, 0),
        Some(Align::Center) => (pad / 2, pad - pad / 2),
        _ => (0, pad),
    };
    let ghost inner = strings::views(spans@);
    let bar = Span::new(
        if i == 0 {
            "│ "
        } else {
            " │ "
        },
        Style::default().fg(Color::DarkGrey),
    );
    let before = Span { text: repeat(' ', left), style: Style::default() };
    let after = Span { text: repeat(' ', right), style: Style::default() };
    let mut out: Vec<Span> = Vec::new();
    out.push(bar);
    out.push(before);
    out.append(&mut spans);
    out.push(after);
    assert(strings::views(out@) =~= seq![bar@, before@] + inner + seq![after@]);
    out
}

/// Lays out one row of a table.
pub fn table_row(cells: &Vec<Line>, aligns: &Vec<Align>, widths: &Vec<usize>, bold: bool) -> (r: Vec<
    Span,
>)
    ensures
        strings::views(r@) == row_line(strings::views(cells@), aligns@, widths@, bold),
        ascii_row(strings::views(cells@)) ==> forall|i: int|
            0 <= i < widths@.len() ==> #[trigger] column_a_char(strings::views(cells@), widths@, i),
{
    let ghost cs = strings::views(cells@);
    let mut out: Vec<Span> = Vec::new();
    let mut i: usize = 0;
    while i < widths.len()
        invariant
            i <= widths@.len(),
            cs == strings::views(cells@),
            strings::views(out@) == row_cells(cs, aligns@, widths@, bold, i as nat),
            ascii_row(cs) ==> forall|k: int|
                0 <= k < i ==> #[trigger] column_a_char(cs, widths@, k),
        decreases widths@.len() - i,
    {
        let mut cell = table_cell(cells, aligns, widths, bold, i);
        out.append(&mut cell);
        i = i + 1;
    }
    out.push(Span::new(" │", Style::default().fg(Color::DarkGrey)));
    out
}

/// The number of columns of a table.
pub open spec fn most_cells(rows: Seq<Seq<Seq<SpanView>>>) -> nat
    decreases rows.len(),
{
    if rows.len() == 0 {
        0
    } else {
        let most = most_cells(rows.drop_last());
        if rows.last().len() > most {
            rows.last().len()
        } else {
            most
        }
    }
}

/// The width a column needs for the cells of `rows`, within the widest.
pub open spec fn col_width(rows: Seq<Seq<Seq<SpanView>>>, i: int) -> usize
    decreases rows.len(),
{
    if rows.len() == 0 {
        1
    } else {
        let w = col_width(rows.drop_last(), i);
        let row = rows.last();
        if i < row.len() && text::line_width(row[i]) > w && w < MAX_TABLE_CELL {
            if text::line_width(row[i]) < MAX_TABLE_CELL {
                text::line_width(row[i]) as usize
            } else {
                MAX_TABLE_CELL
            }
        } else {
            w
        }
    }
}

/// The sum of column widths.
pub open spec fn sum(widths: Seq<usize>) -> nat
    decreases widths.len(),
{
    if widths.len() == 0 {
        0
    } else {
        sum(widths.drop_last()) + widths.last() as nat
    }
}

/// The columns a table takes, borders included.
pub open spec fn table_width(widths: Seq<usize>) -> nat {
    sum(widths) + 3 * widths.len() + 1
}

/// Which column is the widest; the last of them, where several are.
pub open spec fn widest(widths: Seq<usize>) -> int
    decreases widths.len(),
{
    if widths.len() <= 1 {
        0
    } else {
        let i = widest(widths.drop_last());
        if widths.last() >= widths[i] {
            widths.len() - 1
        } else {
            i
        }
    }
}

/// The widest column, the last one of them where several are as wide.
pub proof fn widest_is_widest(widths: Seq<usize>)
    requires
        widths.len() > 0,
    ensures
        0 <= widest(widths) < widths.len(),
        forall|j: int| 0 <= j < widths.len() ==> #[trigger] widths[j] <= widths[widest(widths)],
        forall|j: int|
            widest(widths) < j < widths.len() ==> #[trigger] widths[j] < widths[widest(widths)],
    decreases widths.len(),
{
    if widths.len() > 1 {
        let rest = widths.drop_last();
        widest_is_widest(rest);
        assert forall|j: int| 0 <= j < widths.len() implies #[trigger] widths[j]
            <= widths[widest(widths)] by {
            if j < rest.len() {
                assert(widths[j] == rest[j]);
            }
        }
        assert forall|j: int| widest(widths) < j < widths.len() implies #[trigger] widths[j]
            < widths[widest(widths)] by {
            if j < rest.len() {
                assert(widths[j] == rest[j]);
            }
        }
    }
}

/// The sum of widths when one of them changes.
pub proof fn sum_of_update(widths: Seq<usize>, i: int, w: usize)
    requires
        0 <= i < widths.len(),
    ensures
        sum(widths.update(i, w)) == sum(widths) - widths[i] + w,
    decreases widths.len(),
{
    let r = widths.update(i, w);
    if i == widths.len() - 1 {
        assert(r.drop_last() =~= widths.drop_last());
    } else {
        assert(r.drop_last() =~= widths.drop_last().update(i, w));
        sum_of_update(widths.drop_last(), i, w);
    }
}

/// Column widths narrowed, widest first, until the table takes at most `avail`
/// columns or no column is wider than five.
pub open spec fn shrunk(widths: Seq<usize>, avail: nat) -> Seq<usize>
    decreases sum(widths),
    when widths.len() > 0 via shrunk_ends
{
    let i = widest(widths);
    if table_width(widths) <= avail || widths[i] <= 5 {
        widths
    } else {
        shrunk(widths.update(i, (widths[i] - 1) as usize), avail)
    }
}

#[via_fn]
proof fn shrunk_ends(widths: Seq<usize>, avail: nat) {
    widest_is_widest(widths);
    let i = widest(widths);
    if widths[i] > 5 {
        sum_of_update(widths, i, (widths[i] - 1) as usize);
    }
}

/// Narrowing never adds or widens a column, stops only when the table fits or
/// no column is wider than five, and leaves columns of at most five alone.
pub proof fn shrinking_fits(widths: Seq<usize>, avail: nat)
    requires
        widths.len() > 0,
    ensures
        shrunk(widths, avail).len() == widths.len(),
        table_width(shrunk(widths, avail)) <= avail || forall|j: int|
            0 <= j < widths.len() ==> #[trigger] shrunk(widths, avail)[j] <= 5,
        forall|j: int|
            0 <= j < widths.len() ==> #[trigger] shrunk(widths, avail)[j] <= widths[j],
        forall|j: int|
            0 <= j < widths.len() && shrunk(widths, avail)[j] < widths[j]
                ==> #[trigger] shrunk(widths, avail)[j] >= 5,
    decreases sum(widths),
{
    widest_is_widest(widths);
    let i = widest(widths);
    if table_width(widths) <= avail || widths[i] <= 5 {
    } else {
        let next = widths.update(i, (widths[i] - 1) as usize);
        sum_of_update(widths, i, (widths[i] - 1) as usize);
        shrinking_fits(next, avail);
        assert forall|j: int| 0 <= j < widths.len() implies #[trigger] shrunk(widths, avail)[j]
            <= widths[j] by {
            assert(shrunk(next, avail)[j] <= next[j]);
        }
        assert forall|j: int|
            0 <= j < widths.len() && shrunk(widths, avail)[j] < widths[j] implies #[trigger] shrunk(
            widths,
            avail,
        )[j] >= 5 by {
            if shrunk(next, avail)[j] < next[j] {
                assert(shrunk(next, avail)[j] >= 5);
            }
        }
    }
}

fn widest_column(widths: &Vec<usize>) -> (i: usize)
    requires
        widths@.len() > 0,
    ensures
        i == widest(widths@),
        i < widths@.len(),
{
    let mut best: usize = 0;
    let mut i: usize = 1;
    while i < widths.len()
        invariant
            1 <= i <= widths@.len(),
            best < i,
            best == widest(widths@.take(i as int)),
        decreases widths@.len() - i,
    {
        assert(widths@.take(i + 1).drop_last() =~= widths@.take(i as int));
        if widths[i] >= widths[best] {
            best = i;
        }
        i = i + 1;
    }
    assert(widths@.take(i as int) =~= widths@);
    best
}

fn sum_widths(widths: &Vec<usize>) -> (r: u128)
    ensures
        r == sum(widths@),
        r <= widths@.len() * 0xffff_ffff_ffff_ffff,
{
    let mut total: u128 = 0;
    let mut i: usize = 0;
    assert(widths@.take(0) =~= seq![]);
    while i < widths.len()
        invariant
            i <= widths@.len(),
            total == sum(widths@.take(i as int)),
            total <= i * 0xffff_ffff_ffff_ffff,
        decreases widths@.len() - i,
    {
        assert(widths@.take(i + 1).drop_last() =~= widths@.take(i as int));
        total = total + widths[i] as u128;
        i = i + 1;
    }
    assert(widths@.take(i as int) =~= widths@);
    total
}

/// Narrows columns, widest first, until the table fits `avail` columns or no
/// column is wider than five.
fn shrink(widths: Vec<usize>, avail: usize) -> (r: Vec<usize>)
    requires
        widths@.len() > 0,
        sum(widths@) <= widths@.len() * MAX_TABLE_CELL,
    ensures
        r@ == shrunk(widths@, avail as nat),
        r@.len() == widths@.len(),
        forall|j: int| 0 <= j < r@.len() ==> #[trigger] r@[j] <= widths@[j],
{
    let mut ws = widths;
    let n: u128 = ws.len() as u128;
    loop
        invariant
            ws@.len() > 0,
            ws@.len() == widths@.len(),
            n == ws@.len(),
            ws.len() <= usize::MAX,
            sum(ws@) <= n * MAX_TABLE_CELL,
            forall|j: int| 0 <= j < ws@.len() ==> #[trigger] ws@[j] <= widths@[j],
            shrunk(ws@, avail as nat) == shrunk(widths@, avail as nat),
        decreases sum(ws@),
    {
        let total: u128 = sum_widths(&ws) + 3 * n + 1;
        if total <= avail as u128 {
            return ws;
        }
        let i: usize = widest_column(&ws);
        let w: usize = ws[i];
        if w <= 5 {
            return ws;
        }
        proof {
            sum_of_update(ws@, i as int, (w - 1) as usize);
        }
        ws.set(i, w - 1);
    }
}

/// The rule above, inside or below a table, up to its first `n` columns.
pub open spec fn rule_text(
    widths: Seq<usize>,
    left: Seq<char>,
    mid: Seq<char>,
    right: Seq<char>,
    n: nat,
) -> Seq<char>
    decreases n,
{
    if n == 0 {
        left
    } else {
        rule_text(widths, left, mid, right, (n - 1) as nat) + strings::copies(
            '─',
            (widths[n - 1] + 2) as nat,
        ) + (if n == widths.len() {
            right
        } else {
            mid
        })
    }
}

/// A whole rule, as a line.
pub open spec fn rule_line(
    widths: Seq<usize>,
    left: Seq<char>,
    mid: Seq<char>,
    right: Seq<char>,
) -> Seq<SpanView> {
    seq![
        SpanView {
            text: rule_text(widths, left, mid, right, widths.len()),
            style: border_style(),
        },
    ]
}

fn hborder(widths: &Vec<usize>, left: &str, mid: &str, right: &str) -> (r: Vec<Span>)
    requires
        forall|j: int| 0 <= j < widths@.len() ==> #[trigger] widths@[j] <= MAX_TABLE_CELL,
    ensures
        strings::views(r@) == rule_line(widths@, left@, mid@, right@),
{
    let mut s: String = left.to_owned();
    let n: usize = widths.len();
    let mut i: usize = 0;
    while i < n
        invariant
            i <= n,
            n == widths@.len(),
            forall|j: int| 0 <= j < widths@.len() ==> #[trigger] widths@[j] <= MAX_TABLE_CELL,
            s@ == rule_text(widths@, left@, mid@, right@, i as nat),
        decreases n - i,
    {
        let dashes = repeat('─', widths[i] + 2);
        s.push_str(dashes.as_str());
        s.push_str(
            if i == n - 1 {
                right
            } else {
                mid
            },
        );
        i = i + 1;
    }
    let r = one(Span { text: s, style: Style::default().fg(Color::DarkGrey) });
    assert(strings::views(r@) =~= rule_line(widths@, left@, mid@, right@));
    r
}

/// The number of columns of a table.
pub open spec fn columns(t: TableView) -> nat {
    let most = most_cells(t.rows);
    let headed = if t.head.len() > most {
        t.head.len()
    } else {
        most
    };
    if t.aligns.len() > headed {
        t.aligns.len()
    } else {
        headed
    }
}

/// The column widths of a table that has `avail` columns to go on.
pub open spec fn layout(t: TableView, avail: nat) -> Seq<usize> {
    shrunk(
        Seq::new(columns(t), |i: int| col_width(seq![t.head] + t.rows, i)),
        avail,
    )
}

/// The lines of a table that has `avail` columns to go on.
pub open spec fn table_lines(t: TableView, avail: nat) -> Seq<Seq<SpanView>> {
    if columns(t) == 0 {
        seq![]
    } else {
        let ws = layout(t, avail);
        let head = if t.head.len() > 0 {
            seq![row_line(t.head, t.aligns, ws, true), rule_line(ws, "├"@, "┼"@, "┤"@)]
        } else {
            seq![]
        };
        let rows = t.rows.map_values(|row| row_line(row, t.aligns, ws, false));
        seq![rule_line(ws, "┌"@, "┬"@, "┐"@)] + head + rows + seq![
            rule_line(ws, "└"@, "┴"@, "┘"@),
        ]
    }
}

fn count_columns(t: &Table) -> (n: usize)
    ensures
        n == columns(t@),
{
    let mut most: usize = 0;
    let mut i: usize = 0;
    let ghost rows = strings::views2(t.rows@);
    assert(rows.take(0) =~= seq![]);
    while i < t.rows.len()
        invariant
            i <= t.rows@.len(),
            rows == strings::views2(t.rows@),
            most == most_cells(rows.take(i as int)),
        decreases t.rows@.len() - i,
    {
        assert(rows.take(i + 1).drop_last() =~= rows.take(i as int));
        if t.rows[i].len() > most {
            most = t.rows[i].len();
        }
        i = i + 1;
    }
    assert(rows.take(i as int) =~= rows);
    if t.head.len() > most {
        most = t.head.len();
    }
    if t.aligns.len() > most {
        most = t.aligns.len();
    }
    most
}

fn widen(w: usize, row: &Vec<Line>, i: usize) -> (r: usize)
    ensures
        r == ({
            let row = strings::views(row@);
            if i < row.len() && text::line_width(row[i as int]) > w && w < MAX_TABLE_CELL {
                if text::line_width(row[i as int]) < MAX_TABLE_CELL {
                    text::line_width(row[i as int]) as usize
                } else {
                    MAX_TABLE_CELL
                }
            } else {
                w
            }
        }),
{
    if i < row.len() {
        let cell: u128 = total_width(&row[i].spans);
        assert(strings::views(row@)[i as int] == strings::views(row@[i as int].spans@));
        if cell > w as u128 && w < MAX_TABLE_CELL {
            if cell < MAX_TABLE_CELL as u128 {
                return cell as usize;
            }
            return MAX_TABLE_CELL;
        }
    }
    w
}

fn column_width(t: &Table, i: usize) -> (w: usize)
    ensures
        w == col_width(seq![t@.head] + t@.rows, i as int),
        w <= MAX_TABLE_CELL,
{
    let ghost all = seq![t@.head] + t@.rows;
    assert(all.take(0) =~= seq![]);
    assert(all.take(1).drop_last() =~= all.take(0));
    assert(all.take(1).last() == t@.head);
    assert(col_width(all.take(0), i as int) == 1);
    let mut w: usize = widen(1, &t.head, i);
    let mut k: usize = 0;
    while k < t.rows.len()
        invariant
            k <= t.rows@.len(),
            all == seq![t@.head] + t@.rows,
            w == col_width(all.take(k + 1), i as int),
            w <= MAX_TABLE_CELL,
        decreases t.rows@.len() - k,
    {
        assert(all.take(k + 2).drop_last() =~= all.take(k + 1));
        assert(all.take(k + 2).last() == strings::views(t.rows@[k as int]@));
        w = widen(w, &t.rows[k], i);
        k = k + 1;
    }
    assert(all.take(k + 1) =~= all);
    w
}

fn column_widths(t: &Table, n: usize, avail: usize) -> (r: Vec<usize>)
    requires
        n == columns(t@),
        n > 0,
    ensures
        r@ == layout(t@, avail as nat),
        forall|j: int| 0 <= j < r@.len() ==> #[trigger] r@[j] <= MAX_TABLE_CELL,
{
    let mut widths: Vec<usize> = Vec::new();
    let ghost want = Seq::new(columns(t@), |i: int| col_width(seq![t@.head] + t@.rows, i));
    let mut i: usize = 0;
    while i < n
        invariant
            i <= n,
            n == want.len(),
            want == Seq::new(columns(t@), |i: int| col_width(seq![t@.head] + t@.rows, i)),
            widths@ =~= want.take(i as int),
            sum(widths@) <= i * MAX_TABLE_CELL,
            forall|j: int| 0 <= j < widths@.len() ==> #[trigger] widths@[j] <= MAX_TABLE_CELL,
        decreases n - i,
    {
        let w: usize = column_width(t, i);
        assert(widths@.push(w).drop_last() =~= widths@);
        widths.push(w);
        i = i + 1;
    }
    assert(want.take(i as int) =~= want);
    shrink(widths, avail)
}

/// The columns that the first `n` cells of a row take, with the bars that open
/// them.
pub open spec fn row_cols(
    cells: Seq<Seq<SpanView>>,
    aligns: Seq<Align>,
    widths: Seq<usize>,
    n: nat,
) -> int
    decreases n,
{
    if n == 0 {
        0
    } else {
        let i = n - 1;
        let (left, right) = cell_pads(cells, aligns, widths, i);
        row_cols(cells, aligns, widths, i as nat) + bar_text(i).len() + left + truncated(
            cell_at(cells, i),
            widths[i] as nat,
        ).1 + right
    }
}

/// Whether every column is at least one wide.
pub open spec fn all_wide(widths: Seq<usize>) -> bool {
    forall|i: int| 0 <= i < widths.len() ==> #[trigger] widths[i] >= 1
}

/// A cell and what is left and right of it take the whole column.
pub proof fn cells_fill_their_columns(
    cells: Seq<Seq<SpanView>>,
    aligns: Seq<Align>,
    widths: Seq<usize>,
    i: int,
)
    requires
        0 <= i < widths.len(),
        all_wide(widths),
    ensures
        ({
            let (left, right) = cell_pads(cells, aligns, widths, i);
            let used = truncated(cell_at(cells, i), widths[i] as nat).1;
            left >= 0 && right >= 0 && used >= 0 && left + used + right == widths[i]
        }),
{
    truncated_fits(cell_at(cells, i), widths[i] as nat);
}

proof fn row_cols_add_up(
    cells: Seq<Seq<SpanView>>,
    aligns: Seq<Align>,
    widths: Seq<usize>,
    n: nat,
)
    requires
        n <= widths.len(),
        all_wide(widths),
    ensures
        n > 0 ==> row_cols(cells, aligns, widths, n) == sum(widths.take(n as int)) + 3 * n - 1,
    decreases n,
{
    if n > 0 {
        row_cols_add_up(cells, aligns, widths, (n - 1) as nat);
        cells_fill_their_columns(cells, aligns, widths, n - 1);
        reveal_strlit("│ ");
        reveal_strlit(" │ ");
        assert(widths.take(n as int).drop_last() =~= widths.take(n - 1));
        if n == 1 {
            assert(widths.take(0) =~= seq![]);
            assert(row_cols(cells, aligns, widths, 0) == 0);
        }
    }
}

proof fn rules_add_up(
    widths: Seq<usize>,
    left: Seq<char>,
    mid: Seq<char>,
    right: Seq<char>,
    n: nat,
)
    requires
        n <= widths.len(),
        left.len() == 1,
        mid.len() == 1,
        right.len() == 1,
    ensures
        rule_text(widths, left, mid, right, n).len() == sum(widths.take(n as int)) + 3 * n + 1,
    decreases n,
{
    if n > 0 {
        rules_add_up(widths, left, mid, right, (n - 1) as nat);
        assert(widths.take(n as int).drop_last() =~= widths.take(n - 1));
    } else {
        assert(widths.take(0) =~= seq![]);
    }
}

proof fn columns_start_wide(rows: Seq<Seq<Seq<SpanView>>>, i: int)
    ensures
        col_width(rows, i) >= 1,
    decreases rows.len(),
{
    if rows.len() > 0 {
        columns_start_wide(rows.drop_last(), i);
    }
}

/// Every column of a table is at least one wide.
pub proof fn layouts_are_wide(t: TableView, avail: nat)
    requires
        columns(t) > 0,
    ensures
        layout(t, avail).len() == columns(t),
        all_wide(layout(t, avail)),
{
    let all = Seq::new(columns(t), |i: int| col_width(seq![t.head] + t.rows, i));
    shrinking_fits(all, avail);
    let ws = layout(t, avail);
    assert forall|i: int| 0 <= i < ws.len() implies #[trigger] ws[i] >= 1 by {
        columns_start_wide(seq![t.head] + t.rows, i);
        assert(all[i] == col_width(seq![t.head] + t.rows, i));
        assert(shrunk(all, avail)[i] <= all[i]);
    }
}

/// All lines of a table take the same columns: a rule, drawn with one character
/// for each, and a row of any cells.
pub proof fn tables_are_even(t: TableView, avail: nat, cells: Seq<Seq<SpanView>>)
    requires
        columns(t) > 0,
    ensures
        ({
            let ws = layout(t, avail);
            &&& row_cols(cells, t.aligns, ws, ws.len()) + " │"@.len() == table_width(ws)
            &&& text::line_len(rule_line(ws, "┌"@, "┬"@, "┐"@)) == table_width(ws)
            &&& text::line_len(rule_line(ws, "├"@, "┼"@, "┤"@)) == table_width(ws)
            &&& text::line_len(rule_line(ws, "└"@, "┴"@, "┘"@)) == table_width(ws)
        }),
{
    let ws = layout(t, avail);
    layouts_are_wide(t, avail);
    row_cols_add_up(cells, t.aligns, ws, ws.len());
    assert(ws.take(ws.len() as int) =~= ws);
    reveal_strlit(" │");
    rules_are_long(ws);
}

proof fn rules_are_long(ws: Seq<usize>)
    ensures
        text::line_len(rule_line(ws, "┌"@, "┬"@, "┐"@)) == table_width(ws),
        text::line_len(rule_line(ws, "├"@, "┼"@, "┤"@)) == table_width(ws),
        text::line_len(rule_line(ws, "└"@, "┴"@, "┘"@)) == table_width(ws),
{
    reveal_strlit("┌");
    reveal_strlit("┬");
    reveal_strlit("┐");
    reveal_strlit("├");
    reveal_strlit("┼");
    reveal_strlit("┤");
    reveal_strlit("└");
    reveal_strlit("┴");
    reveal_strlit("┘");
    assert(ws.take(ws.len() as int) =~= ws);
    rules_add_up(ws, "┌"@, "┬"@, "┐"@, ws.len());
    rules_add_up(ws, "├"@, "┼"@, "┤"@, ws.len());
    rules_add_up(ws, "└"@, "┴"@, "┘"@, ws.len());
    text::line_len_of_one(rule_line(ws, "┌"@, "┬"@, "┐"@)[0]);
    text::line_len_of_one(rule_line(ws, "├"@, "┼"@, "┤"@)[0]);
    text::line_len_of_one(rule_line(ws, "└"@, "┴"@, "┘"@)[0]);
}

proof fn emboldening_keeps_length(spans: Seq<SpanView>, bold: bool)
    ensures
        text::line_len(emboldened(spans, bold)) == text::line_len(spans),
    decreases spans.len(),
{
    if bold && spans.len() > 0 {
        emboldening_keeps_length(spans.drop_last(), bold);
        assert(emboldened(spans, bold).drop_last() =~= emboldened(spans.drop_last(), bold));
    }
}

proof fn row_cells_are_long(
    cells: Seq<Seq<SpanView>>,
    aligns: Seq<Align>,
    widths: Seq<usize>,
    bold: bool,
    n: nat,
)
    requires
        n <= widths.len(),
        all_wide(widths),
        forall|i: int| 0 <= i < n ==> #[trigger] column_a_char(cells, widths, i),
    ensures
        text::line_len(row_cells(cells, aligns, widths, bold, n)) == row_cols(
            cells,
            aligns,
            widths,
            n,
        ),
    decreases n,
{
    if n > 0 {
        let i = n - 1;
        row_cells_are_long(cells, aligns, widths, bold, i as nat);
        cells_fill_their_columns(cells, aligns, widths, i);
        assert(column_a_char(cells, widths, i));
        let spans = truncated(cell_at(cells, i), widths[i] as nat).0;
        let (left, right) = cell_pads(cells, aligns, widths, i);
        let bar = SpanView { text: bar_text(i), style: border_style() };
        emboldening_keeps_length(spans, bold);
        let opening = seq![bar, blank(left)];
        let inner = emboldened(spans, bold);
        text::line_len_add(row_cells(cells, aligns, widths, bold, i as nat), cell_spans(
            cells,
            aligns,
            widths,
            bold,
            i,
        ));
        text::line_len_add(opening + inner, seq![blank(right)]);
        text::line_len_add(opening, inner);
        text::line_len_of_one(blank(right));
        text::line_len_of_one(bar);
        text::line_len_add(seq![bar], seq![blank(left)]);
        text::line_len_of_one(blank(left));
        assert(opening =~= seq![bar] + seq![blank(left)]);
    }
}

/// A row whose cells take one column for each character has as many characters
/// as the table has columns.
proof fn rows_are_long(
    cells: Seq<Seq<SpanView>>,
    aligns: Seq<Align>,
    widths: Seq<usize>,
    bold: bool,
)
    requires
        widths.len() > 0,
        all_wide(widths),
        forall|i: int| 0 <= i < widths.len() ==> #[trigger] column_a_char(cells, widths, i),
    ensures
        text::line_len(row_line(cells, aligns, widths, bold)) == table_width(widths),
{
    let n = widths.len();
    row_cells_are_long(cells, aligns, widths, bold, n);
    row_cols_add_up(cells, aligns, widths, n);
    assert(widths.take(n as int) =~= widths);
    reveal_strlit(" │");
    let row = row_cells(cells, aligns, widths, bold, n);
    assert(row_line(cells, aligns, widths, bold).drop_last() =~= row);
}

/// Whether every line of a table has as many characters as the table has columns.
pub open spec fn is_even(t: TableView, avail: nat) -> bool {
    forall|i: int|
        0 <= i < table_lines(t, avail).len() ==> text::line_len(
            #[trigger] table_lines(t, avail)[i],
        ) == table_width(layout(t, avail))
}

/// Lays out a table in `avail` columns, as far as columns can be narrowed.
pub fn lay_out(t: &Table, avail: usize) -> (r: Vec<Vec<Span>>)
    ensures
        strings::views2(r@) == table_lines(t@, avail as nat),
        ascii_table(t@) ==> is_even(t@, avail as nat),
{
    let n: usize = count_columns(t);
    let mut out: Vec<Vec<Span>> = Vec::new();
    if n == 0 {
        return out;
    }
    let widths = column_widths(t, n, avail);
    let ghost ws = widths@;
    let ghost ascii = ascii_table(t@);
    proof {
        layouts_are_wide(t@, avail as nat);
        rules_are_long(ws);
    }
    out.push(hborder(&widths, "┌", "┬", "┐"));
    if t.head.len() > 0 {
        out.push(table_row(&t.head, &t.aligns, &widths, true));
        proof {
            if ascii {
                rows_are_long(t@.head, t@.aligns, ws, true);
            }
        }
        out.push(hborder(&widths, "├", "┼", "┤"));
    }
    let ghost top = strings::views2(out@);
    let ghost rows = t@.rows.map_values(|row| row_line(row, t@.aligns, ws, false));
    let mut i: usize = 0;
    assert(top + rows.take(0) =~= top);
    while i < t.rows.len()
        invariant
            i <= t.rows@.len(),
            ws == widths@,
            rows == t@.rows.map_values(|row| row_line(row, t@.aligns, ws, false)),
            strings::views2(out@) == top + rows.take(i as int),
            ws.len() > 0,
            all_wide(ws),
            ascii == ascii_table(t@),
            ascii ==> forall|k: int|
                0 <= k < i ==> text::line_len(#[trigger] rows[k]) == table_width(ws),
        decreases t.rows@.len() - i,
    {
        let row = table_row(&t.rows[i], &t.aligns, &widths, false);
        assert(rows[i as int] == strings::views(row@));
        proof {
            if ascii {
                assert(ascii_row(t@.rows[i as int]));
                rows_are_long(t@.rows[i as int], t@.aligns, ws, false);
            }
        }
        assert((top + rows.take(i as int)).push(rows[i as int]) =~= top + rows.take(i + 1));
        out.push(row);
        i = i + 1;
    }
    assert(rows.take(i as int) =~= rows);
    out.push(hborder(&widths, "└", "┴", "┘"));
    assert(strings::views2(out@) =~= table_lines(t@, avail as nat));
    proof {
        if ascii {
            let all = table_lines(t@, avail as nat);
            assert forall|k: int| 0 <= k < all.len() implies text::line_len(#[trigger] all[k])
                == table_width(ws) by {
                if top.len() <= k < all.len() - 1 {
                    assert(all[k] == rows[k - top.len()]);
                }
            }
        }
    }
    out
}

} // verus!
