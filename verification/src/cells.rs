//! What is shown of tables: every cell in its row and column, set as its column is
//! aligned, and no column narrower than it must be.

use vstd::prelude::*;
use crate::strings;
use crate::table;
use crate::table::{Align, TableView};
use crate::text;
use crate::text::{SpanView, StyleView};
use crate::width;
use crate::words;
use crate::wrap;

verus! {

/// Cells are aligned: in a column that is neither right-aligned nor centered nothing
/// is left free before the text, in a right-aligned one nothing behind it, and in a
/// centered one as much before it as behind it, or one column less.
pub proof fn cells_are_aligned(
    cells: Seq<Seq<SpanView>>,
    aligns: Seq<Align>,
    widths: Seq<usize>,
    i: int,
)
    requires
        0 <= i < widths.len(),
        table::all_wide(widths),
    ensures
        ({
            let (left, right) = table::cell_pads(cells, aligns, widths, i);
            let free = widths[i] - table::truncated(
                table::cell_at(cells, i),
                widths[i] as nat,
            ).1;
            &&& left + right == free
            &&& i >= aligns.len() || aligns[i] == Align::Unset || aligns[i] == Align::Left
                ==> left == 0 && right == free
            &&& i < aligns.len() && aligns[i] == Align::Right ==> left == free && right == 0
            &&& i < aligns.len() && aligns[i] == Align::Center ==> left <= right <= left + 1
        }),
{
    table::truncated_fits(table::cell_at(cells, i), widths[i] as nat);
}

/// Spaces.
pub open spec fn gap(n: int) -> Seq<char> {
    Seq::new(n as nat, |i: int| ' ')
}

/// The text of the first `n` columns of a row: each cell between bars, with what is
/// left free of its column.
pub open spec fn row_reads(
    cells: Seq<Seq<SpanView>>,
    aligns: Seq<Align>,
    widths: Seq<usize>,
    n: nat,
) -> Seq<char>
    decreases n,
{
    if n == 0 {
        seq!['│', ' ']
    } else {
        let i = n - 1;
        let (left, right) = table::cell_pads(cells, aligns, widths, i);
        let before = row_reads(cells, aligns, widths, i as nat);
        let shown = table::truncated(table::cell_at(cells, i), widths[i] as nat).0;
        before + gap(left) + text::line_text(shown) + gap(right) + (if n == widths.len() {
            seq![' ', '│']
        } else {
            seq![' ', '│', ' ']
        })
    }
}

proof fn emboldening_keeps_text(spans: Seq<SpanView>, bold: bool)
    ensures
        text::line_text(table::emboldened(spans, bold)) == text::line_text(spans),
    decreases spans.len(),
{
    if bold && spans.len() > 0 {
        emboldening_keeps_text(spans.drop_last(), bold);
        assert(table::emboldened(spans, bold).drop_last() =~= table::emboldened(
            spans.drop_last(),
            bold,
        ));
    }
}

proof fn one_text(s: SpanView)
    ensures
        text::line_text(seq![s]) == s.text,
{
    assert(seq![s].drop_last() =~= seq![]);
    assert(text::line_text(seq![s].drop_last()) =~= seq![]);
    assert(text::line_text(seq![s]) =~= s.text);
}

proof fn cell_reads(
    cells: Seq<Seq<SpanView>>,
    aligns: Seq<Align>,
    widths: Seq<usize>,
    bold: bool,
    i: int,
)
    ensures
        ({
            let (left, right) = table::cell_pads(cells, aligns, widths, i);
            let shown = table::truncated(table::cell_at(cells, i), widths[i] as nat).0;
            text::line_text(table::cell_spans(cells, aligns, widths, bold, i)) == (if i == 0 {
                seq!['│', ' ']
            } else {
                seq![' ', '│', ' ']
            }) + gap(left) + text::line_text(shown) + gap(right)
        }),
{
    let shown = table::truncated(table::cell_at(cells, i), widths[i] as nat).0;
    let (left, right) = table::cell_pads(cells, aligns, widths, i);
    let bar = SpanView { text: table::bar_text(i), style: table::border_style() };
    let inner = table::emboldened(shown, bold);
    emboldening_keeps_text(shown, bold);
    let opening = seq![bar, table::blank(left)];
    assert(opening =~= seq![bar] + seq![table::blank(left)]);
    words::text_of_sum(seq![bar], seq![table::blank(left)]);
    words::text_of_sum(opening, inner);
    words::text_of_sum(opening + inner, seq![table::blank(right)]);
    one_text(bar);
    one_text(table::blank(left));
    one_text(table::blank(right));
    reveal_strlit("│ ");
    reveal_strlit(" │ ");
    assert("│ "@ =~= seq!['│', ' ']);
    assert(" │ "@ =~= seq![' ', '│', ' ']);
    assert(table::blank(left).text =~= gap(left));
    assert(table::blank(right).text =~= gap(right));
}

proof fn cells_read(
    cells: Seq<Seq<SpanView>>,
    aligns: Seq<Align>,
    widths: Seq<usize>,
    bold: bool,
    n: nat,
)
    requires
        0 < n <= widths.len(),
    ensures
        text::line_text(table::row_cells(cells, aligns, widths, bold, n)) + (if n == widths.len() {
            seq![' ', '│']
        } else {
            seq![' ', '│', ' ']
        }) == row_reads(cells, aligns, widths, n),
    decreases n,
{
    let i = n - 1;
    let a = table::row_cells(cells, aligns, widths, bold, i as nat);
    let b = table::cell_spans(cells, aligns, widths, bold, i);
    words::text_of_sum(a, b);
    cell_reads(cells, aligns, widths, bold, i);
    let all = text::line_text(a + b) + (if n == widths.len() {
        seq![' ', '│']
    } else {
        seq![' ', '│', ' ']
    });
    if i == 0 {
        assert(a =~= seq![]);
        assert(text::line_text(a) =~= seq![]);
        assert(row_reads(cells, aligns, widths, 0) == seq!['│', ' ']);
        assert(all =~= row_reads(cells, aligns, widths, n));
    } else {
        cells_read(cells, aligns, widths, bold, i as nat);
        assert(all =~= row_reads(cells, aligns, widths, n));
    }
}

/// A row shows every one of its cells between bars, each in its column.
pub proof fn rows_show_their_cells(
    cells: Seq<Seq<SpanView>>,
    aligns: Seq<Align>,
    widths: Seq<usize>,
    bold: bool,
)
    requires
        widths.len() > 0,
    ensures
        text::line_text(table::row_line(cells, aligns, widths, bold)) == row_reads(
            cells,
            aligns,
            widths,
            widths.len(),
        ),
{
    let row = table::row_cells(cells, aligns, widths, bold, widths.len());
    cells_read(cells, aligns, widths, bold, widths.len());
    assert(table::row_line(cells, aligns, widths, bold).drop_last() =~= row);
    reveal_strlit(" │");
    assert(" │"@ =~= seq![' ', '│']);
}

/// Text with its line endings turned into spaces.
pub open spec fn flat(s: Seq<char>) -> Seq<char> {
    Seq::new(
        s.len(),
        |i: int|
            if s[i] == '\n' {
                ' '
            } else {
                s[i]
            },
    )
}

proof fn flat_sum(a: Seq<char>, b: Seq<char>)
    ensures
        flat(a + b) == flat(a) + flat(b),
{
    assert(flat(a + b) =~= flat(a) + flat(b));
}

proof fn cleaned_text(spans: Seq<SpanView>)
    ensures
        text::line_text(table::cleaned(spans)) == flat(text::line_text(spans)),
    decreases spans.len(),
{
    if spans.len() > 0 {
        cleaned_text(spans.drop_last());
        assert(table::cleaned(spans).drop_last() =~= table::cleaned(spans.drop_last()));
        flat_sum(text::line_text(spans.drop_last()), spans.last().text);
        assert(strings::swapped(spans.last().text, '\n', ' ') =~= flat(spans.last().text));
    } else {
        assert(flat(text::line_text(spans)) =~= seq![]);
        assert(table::cleaned(spans) =~= seq![]);
    }
}

proof fn text_of_first(spans: Seq<SpanView>)
    requires
        spans.len() > 0,
    ensures
        text::line_text(spans) == spans[0].text + text::line_text(spans.skip(1)),
{
    words::text_of_sum(seq![spans[0]], spans.skip(1));
    one_text(spans[0]);
    assert(seq![spans[0]] + spans.skip(1) =~= spans);
}

/// Whether some text is what is left of another in `room` columns: its beginning, and
/// no more of it would fit.
pub open spec fn is_cut(left: Seq<char>, whole: Seq<char>, room: int) -> bool {
    &&& left.len() < whole.len()
    &&& left == whole.take(left.len() as int)
    &&& width::run_cols(left) <= room < width::run_cols(whole.take(left.len() as int + 1))
}

proof fn cutting_takes_the_beginning(spans: Seq<SpanView>, room: int)
    requires
        room >= 0,
    ensures
        ({
            let (kept, used, cut) = table::cut(spans, room);
            let whole = flat(text::line_text(spans));
            &&& cut ==> is_cut(text::line_text(kept), whole, room)
            &&& !cut ==> text::line_text(kept) == whole
            &&& used == width::run_cols(text::line_text(kept))
        }),
    decreases spans.len(),
{
    let (kept, used, is_over) = table::cut(spans, room);
    let whole = flat(text::line_text(spans));
    if spans.len() == 0 {
        assert(whole =~= seq![]);
        assert(text::line_text(kept) =~= seq![]);
    } else {
        let t = strings::swapped(spans[0].text, '\n', ' ');
        let n = width::fit_len(t, room);
        width::fit_len_is_longest(t, room);
        let head = t.take(n);
        let piece = if n > 0 {
            seq![SpanView { text: head, style: spans[0].style }]
        } else {
            seq![]
        };
        if n > 0 {
            one_text(piece[0]);
        } else {
            assert(head =~= seq![]);
            assert(text::line_text(piece) =~= seq![]);
        }
        assert(text::line_text(piece) == head);
        text_of_first(spans);
        flat_sum(spans[0].text, text::line_text(spans.skip(1)));
        assert(t =~= flat(spans[0].text));
        let rest = flat(text::line_text(spans.skip(1)));
        assert(whole == t + rest);
        if n < t.len() {
            assert(whole.take(n) =~= head);
            assert(whole.take(n + 1) =~= t.take(n + 1));
        } else {
            let room2 = room - width::run_cols(head);
            cutting_takes_the_beginning(spans.skip(1), room2);
            let c = table::cut(spans.skip(1), room2);
            let more = text::line_text(c.0);
            words::text_of_sum(piece, c.0);
            assert(head =~= t);
            width::run_cols_add(t, more);
            if c.2 {
                let k = more.len() as int;
                assert(whole.take(t.len() + k) =~= t + rest.take(k));
                assert(whole.take(t.len() + k + 1) =~= t + rest.take(k + 1));
                width::run_cols_add(t, rest.take(k + 1));
            }
        }
    }
}

/// A cell that fits its column is shown whole, on one line. Of one that does not, as
/// much as fits is shown, from its beginning, with an ellipsis behind it; the ellipsis
/// is left out only where nothing is.
pub proof fn cells_are_shown(spans: Seq<SpanView>, max: nat)
    requires
        max >= 1,
    ensures
        ({
            let shown = text::line_text(table::truncated(spans, max).0);
            let whole = flat(text::line_text(spans));
            if text::line_width(spans) <= max {
                shown == whole
            } else {
                ||| shown == whole
                ||| shown.len() > 0 && shown.last() == '…' && is_cut(
                    shown.drop_last(),
                    whole,
                    max - 1,
                )
            }
        }),
{
    cleaned_text(spans);
    cutting_takes_the_beginning(spans, max - 1);
    let c = table::cut(spans, max - 1);
    if text::line_width(spans) > max && c.2 {
        reveal_strlit("…");
        assert(c.0.push(table::ellipsis()).drop_last() =~= c.0);
        let shown = text::line_text(table::truncated(spans, max).0);
        assert(shown.drop_last() =~= text::line_text(c.0));
    }
}

/// The head of a table is bold and else looks as it does elsewhere; the other rows
/// look as they do elsewhere.
pub proof fn heads_are_bold(spans: Seq<SpanView>, i: int)
    requires
        0 <= i < spans.len(),
    ensures
        table::emboldened(spans, true).len() == spans.len(),
        table::emboldened(spans, true)[i].style == (StyleView { bold: true, ..spans[i].style }),
        table::emboldened(spans, true)[i].text == spans[i].text,
        table::emboldened(spans, false) == spans,
{
}

/// A column is as wide as its widest cell, within one and forty columns.
pub proof fn columns_fit_their_cells(rows: Seq<Seq<Seq<SpanView>>>, i: int)
    requires
        0 <= i,
    ensures
        ({
            let w = table::col_width(rows, i);
            &&& 1 <= w <= 40
            &&& forall|k: int|
                0 <= k < rows.len() && i < (#[trigger] rows[k]).len() ==> text::line_width(
                    rows[k][i],
                ) <= w || w == 40
            &&& w > 1 ==> exists|k: int|
                0 <= k < rows.len() && i < (#[trigger] rows[k]).len() && text::line_width(
                    rows[k][i],
                ) >= w
        }),
    decreases rows.len(),
{
    if rows.len() > 0 {
        let d = rows.drop_last();
        columns_fit_their_cells(d, i);
        let w = table::col_width(rows, i);
        let v = table::col_width(d, i);
        assert forall|k: int| 0 <= k < rows.len() && i < (#[trigger] rows[k]).len() implies
            text::line_width(rows[k][i]) <= w || w == 40 by {
            if k < d.len() {
                assert(d[k] == rows[k]);
            }
        }
        if w > 1 {
            if w == v {
                let k = choose|k: int|
                    0 <= k < d.len() && i < (#[trigger] d[k]).len() && text::line_width(d[k][i])
                        >= v;
                assert(rows[k] == d[k]);
            } else {
                assert(rows[rows.len() - 1] == rows.last());
            }
        }
    }
}

/// A table has a column for every cell of every row and for every alignment, and no
/// more.
pub proof fn tables_have_their_columns(t: TableView)
    ensures
        ({
            let n = table::columns(t);
            &&& t.head.len() <= n
            &&& t.aligns.len() <= n
            &&& forall|k: int| 0 <= k < t.rows.len() ==> (#[trigger] t.rows[k]).len() <= n
            &&& n == t.head.len() || n == t.aligns.len() || exists|k: int|
                0 <= k < t.rows.len() && (#[trigger] t.rows[k]).len() == n
        }),
{
    most_cells_is_most(t.rows);
}

proof fn most_cells_is_most(rows: Seq<Seq<Seq<SpanView>>>)
    ensures
        forall|k: int| 0 <= k < rows.len() ==> (#[trigger] rows[k]).len() <= table::most_cells(rows),
        table::most_cells(rows) == 0 || exists|k: int|
            0 <= k < rows.len() && (#[trigger] rows[k]).len() == table::most_cells(rows),
    decreases rows.len(),
{
    if rows.len() > 0 {
        let d = rows.drop_last();
        most_cells_is_most(d);
        assert forall|k: int| 0 <= k < rows.len() implies (#[trigger] rows[k]).len()
            <= table::most_cells(rows) by {
            if k < d.len() {
                assert(d[k] == rows[k]);
            }
        }
        if table::most_cells(rows) == table::most_cells(d) && table::most_cells(d) > 0 {
            let k = choose|k: int|
                0 <= k < d.len() && (#[trigger] d[k]).len() == table::most_cells(d);
            assert(rows[k] == d[k]);
        } else {
            assert(rows[rows.len() - 1] == rows.last());
        }
    }
}

/// Columns are narrowed only as far as they must be, and the wide ones first: where a
/// column is narrowed, the table takes all the columns there are or more, and no
/// column is more than one wider than it.
pub proof fn narrowing_is_fair(widths: Seq<usize>, avail: nat)
    requires
        widths.len() > 0,
    ensures
        ({
            let ws = table::shrunk(widths, avail);
            &&& ws.len() == widths.len()
            &&& ws != widths ==> table::table_width(ws) >= avail
            &&& forall|i: int, j: int|
                0 <= i < ws.len() && 0 <= j < ws.len() && ws[i] < widths[i]
                    ==> #[trigger] ws[j] <= #[trigger] ws[i] + 1
        }),
    decreases table::sum(widths),
{
    table::widest_is_widest(widths);
    let i = table::widest(widths);
    if table::table_width(widths) > avail && widths[i] > 5 {
        let next = widths.update(i, (widths[i] - 1) as usize);
        table::sum_of_update(widths, i, (widths[i] - 1) as usize);
        narrowing_is_fair(next, avail);
        table::shrinking_fits(next, avail);
        let ws = table::shrunk(widths, avail);
        if ws == next {
            assert(table::table_width(next) == table::table_width(widths) - 1);
        }
        assert forall|a: int, b: int|
            0 <= a < ws.len() && 0 <= b < ws.len() && ws[a] < widths[a] implies #[trigger] ws[b]
            <= #[trigger] ws[a] + 1 by {
            assert(ws[b] <= next[b]);
            assert(ws[a] <= next[a]);
            if ws[a] == next[a] {
                assert(a == i);
                assert(widths[b] <= widths[i]);
            }
        }
    }
}

/// The lines of a table: a rule, the head and a rule where there is a head, the rows
/// in order, and a rule.
pub proof fn tables_show_their_rows(t: TableView, avail: nat)
    requires
        table::columns(t) > 0,
    ensures
        ({
            let lines = table::table_lines(t, avail);
            let ws = table::layout(t, avail);
            let first: int = if t.head.len() > 0 {
                3
            } else {
                1
            };
            &&& lines.len() == first + t.rows.len() + 1
            &&& t.head.len() > 0 ==> text::line_text(lines[1]) == row_reads(
                t.head,
                t.aligns,
                ws,
                ws.len(),
            )
            &&& forall|k: int|
                0 <= k < t.rows.len() ==> text::line_text(#[trigger] lines[first + k])
                    == row_reads(t.rows[k], t.aligns, ws, ws.len())
        }),
{
    let lines = table::table_lines(t, avail);
    let ws = table::layout(t, avail);
    table::layouts_are_wide(t, avail);
    let first: int = if t.head.len() > 0 {
        3
    } else {
        1
    };
    if t.head.len() > 0 {
        rows_show_their_cells(t.head, t.aligns, ws, true);
        assert(lines[1] == table::row_line(t.head, t.aligns, ws, true));
    }
    assert forall|k: int| 0 <= k < t.rows.len() implies text::line_text(
        #[trigger] lines[first + k],
    ) == row_reads(t.rows[k], t.aligns, ws, ws.len()) by {
        rows_show_their_cells(t.rows[k], t.aligns, ws, false);
        assert(lines[first + k] == table::row_line(t.rows[k], t.aligns, ws, false));
    }
}

proof fn flat_ink(s: Seq<char>, style: StyleView)
    ensures
        wrap::ink_chars(strings::swapped(s, '\n', ' '), style) == wrap::ink_chars(s, style),
    decreases s.len(),
{
    if s.len() > 0 {
        flat_ink(s.drop_last(), style);
        let t = strings::swapped(s, '\n', ' ');
        assert(t.drop_last() =~= strings::swapped(s.drop_last(), '\n', ' '));
    } else {
        assert(strings::swapped(s, '\n', ' ') =~= s);
    }
}

proof fn cleaned_ink(spans: Seq<SpanView>)
    ensures
        wrap::ink(table::cleaned(spans)) == wrap::ink(spans),
    decreases spans.len(),
{
    if spans.len() > 0 {
        cleaned_ink(spans.drop_last());
        flat_ink(spans.last().text, spans.last().style);
        assert(table::cleaned(spans).drop_last() =~= table::cleaned(spans.drop_last()));
    } else {
        assert(table::cleaned(spans) =~= spans);
    }
}

/// Whether one run of visible characters begins another.
pub open spec fn begins(a: Seq<(char, StyleView)>, b: Seq<(char, StyleView)>) -> bool {
    a.len() <= b.len() && a == b.take(a.len() as int)
}

proof fn taken_ink(s: Seq<char>, n: int, style: StyleView)
    requires
        0 <= n <= s.len(),
    ensures
        begins(wrap::ink_chars(s.take(n), style), wrap::ink_chars(s, style)),
    decreases s.len() - n,
{
    let a = wrap::ink_chars(s.take(n), style);
    let b = wrap::ink_chars(s, style);
    if n == s.len() {
        assert(s.take(n) =~= s);
        assert(b.take(b.len() as int) =~= b);
    } else {
        taken_ink(s, n + 1, style);
        assert(s.take(n + 1).drop_last() =~= s.take(n));
        let m = wrap::ink_chars(s.take(n + 1), style);
        assert(a =~= m.take(a.len() as int));
        assert(a =~= b.take(a.len() as int));
    }
}

proof fn cut_ink(spans: Seq<SpanView>, room: int)
    requires
        room >= 0,
    ensures
        begins(wrap::ink(table::cut(spans, room).0), wrap::ink(spans)),
    decreases spans.len(),
{
    let all = wrap::ink(spans);
    if spans.len() == 0 {
        assert(all.take(0) =~= all);
    } else {
        let t = strings::swapped(spans[0].text, '\n', ' ');
        let n = width::fit_len(t, room);
        width::fit_len_is_longest(t, room);
        let style = spans[0].style;
        let first = wrap::ink_chars(spans[0].text, style);
        let rest = wrap::ink(spans.skip(1));
        flat_ink(spans[0].text, style);
        taken_ink(t, n, style);
        let piece = if n > 0 {
            seq![SpanView { text: t.take(n), style }]
        } else {
            seq![]
        };
        let head = wrap::ink_chars(t.take(n), style);
        if n > 0 {
            wrap::ink_of_one(piece[0]);
        } else {
            assert(t.take(n) =~= seq![]);
            assert(wrap::ink(piece) =~= head);
        }
        wrap::ink_of_one(spans[0]);
        wrap::ink_of_sum(seq![spans[0]], spans.skip(1));
        assert(seq![spans[0]] + spans.skip(1) =~= spans);
        assert(all == first + rest);
        if n < t.len() {
            assert(head =~= all.take(head.len() as int));
        } else {
            let room2 = room - width::run_cols(t.take(n));
            cut_ink(spans.skip(1), room2);
            assert(t.take(n) =~= t);
            let c = table::cut(spans.skip(1), room2);
            wrap::ink_of_sum(piece, c.0);
            let more = wrap::ink(c.0);
            assert(first + more =~= all.take((first + more).len() as int));
        }
    }
}

/// Every visible character of a cell looks in the table as it does elsewhere: all of
/// them where the cell fits, and those from its beginning where it is cut.
pub proof fn cells_keep_their_looks(spans: Seq<SpanView>, max: nat)
    requires
        max >= 1,
    ensures
        text::line_width(spans) <= max ==> wrap::ink(table::truncated(spans, max).0) == wrap::ink(
            spans,
        ),
        begins(wrap::ink(table::cut(spans, max - 1).0), wrap::ink(spans)),
{
    cleaned_ink(spans);
    cut_ink(spans, max - 1);
}

} // verus!
