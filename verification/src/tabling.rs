//! What is shown of the tables of a document: all their cells, row by row.

use vstd::prelude::*;
use crate::blocks;
use crate::event::{EventView, TagView};
use crate::paragraphs;
use crate::state;
use crate::state::State;
use crate::table;
use crate::table::{Align, TableView};
use crate::text::{SpanView, StyleView};

verus! {

/// A render after a cell.
#[verifier::opaque]
pub open spec fn after_cell(s: State, t: Seq<char>) -> State {
    s.event(EventView::Start(TagView::TableCell)).0.event(EventView::Text(t)).0.event(
        EventView::End(pulldown_cmark::TagEnd::TableCell),
    ).0
}

/// A render after the cells of a row.
pub open spec fn after_cells(s: State, ts: Seq<Seq<char>>) -> State
    decreases ts.len(),
{
    if ts.len() == 0 {
        s
    } else {
        after_cell(after_cells(s, ts.drop_last()), ts.last())
    }
}

/// A render after a row.
#[verifier::opaque]
pub open spec fn after_row(s: State, ts: Seq<Seq<char>>) -> State {
    after_cells(s.event(EventView::Start(TagView::TableRow)).0, ts).event(
        EventView::End(pulldown_cmark::TagEnd::TableRow),
    ).0
}

/// A render after the head of a table.
#[verifier::opaque]
pub open spec fn after_head(s: State, ts: Seq<Seq<char>>) -> State {
    after_cells(s.event(EventView::Start(TagView::TableHead)).0, ts).event(
        EventView::End(pulldown_cmark::TagEnd::TableHead),
    ).0
}

/// A render after some rows.
pub open spec fn after_rows(s: State, rows: Seq<Seq<Seq<char>>>) -> State
    decreases rows.len(),
{
    if rows.len() == 0 {
        s
    } else {
        after_row(after_rows(s, rows.drop_last()), rows.last())
    }
}

/// The cells of some texts.
pub open spec fn cells_of(ts: Seq<Seq<char>>, style: StyleView) -> Seq<Seq<SpanView>> {
    Seq::new(ts.len(), |i: int| seq![SpanView { text: paragraphs::prose_text(ts[i]), style }])
}

/// The rows of some texts.
pub open spec fn rows_of(rows: Seq<Seq<Seq<char>>>, style: StyleView) -> Seq<Seq<Seq<SpanView>>> {
    Seq::new(rows.len(), |i: int| cells_of(rows[i], style))
}

proof fn starts(s: State, tag: TagView)
    requires
        blocks::outside(s),
    ensures
        s.event(EventView::Start(tag)).0 == s.start_tag(tag),
{
    blocks::plainly(s, EventView::Start(tag));
    state::starts_plainly(s, tag);
}

proof fn ends(s: State, tag: pulldown_cmark::TagEnd)
    requires
        blocks::outside(s),
    ensures
        s.event(EventView::End(tag)).0 == s.end_tag(tag),
{
    blocks::plainly(s, EventView::End(tag));
    state::ends_plainly(s, tag);
}

proof fn cell_is_taken(s: State, t: Seq<char>)
    requires
        blocks::outside(s),
        s.table is Some,
    ensures
        after_cell(s, t) == (State {
            inline: seq![],
            table: Some(
                TableView {
                    cur_row: s.table->0.cur_row.push(
                        seq![
                            SpanView { text: paragraphs::prose_text(t), style: s.cur_style() },
                        ],
                    ),
                    ..s.table->0
                },
            ),
            ..s
        }),
{
    reveal(after_cell);
    starts(s, TagView::TableCell);
    state::start_tag_plainly(s, 0, None);
    let s1 = State { inline: seq![], ..s };
    paragraphs::takes_text(s1, t);
    let s2 = s1.push_inline(paragraphs::prose_text(t), s1.cur_style());
    assert(s2.inline =~= seq![
        SpanView { text: paragraphs::prose_text(t), style: s.cur_style() },
    ]);
    ends(s2, pulldown_cmark::TagEnd::TableCell);
    reveal(State::end_tag);
}

proof fn cells_are_taken(s: State, ts: Seq<Seq<char>>)
    requires
        blocks::outside(s),
        s.table is Some,
        s.inline.len() == 0,
    ensures
        after_cells(s, ts) == (State {
            inline: seq![],
            table: Some(
                TableView {
                    cur_row: s.table->0.cur_row + cells_of(ts, s.cur_style()),
                    ..s.table->0
                },
            ),
            ..s
        }),
    decreases ts.len(),
{
    let style = s.cur_style();
    let row = s.table->0.cur_row;
    if ts.len() == 0 {
        assert(row + cells_of(ts, style) =~= row);
        assert(s.inline =~= seq![]);
    } else {
        let d = ts.drop_last();
        cells_are_taken(s, d);
        let t = after_cells(s, d);
        cell_is_taken(t, ts.last());
        let cell = seq![SpanView { text: paragraphs::prose_text(ts.last()), style }];
        assert((row + cells_of(d, style)).push(cell) =~= row + cells_of(ts, style));
    }
}

proof fn row_opens(s: State)
    requires
        s.table is Some,
    ensures
        s.start_tag(TagView::TableRow) == (State {
            table: Some(TableView { cur_row: seq![], ..s.table->0 }),
            ..s
        }),
        s.start_tag(TagView::TableHead) == (State {
            table: Some(TableView { in_head: true, cur_row: seq![], ..s.table->0 }),
            ..s
        }),
{
    reveal(State::start_tag);
}

proof fn row_closes(s: State)
    requires
        s.table is Some,
    ensures
        ({
            let t = s.table->0;
            &&& s.end_tag(pulldown_cmark::TagEnd::TableRow) == (State {
                table: Some(TableView { rows: t.rows.push(t.cur_row), cur_row: seq![], ..t }),
                ..s
            })
            &&& s.end_tag(pulldown_cmark::TagEnd::TableHead) == (State {
                table: Some(
                    TableView { head: t.cur_row, cur_row: seq![], in_head: false, ..t },
                ),
                ..s
            })
        }),
{
    reveal(State::end_tag);
}

proof fn row_is_taken(s: State, ts: Seq<Seq<char>>)
    requires
        blocks::outside(s),
        s.table is Some,
        s.inline.len() == 0,
    ensures
        after_row(s, ts) == (State {
            inline: seq![],
            table: Some(
                TableView {
                    rows: s.table->0.rows.push(cells_of(ts, s.cur_style())),
                    cur_row: seq![],
                    ..s.table->0
                },
            ),
            ..s
        }),
        after_head(s, ts) == (State {
            inline: seq![],
            table: Some(
                TableView {
                    head: cells_of(ts, s.cur_style()),
                    cur_row: seq![],
                    in_head: false,
                    ..s.table->0
                },
            ),
            ..s
        }),
{
    reveal(after_row);
    reveal(after_head);
    row_opens(s);
    starts(s, TagView::TableRow);
    starts(s, TagView::TableHead);
    let a = s.start_tag(TagView::TableRow);
    let b = s.start_tag(TagView::TableHead);
    cells_are_taken(a, ts);
    cells_are_taken(b, ts);
    let none = Seq::<Seq<SpanView>>::empty();
    let cells = cells_of(ts, s.cur_style());
    assert(none + cells =~= cells);
    let a1 = after_cells(a, ts);
    let b1 = after_cells(b, ts);
    ends(a1, pulldown_cmark::TagEnd::TableRow);
    ends(b1, pulldown_cmark::TagEnd::TableHead);
    row_closes(a1);
    row_closes(b1);
}

proof fn rows_are_taken(s: State, rows: Seq<Seq<Seq<char>>>)
    requires
        blocks::outside(s),
        s.table is Some,
        s.inline.len() == 0,
        s.table->0.cur_row.len() == 0,
    ensures
        after_rows(s, rows) == (State {
            inline: seq![],
            table: Some(
                TableView {
                    rows: s.table->0.rows + rows_of(rows, s.cur_style()),
                    cur_row: seq![],
                    ..s.table->0
                },
            ),
            ..s
        }),
    decreases rows.len(),
{
    let style = s.cur_style();
    let before = s.table->0.rows;
    if rows.len() == 0 {
        assert(before + rows_of(rows, style) =~= before);
        assert(s.inline =~= seq![]);
        assert(s.table->0.cur_row =~= seq![]);
    } else {
        let d = rows.drop_last();
        rows_are_taken(s, d);
        let t = after_rows(s, d);
        row_is_taken(t, rows.last());
        assert((before + rows_of(d, style)).push(cells_of(rows.last(), style)) =~= before
            + rows_of(rows, style));
    }
}

proof fn table_opens(s: State, aligns: Seq<Align>)
    ensures
        s.start_tag(TagView::Table(aligns)) == (State {
            table: Some(
                TableView {
                    aligns,
                    head: seq![],
                    rows: seq![],
                    cur_row: seq![],
                    in_head: false,
                },
            ),
            ..s.block_start()
        }),
{
    reveal(State::start_tag);
}

/// A table is shown whole: its head and all its rows, in order, every cell with its
/// text and every column with its alignment.
pub proof fn tables_are_shown_whole(
    s: State,
    aligns: Seq<Align>,
    head: Seq<Seq<char>>,
    rows: Seq<Seq<Seq<char>>>,
)
    requires
        blocks::outside(s),
    ensures
        ({
            let open = s.event(EventView::Start(TagView::Table(aligns))).0;
            let done = after_rows(after_head(open, head), rows).event(
                EventView::End(pulldown_cmark::TagEnd::Table),
            ).0;
            let style = open.cur_style();
            let whole = TableView {
                aligns,
                head: cells_of(head, style),
                rows: rows_of(rows, style),
                cur_row: seq![],
                in_head: false,
            };
            &&& blocks::shows(open, done, table::table_lines(whole, open.avail()))
            &&& done.table is None
            &&& done.inline.len() == 0
            &&& style == s.cur_style()
        }),
{
    starts(s, TagView::Table(aligns));
    table_opens(s, aligns);
    blocks::block_start_keeps(s);
    let open = s.start_tag(TagView::Table(aligns));
    row_is_taken(open, head);
    let headed = after_head(open, head);
    rows_are_taken(headed, rows);
    let full = after_rows(headed, rows);
    let style = open.cur_style();
    let whole = TableView {
        aligns,
        head: cells_of(head, style),
        rows: rows_of(rows, style),
        cur_row: seq![],
        in_head: false,
    };
    let none = Seq::<Seq<Seq<SpanView>>>::empty();
    assert(none + rows_of(rows, style) =~= rows_of(rows, style));
    assert(full.table == Some(whole));
    ends(full, pulldown_cmark::TagEnd::Table);
    state::end_tag_plainly(full, pulldown_cmark::TagEnd::Table);
    let base = State { table: None, ..full };
    blocks::pushed_lines_show(base, table::table_lines(whole, base.avail()));
}

} // verus!
