//! What the pager draws.

use vstd::prelude::*;
use super::{Mode, Pager};
use crate::geometry;
use crate::geometry::effective_margin;
use crate::numbers;
use crate::numbers::decimal;
use crate::pager_view::{ModeView, PagerView, TargetView};
use crate::screen;
use crate::screen::{draw_box, draw_line, fit, Attr, Op, OpView};
use crate::search;
use crate::state::HeadingView;
use crate::strings;
use crate::strings::repeat;
use crate::text::Color;
use crate::width;
use crate::width::measure;

verus! {

broadcast use strings::group_views;

/// The byte ranges of the matches on a line.
pub open spec fn ranges_on(matches: Seq<(usize, usize, usize)>, line: int) -> Seq<(usize, usize)>
    decreases matches.len(),
{
    if matches.len() == 0 {
        seq![]
    } else {
        let before = ranges_on(matches.drop_last(), line);
        let m = matches.last();
        if m.0 == line {
            before.push((m.1, m.2))
        } else {
            before
        }
    }
}

proof fn no_ranges(matches: Seq<(usize, usize, usize)>, line: int)
    requires
        forall|i: int| 0 <= i < matches.len() ==> (#[trigger] matches[i]).0 != line,
    ensures
        ranges_on(matches, line) == Seq::<(usize, usize)>::empty(),
    decreases matches.len(),
{
    if matches.len() > 0 {
        let rest = matches.drop_last();
        assert forall|i: int| 0 <= i < rest.len() implies (#[trigger] rest[i]).0 != line by {
            assert(rest[i] == matches[i]);
        }
        no_ranges(rest, line);
        assert(matches[matches.len() - 1].0 != line);
    }
}

proof fn no_more_ranges(matches: Seq<(usize, usize, usize)>, line: int, n: int)
    requires
        0 <= n <= matches.len(),
        forall|i: int| n <= i < matches.len() ==> (#[trigger] matches[i]).0 != line,
    ensures
        ranges_on(matches, line) == ranges_on(matches.take(n), line),
    decreases matches.len(),
{
    if n == matches.len() {
        assert(matches.take(n) =~= matches);
    } else {
        let rest = matches.drop_last();
        assert(rest.take(n) =~= matches.take(n));
        assert forall|i: int| n <= i < rest.len() implies (#[trigger] rest[i]).0 != line by {
            assert(rest[i] == matches[i]);
        }
        no_more_ranges(rest, line, n);
        assert(matches[matches.len() - 1].0 != line);
    }
}

/// Where the first match at or below a line stands. Matches are sorted by line,
/// so it is searched for by halves.
fn first_on(matches: &Vec<(usize, usize, usize)>, line: usize) -> (r: usize)
    requires
        search::sorted(matches@),
    ensures
        r <= matches@.len(),
        forall|i: int| 0 <= i < r ==> (#[trigger] matches@[i]).0 < line,
        forall|i: int| r <= i < matches@.len() ==> (#[trigger] matches@[i]).0 >= line,
{
    let mut lo: usize = 0;
    let mut hi: usize = matches.len();
    while lo < hi
        invariant
            lo <= hi <= matches@.len(),
            search::sorted(matches@),
            forall|i: int| 0 <= i < lo ==> (#[trigger] matches@[i]).0 < line,
            forall|i: int| hi <= i < matches@.len() ==> (#[trigger] matches@[i]).0 >= line,
        decreases hi - lo,
    {
        let mid: usize = lo + (hi - lo) / 2;
        if matches[mid].0 < line {
            assert forall|i: int| 0 <= i < mid + 1 implies (#[trigger] matches@[i]).0 < line by {
                if i < mid {
                    assert(matches@[i].0 <= matches@[mid as int].0);
                }
            }
            lo = mid + 1;
        } else {
            assert forall|i: int| mid <= i < matches@.len() implies (#[trigger] matches@[i]).0
                >= line by {
                if i > mid {
                    assert(matches@[mid as int].0 <= matches@[i].0);
                }
            }
            hi = mid;
        }
    }
    lo
}

/// The byte ranges of the matches on a line.
fn line_ranges(matches: &Vec<(usize, usize, usize)>, line: usize) -> (r: Vec<(usize, usize)>)
    requires
        search::sorted(matches@),
    ensures
        r@ == ranges_on(matches@, line as int),
{
    let start: usize = first_on(matches, line);
    let mut out: Vec<(usize, usize)> = Vec::new();
    let mut i: usize = start;
    proof {
        let head = matches@.take(start as int);
        assert forall|k: int| 0 <= k < head.len() implies (#[trigger] head[k]).0 != line by {
            assert(matches@[k].0 < line);
        }
        no_ranges(head, line as int);
    }
    while i < matches.len() && matches[i].0 == line
        invariant
            start <= i <= matches@.len(),
            out@ == ranges_on(matches@.take(i as int), line as int),
        decreases matches@.len() - i,
    {
        assert(matches@.take(i + 1).drop_last() =~= matches@.take(i as int));
        out.push((matches[i].1, matches[i].2));
        i = i + 1;
    }
    proof {
        assert forall|k: int| i <= k < matches@.len() implies (#[trigger] matches@[k]).0 != line by {
            assert(matches@[i as int].0 > line) by {
                if start == i {
                    assert(matches@[start as int].0 >= line);
                } else {
                    assert(matches@[start as int].0 <= matches@[i as int].0);
                    assert(matches@[start as int].0 >= line);
                }
            }
            if k > i {
                assert(matches@[i as int].0 <= matches@[k].0);
            }
        }
        no_more_ranges(matches@, line as int, i as int);
    }
    out
}

/// The ranges to highlight on a line.
pub open spec fn highlights(p: PagerView, line: int) -> Seq<(usize, usize)> {
    match p.search {
        Some(s) => ranges_on(s.matches, line),
        None => seq![],
    }
}

/// One row of content: behind the margin, the line that stands there, or a mark
/// where the document is over.
pub open spec fn row_ops(p: PagerView, row: int) -> Seq<OpView> {
    let line = p.top + row;
    let head = seq![
        OpView::MoveTo(0, row as u16),
        OpView::ClearLine,
        OpView::MoveTo(geometry::margin(p.cfg.left_margin, p.w), row as u16),
    ];
    head + (if line < p.doc.lines.len() {
        screen::line_ops(p.doc.lines[line], highlights(p, line), p.visible())
    } else {
        seq![OpView::Fg(Color::DarkGrey), OpView::Print("~"@), OpView::Put(Attr::Reset)]
    })
}

/// The first `n` rows of content.
pub open spec fn rows_ops(p: PagerView, n: nat) -> Seq<OpView>
    decreases n,
{
    if n == 0 {
        seq![]
    } else {
        rows_ops(p, (n - 1) as nat) + row_ops(p, n - 1)
    }
}

/// The right of the status bar: which lines are shown, of how many, and how far
/// that is.
pub open spec fn position_text(p: PagerView) -> Seq<char> {
    let total = p.doc.lines.len();
    let bottom = if p.top + p.content_h() < total {
        p.top + p.content_h()
    } else {
        total
    };
    if bottom >= total {
        let first = if p.top < total {
            p.top
        } else {
            total
        };
        " "@ + numbers::decimal_text(first + 1) + "-"@ + numbers::decimal_text(bottom) + "/"@
            + numbers::decimal_text(total) + " END "@
    } else {
        " "@ + numbers::decimal_text(p.top + 1) + "-"@ + numbers::decimal_text(bottom) + "/"@
            + numbers::decimal_text(total) + " "@ + numbers::decimal_text(bottom * 100 / total)
            + "% "@
    }
}

/// The left of the status bar: a message or the title, and the count typed so
/// far.
pub open spec fn caption_text(p: PagerView) -> Seq<char> {
    let left = match p.message {
        Some(m) => " "@ + m,
        None => " "@ + p.title + " "@,
    };
    if p.count.len() == 0 {
        left
    } else {
        left + " ["@ + p.count + "]"@
    }
}

/// The status bar of `w` columns.
pub open spec fn bar_text(left: Seq<char>, right: Seq<char>, w: nat) -> Seq<char> {
    let rw = width::str_width(right) as int;
    let room = if rw < w {
        w - rw
    } else {
        0
    };
    let shown = screen::fitted(left, room as nat);
    let used = width::str_width(shown) as int;
    let gap = if used + rw < w {
        w - (used + rw)
    } else {
        0
    };
    shown + strings::copies(' ', gap as nat) + right
}

/// The bottom row: the search prompt or the status bar.
pub open spec fn status_ops(p: PagerView) -> Seq<OpView> {
    let row = if p.h == 0 {
        0
    } else {
        (p.h - 1) as u16
    };
    let head = seq![OpView::MoveTo(0, row), OpView::ClearLine];
    match p.mode {
        ModeView::Prompt { backward, buf } => {
            let prompt = (if backward {
                "?"@
            } else {
                "/"@
            }) + buf;
            head + seq![OpView::Print(screen::fitted(prompt, p.w as nat))]
        },
        _ => {
            let bar = bar_text(caption_text(p), position_text(p), p.w as nat);
            head + seq![
                OpView::Put(Attr::Reverse),
                OpView::Print(screen::fitted(bar, p.w as nat)),
                OpView::Put(Attr::Reset),
            ]
        },
    }
}

/// The columns that a heading is indented by in the table of contents.
pub open spec fn indent(level: u8) -> nat {
    if level == 0 {
        0
    } else {
        ((level - 1) * 2) as nat
    }
}

/// The widest entry of a table of contents; ten columns where there is none.
pub open spec fn widest_entry(hs: Seq<HeadingView>) -> nat
    decreases hs.len(),
{
    if hs.len() == 0 {
        10
    } else {
        let h = hs.last();
        let w = width::str_width(h.text) as nat + indent(h.level);
        let before = widest_entry(hs.drop_last());
        if hs.len() == 1 || w > before {
            w
        } else {
            before
        }
    }
}

/// The inner width of the table of contents. On very narrow terminals the cap
/// wins.
pub open spec fn toc_width(p: PagerView) -> nat {
    let cap: nat = if p.w < 10 {
        4
    } else {
        (p.w - 6) as nat
    };
    let want = widest_entry(p.doc.headings);
    let at_least = if want < 16 {
        16
    } else {
        want
    };
    if at_least < cap {
        at_least
    } else {
        cap
    }
}

/// The inner height of an overlay with `n` entries.
pub open spec fn overlay_height(p: PagerView, n: nat) -> nat {
    let room = if p.content_h() < 2 {
        0
    } else {
        (p.content_h() - 2) as nat
    };
    if n < room {
        n
    } else {
        room
    }
}

/// Where something starts that is centered on `room` and takes `size`.
pub open spec fn centered(room: nat, size: nat) -> nat {
    if size < room {
        ((room - size) / 2) as nat
    } else {
        0
    }
}

/// An entry of the table of contents, in `inner_w` columns.
pub open spec fn toc_entry(h: HeadingView, selected: bool, inner_w: nat) -> Seq<OpView> {
    let shown = screen::fitted(strings::copies(' ', indent(h.level)) + h.text, inner_w);
    let used = width::str_width(shown) as int;
    let pad = if used < inner_w {
        inner_w - used
    } else {
        0
    };
    screen::put_if(selected, Attr::Reverse) + seq![
        OpView::Print(shown),
        OpView::Print(strings::copies(' ', pad as nat)),
        OpView::Put(Attr::Reset),
    ]
}

/// The first `n` rows of the table of contents, the first of which is entry
/// `from`.
pub open spec fn toc_rows(
    hs: Seq<HeadingView>,
    sel: usize,
    from: nat,
    x0: nat,
    y0: nat,
    inner_w: nat,
    n: nat,
) -> Seq<OpView>
    decreases n,
{
    if n == 0 {
        seq![]
    } else {
        let i = from + n - 1;
        toc_rows(hs, sel, from, x0, y0, inner_w, (n - 1) as nat) + seq![
            OpView::MoveTo((x0 + 2) as u16, (y0 + n) as u16),
        ] + (if i < hs.len() {
            toc_entry(hs[i], i == sel, inner_w)
        } else {
            seq![]
        })
    }
}

/// The table of contents: the entries around the selected one, in a box.
pub open spec fn toc_ops(p: PagerView, sel: usize) -> Seq<OpView> {
    let inner_w = toc_width(p);
    let h = overlay_height(p, p.doc.headings.len());
    let inner_h = if h < 1 {
        1
    } else {
        h
    };
    let from = if sel < inner_h {
        0
    } else {
        (sel - (inner_h - 1)) as nat
    };
    let x0 = centered(p.w as nat, inner_w + 4);
    let y0 = centered(p.content_h(), inner_h + 2);
    screen::box_ops(x0 as u16, y0 as u16, inner_w, inner_h, " Contents "@) + toc_rows(
        p.doc.headings,
        sel,
        from,
        x0,
        y0,
        inner_w,
        inner_h,
    )
}

/// The keys, and what they do.
pub open spec fn help_text() -> Seq<(Seq<char>, Seq<char>)> {
    seq![
        ("q"@, "quit"@),
        ("j / k, ↓ / ↑"@, "scroll one line"@),
        ("SPACE / b"@, "page down / up"@),
        ("d / u"@, "half page down / up"@),
        ("g / G"@, "go to top / bottom (Ng: line N)"@),
        ("Np"@, "go to N percent"@),
        ("/ ?"@, "search forward / backward"@),
        ("n / N"@, "next / previous match"@),
        ("] / ["@, "next / previous heading"@),
        ("t"@, "table of contents"@),
        ("v"@, "show diagrams rendered / as source"@),
        ("o"@, "follow a link (labels appear)"@),
        ("BKSP / ^o"@, "back to previous document"@),
        ("h"@, "this help"@),
    ]
}

/// The widest of the first `n` explanations; twenty columns where there is none.
pub open spec fn widest_help(entries: Seq<(Seq<char>, Seq<char>)>, n: nat) -> nat
    decreases n,
{
    if n == 0 {
        20
    } else {
        let w = width::str_width(entries[n - 1].1) as nat;
        let before = widest_help(entries, (n - 1) as nat);
        if n == 1 || w > before {
            w
        } else {
            before
        }
    }
}

/// The inner width of the help.
pub open spec fn help_width(p: PagerView) -> nat {
    let want = 14 + widest_help(help_text(), help_text().len());
    let cap: nat = if p.w < 6 {
        0
    } else {
        (p.w - 6) as nat
    };
    let w = if want < cap {
        want
    } else {
        cap
    };
    if w < 20 {
        20
    } else {
        w
    }
}

/// `s` with spaces behind it, up to `n` characters.
pub open spec fn padded(s: Seq<char>, n: nat) -> Seq<char> {
    s + strings::copies(
        ' ',
        if s.len() < n {
            (n - s.len()) as nat
        } else {
            0
        },
    )
}

/// The first `n` rows of the help.
pub open spec fn help_rows(x0: nat, y0: nat, inner_w: nat, n: nat) -> Seq<OpView>
    decreases n,
{
    if n == 0 {
        seq![]
    } else {
        let e = help_text()[n - 1];
        help_rows(x0, y0, inner_w, (n - 1) as nat) + seq![
            OpView::MoveTo((x0 + 2) as u16, (y0 + n) as u16),
            OpView::Put(Attr::Bold),
            OpView::Print(padded(e.0, 14)),
            OpView::Put(Attr::Reset),
            OpView::Print(screen::fitted(e.1, (inner_w - 14) as nat)),
        ]
    }
}

/// The help, in a box.
pub open spec fn help_ops(p: PagerView) -> Seq<OpView> {
    let inner_w = help_width(p);
    let inner_h = overlay_height(p, help_text().len());
    let x0 = centered(p.w as nat, inner_w + 4);
    let y0 = centered(p.content_h(), inner_h + 2);
    screen::box_ops(x0 as u16, y0 as u16, inner_w, inner_h, " Keys "@) + help_rows(
        x0,
        y0,
        inner_w,
        inner_h,
    )
}

/// A column shifted by the margin, as far as columns go.
pub open spec fn shifted(margin: u16, col: u16) -> u16 {
    if margin + col > 0xffff {
        0xffff
    } else {
        (margin + col) as u16
    }
}

/// The labels of the first `n` links, each over the first cell of its link.
pub open spec fn label_ops(targets: Seq<TargetView>, margin: u16, n: nat) -> Seq<OpView>
    decreases n,
{
    if n == 0 {
        seq![]
    } else {
        let t = targets[n - 1];
        label_ops(targets, margin, (n - 1) as nat) + seq![
            OpView::MoveTo(shifted(margin, t.col), t.row),
            OpView::Put(Attr::Reverse),
            OpView::Put(Attr::Bold),
            OpView::Print(seq![t.label]),
            OpView::Put(Attr::Reset),
        ]
    }
}

/// What lies over the content.
pub open spec fn overlay_ops(p: PagerView) -> Seq<OpView> {
    match p.mode {
        ModeView::Toc { sel } => toc_ops(p, sel),
        ModeView::Help => help_ops(p),
        ModeView::Follow { targets } => label_ops(
            targets,
            geometry::margin(p.cfg.left_margin, p.w),
            targets.len(),
        ),
        _ => seq![],
    }
}

/// The whole screen.
pub open spec fn screen_ops(p: PagerView) -> Seq<OpView> {
    seq![OpView::Begin] + rows_ops(p, p.content_h()) + status_ops(p) + overlay_ops(p) + seq![
        OpView::End,
    ]
}

fn push_number(s: &mut String, n: u128)
    ensures
        final(s)@ == old(s)@ + numbers::decimal_text(n as nat),
{
    let t = decimal(n);
    s.push_str(t.as_str());
}

fn centered_at(room: usize, size: usize) -> (r: usize)
    ensures
        r == centered(room as nat, size as nat),
        r <= room,
        size < room ==> r + size <= room,
{
    if size < room {
        (room - size) / 2
    } else {
        0
    }
}

/// The keys, and what they do.
fn help_entries() -> (r: Vec<(&'static str, &'static str)>)
    ensures
        r@.len() == help_text().len(),
        forall|i: int|
            0 <= i < r@.len() ==> ((#[trigger] r@[i]).0@, r@[i].1@) == help_text()[i],
{
    let mut v: Vec<(&'static str, &'static str)> = Vec::new();
    v.push(("q", "quit"));
    v.push(("j / k, ↓ / ↑", "scroll one line"));
    v.push(("SPACE / b", "page down / up"));
    v.push(("d / u", "half page down / up"));
    v.push(("g / G", "go to top / bottom (Ng: line N)"));
    v.push(("Np", "go to N percent"));
    v.push(("/ ?", "search forward / backward"));
    v.push(("n / N", "next / previous match"));
    v.push(("] / [", "next / previous heading"));
    v.push(("t", "table of contents"));
    v.push(("v", "show diagrams rendered / as source"));
    v.push(("o", "follow a link (labels appear)"));
    v.push(("BKSP / ^o", "back to previous document"));
    v.push(("h", "this help"));
    v
}

fn widest_explanation(entries: &Vec<(&'static str, &'static str)>) -> (r: usize)
    requires
        entries@.len() == help_text().len(),
        forall|i: int|
            0 <= i < entries@.len() ==> ((#[trigger] entries@[i]).0@, entries@[i].1@)
                == help_text()[i],
    ensures
        r == widest_help(help_text(), help_text().len()),
{
    let mut best: usize = 20;
    let mut i: usize = 0;
    while i < entries.len()
        invariant
            i <= entries@.len(),
            entries@.len() == help_text().len(),
            forall|i: int|
                0 <= i < entries@.len() ==> ((#[trigger] entries@[i]).0@, entries@[i].1@)
                    == help_text()[i],
            best == widest_help(help_text(), i as nat),
        decreases entries@.len() - i,
    {
        let w: usize = measure(entries[i].1);
        assert((entries@[i as int].0@, entries@[i as int].1@) == help_text()[i as int]);
        if i == 0 || w > best {
            best = w;
        }
        i = i + 1;
    }
    best
}

fn pad_right(s: &str, n: usize) -> (r: String)
    ensures
        r@ == padded(s@, n as nat),
{
    let len: usize = strings::to_chars(s).len();
    let gap: usize = if len < n {
        n - len
    } else {
        0
    };
    let spaces = repeat(' ', gap);
    let mut out: String = s.to_owned();
    out.push_str(spaces.as_str());
    out
}

/// The status bar of `w` columns.
pub fn status_bar(left: &str, right: &str, w: usize) -> (r: String)
    ensures
        r@ == bar_text(left@, right@, w as nat),
{
    let rw: usize = measure(right);
    let room: usize = if rw < w {
        w - rw
    } else {
        0
    };
    let mut bar = fit(left, room);
    let used: usize = measure(bar.as_str());
    let gap: usize = if used < w && rw < w - used {
        w - used - rw
    } else {
        0
    };
    let spaces = repeat(' ', gap);
    bar.push_str(spaces.as_str());
    bar.push_str(right);
    bar
}

impl Pager {
    /// The ranges to highlight on a line.
    fn highlights(&self, line: usize) -> (r: Vec<(usize, usize)>)
        ensures
            r@ == highlights(self@, line as int),
    {
        match &self.search {
            Some(s) => {
                proof {
                    use_type_invariant(s);
                }
                line_ranges(&s.matches, line)
            },
            None => Vec::new(),
        }
    }

    fn draw_row(&self, out: &mut Vec<Op>, row: u16)
        ensures
            screen::ops(*final(out)) == screen::ops(*old(out)) + row_ops(self@, row as int),
    {
        let ghost start = screen::ops(*out);
        let margin: u16 = effective_margin(&self.cfg, self.w);
        let ghost head = seq![
            OpView::MoveTo(0, row),
            OpView::ClearLine,
            OpView::MoveTo(margin, row),
        ];
        out.push(Op::MoveTo(0, row));
        out.push(Op::ClearLine);
        // Content (including kitty image placeholder cells) starts at the
        // margin; the status bar and overlays keep absolute coordinates.
        out.push(Op::MoveTo(margin, row));
        assert(screen::ops(*out) =~= start + head);
        let n: usize = self.doc.lines.len();
        if self.top < n && (row as usize) < n - self.top {
            let line: usize = self.top + row as usize;
            let ranges = self.highlights(line);
            assert(self@.doc.lines[line as int] == self.doc.lines@[line as int]@);
            let visible: usize = (self.w - margin) as usize;
            draw_line(out, &self.doc.lines[line], ranges.as_slice(), visible);
            proof {
                screen::append_moves_in(
                    start,
                    head,
                    screen::line_ops(
                        self@.doc.lines[line as int],
                        highlights(self@, line as int),
                        self@.visible(),
                    ),
                );
            }
        } else {
            out.push(Op::Fg(Color::DarkGrey));
            out.push(Op::Print("~".to_owned()));
            out.push(Op::Put(Attr::Reset));
            assert(screen::ops(*out) =~= start + (head + seq![
                OpView::Fg(Color::DarkGrey),
                OpView::Print("~"@),
                OpView::Put(Attr::Reset),
            ]));
        }
    }

    fn draw_rows(&self, out: &mut Vec<Op>)
        ensures
            screen::ops(*final(out)) == screen::ops(*old(out)) + rows_ops(
                self@,
                self@.content_h(),
            ),
    {
        let ghost start = screen::ops(*out);
        let rows: usize = self.content_h();
        let mut row: usize = 0;
        assert(start + Seq::<OpView>::empty() =~= start);
        while row < rows
            invariant
                row <= rows <= 65534,
                screen::ops(*out) == start + rows_ops(self@, row as nat),
            decreases rows - row,
        {
            let ghost before = rows_ops(self@, row as nat);
            self.draw_row(out, row as u16);
            proof {
                screen::append_moves_in(start, before, row_ops(self@, row as int));
            }
            row = row + 1;
        }
    }

    /// The right of the status bar.
    fn position(&self) -> (r: String)
        ensures
            r@ == position_text(self@),
    {
        let total: usize = self.doc.lines.len();
        let rows: usize = self.content_h();
        let bottom: usize = if self.top < total && rows < total - self.top {
            self.top + rows
        } else {
            total
        };
        let mut s: String = " ".to_owned();
        if bottom >= total {
            let first: usize = if self.top < total {
                self.top
            } else {
                total
            };
            push_number(&mut s, first as u128 + 1);
            s.push_str("-");
            push_number(&mut s, bottom as u128);
            s.push_str("/");
            push_number(&mut s, total as u128);
            s.push_str(" END ");
        } else {
            push_number(&mut s, self.top as u128 + 1);
            s.push_str("-");
            push_number(&mut s, bottom as u128);
            s.push_str("/");
            push_number(&mut s, total as u128);
            s.push_str(" ");
            push_number(&mut s, bottom as u128 * 100 / total as u128);
            s.push_str("% ");
        }
        s
    }

    /// The left of the status bar.
    fn caption(&self) -> (r: String)
        ensures
            r@ == caption_text(self@),
    {
        let mut s: String = " ".to_owned();
        match &self.message {
            Some(m) => {
                s.push_str(m.as_str());
            },
            None => {
                s.push_str(self.title.as_str());
                s.push_str(" ");
            },
        }
        if !self.count.as_str().is_empty() {
            s.push_str(" [");
            s.push_str(self.count.as_str());
            s.push_str("]");
        }
        s
    }

    fn draw_status(&self, out: &mut Vec<Op>)
        ensures
            screen::ops(*final(out)) == screen::ops(*old(out)) + status_ops(self@),
    {
        let ghost start = screen::ops(*out);
        let row: u16 = if self.h == 0 {
            0
        } else {
            self.h - 1
        };
        let w: usize = self.w as usize;
        out.push(Op::MoveTo(0, row));
        out.push(Op::ClearLine);
        if let Mode::Prompt { backward, buf } = &self.mode {
            let mut prompt: String = if *backward {
                "?".to_owned()
            } else {
                "/".to_owned()
            };
            prompt.push_str(buf.as_str());
            let shown = fit(prompt.as_str(), w);
            out.push(Op::Print(shown));
            assert(screen::ops(*out) =~= start + status_ops(self@));
            return ;
        }
        let left = self.caption();
        let right = self.position();
        let bar = status_bar(left.as_str(), right.as_str(), w);
        let shown = fit(bar.as_str(), w);
        out.push(Op::Put(Attr::Reverse));
        out.push(Op::Print(shown));
        out.push(Op::Put(Attr::Reset));
        assert(screen::ops(*out) =~= start + status_ops(self@));
    }

    /// The inner width of the table of contents.
    fn toc_width(&self) -> (r: usize)
        ensures
            r == toc_width(self@),
            r <= 0xffff,
    {
        let ghost hs = self@.doc.headings;
        let mut want: u128 = 10;
        let mut i: usize = 0;
        assert(hs.take(0) =~= seq![]);
        while i < self.doc.headings.len()
            invariant
                i <= self.doc.headings@.len(),
                hs == strings::views(self.doc.headings@),
                want == widest_entry(hs.take(i as int)),
            decreases self.doc.headings@.len() - i,
        {
            assert(hs.take(i + 1).drop_last() =~= hs.take(i as int));
            assert(hs.take(i + 1).last() == self.doc.headings@[i as int]@);
            let h = &self.doc.headings[i];
            let tw: usize = measure(h.text.as_str());
            let level: u128 = h.level as u128;
            let w: u128 = tw as u128 + (if level == 0 {
                0
            } else {
                (level - 1) * 2
            });
            if i == 0 || w > want {
                want = w;
            }
            i = i + 1;
        }
        assert(hs.take(i as int) =~= hs);
        let cap: usize = if self.w < 10 {
            4
        } else {
            (self.w - 6) as usize
        };
        let at_least: u128 = if want < 16 {
            16
        } else {
            want
        };
        if at_least < cap as u128 {
            at_least as usize
        } else {
            cap
        }
    }

    fn overlay_height(&self, n: usize) -> (r: usize)
        ensures
            r == overlay_height(self@, n as nat),
            r + 2 <= self@.content_h() || r == 0,
    {
        let rows: usize = self.content_h();
        let room: usize = if rows < 2 {
            0
        } else {
            rows - 2
        };
        if n < room {
            n
        } else {
            room
        }
    }

    fn draw_toc_entry(&self, out: &mut Vec<Op>, i: usize, selected: bool, inner_w: usize)
        requires
            i < self@.doc.headings.len(),
        ensures
            screen::ops(*final(out)) == screen::ops(*old(out)) + toc_entry(
                self@.doc.headings[i as int],
                selected,
                inner_w as nat,
            ),
    {
        let ghost start = screen::ops(*out);
        let h = &self.doc.headings[i];
        assert(self@.doc.headings[i as int] == self.doc.headings@[i as int]@);
        let depth: usize = if h.level == 0 {
            0
        } else {
            (h.level - 1) as usize * 2
        };
        let mut entry = repeat(' ', depth);
        entry.push_str(h.text.as_str());
        let shown = fit(entry.as_str(), inner_w);
        let used: usize = measure(shown.as_str());
        let pad: usize = if used < inner_w {
            inner_w - used
        } else {
            0
        };
        if selected {
            out.push(Op::Put(Attr::Reverse));
        }
        out.push(Op::Print(shown));
        out.push(Op::Print(repeat(' ', pad)));
        out.push(Op::Put(Attr::Reset));
        assert(screen::ops(*out) =~= start + toc_entry(
            self@.doc.headings[i as int],
            selected,
            inner_w as nat,
        ));
    }

    fn draw_toc(&self, out: &mut Vec<Op>, sel: usize)
        ensures
            screen::ops(*final(out)) == screen::ops(*old(out)) + toc_ops(self@, sel),
    {
        let ghost start = screen::ops(*out);
        let ghost hs = self@.doc.headings;
        let inner_w: usize = self.toc_width();
        let h: usize = self.overlay_height(self.doc.headings.len());
        let inner_h: usize = if h < 1 {
            1
        } else {
            h
        };
        let from: usize = if sel < inner_h {
            0
        } else {
            sel - (inner_h - 1)
        };
        let x0: usize = centered_at(self.w as usize, inner_w + 4);
        let y0: usize = centered_at(self.content_h(), inner_h + 2);
        draw_box(out, x0 as u16, y0 as u16, inner_w, inner_h, " Contents ");
        let ghost frame = screen::box_ops(
            x0 as u16,
            y0 as u16,
            inner_w as nat,
            inner_h as nat,
            " Contents "@,
        );
        let mut row: usize = 0;
        assert(start + frame + Seq::<OpView>::empty() =~= start + frame);
        let n: usize = self.doc.headings.len();
        while row < inner_h
            invariant
                row <= inner_h,
                hs == self@.doc.headings,
                n == hs.len(),
                x0 <= 0xffff - 2,
                y0 + 1 + inner_h <= 0xffff,
                from <= sel,
                screen::ops(*out) == start + frame + toc_rows(
                    hs,
                    sel,
                    from as nat,
                    x0 as nat,
                    y0 as nat,
                    inner_w as nat,
                    row as nat,
                ),
            decreases inner_h - row,
        {
            let ghost before = toc_rows(
                hs,
                sel,
                from as nat,
                x0 as nat,
                y0 as nat,
                inner_w as nat,
                row as nat,
            );
            let x: u16 = (x0 + 2) as u16;
            let y: u16 = (y0 + 1 + row) as u16;
            let ghost head = seq![OpView::MoveTo(x, y)];
            out.push(Op::MoveTo(x, y));
            assert(screen::ops(*out) =~= start + frame + (before + head));
            if from < n && row < n - from {
                let i: usize = from + row;
                self.draw_toc_entry(out, i, i == sel, inner_w);
                proof {
                    screen::append_moves_in(
                        start + frame,
                        before + head,
                        toc_entry(hs[i as int], i == sel, inner_w as nat),
                    );
                }
            } else {
                assert(before + head + Seq::<OpView>::empty() =~= before + head);
            }
            row = row + 1;
        }
        proof {
            screen::append_moves_in(
                start,
                frame,
                toc_rows(
                    hs,
                    sel,
                    from as nat,
                    x0 as nat,
                    y0 as nat,
                    inner_w as nat,
                    inner_h as nat,
                ),
            );
        }
    }

    fn draw_help(&self, out: &mut Vec<Op>)
        ensures
            screen::ops(*final(out)) == screen::ops(*old(out)) + help_ops(self@),
    {
        let ghost start = screen::ops(*out);
        let entries = help_entries();
        let widest: usize = widest_explanation(&entries);
        let cap: usize = if self.w < 6 {
            0
        } else {
            (self.w - 6) as usize
        };
        let w: usize = if widest < cap && 14 < cap - widest {
            14 + widest
        } else {
            cap
        };
        let inner_w: usize = if w < 20 {
            20
        } else {
            w
        };
        let inner_h: usize = self.overlay_height(entries.len());
        let x0: usize = centered_at(self.w as usize, inner_w + 4);
        let y0: usize = centered_at(self.content_h(), inner_h + 2);
        draw_box(out, x0 as u16, y0 as u16, inner_w, inner_h, " Keys ");
        let ghost frame = screen::box_ops(
            x0 as u16,
            y0 as u16,
            inner_w as nat,
            inner_h as nat,
            " Keys "@,
        );
        let mut row: usize = 0;
        assert(start + frame + Seq::<OpView>::empty() =~= start + frame);
        while row < inner_h
            invariant
                row <= inner_h <= entries@.len(),
                entries@.len() == help_text().len(),
                forall|i: int|
                    0 <= i < entries@.len() ==> ((#[trigger] entries@[i]).0@, entries@[i].1@)
                        == help_text()[i],
                x0 <= 0xffff - 2,
                y0 + 1 + inner_h <= 0xffff,
                inner_w >= 20,
                screen::ops(*out) == start + frame + help_rows(
                    x0 as nat,
                    y0 as nat,
                    inner_w as nat,
                    row as nat,
                ),
            decreases inner_h - row,
        {
            let ghost before = help_rows(x0 as nat, y0 as nat, inner_w as nat, row as nat);
            assert((entries@[row as int].0@, entries@[row as int].1@) == help_text()[row as int]);
            let x: u16 = (x0 + 2) as u16;
            let y: u16 = (y0 + 1 + row) as u16;
            let keys = pad_right(entries[row].0, 14);
            let what = fit(entries[row].1, inner_w - 14);
            let ghost added = seq![
                OpView::MoveTo(x, y),
                OpView::Put(Attr::Bold),
                OpView::Print(keys@),
                OpView::Put(Attr::Reset),
                OpView::Print(what@),
            ];
            out.push(Op::MoveTo(x, y));
            out.push(Op::Put(Attr::Bold));
            out.push(Op::Print(keys));
            out.push(Op::Put(Attr::Reset));
            out.push(Op::Print(what));
            assert(screen::ops(*out) =~= start + frame + (before + added));
            row = row + 1;
        }
        proof {
            screen::append_moves_in(
                start,
                frame,
                help_rows(x0 as nat, y0 as nat, inner_w as nat, inner_h as nat),
            );
        }
    }

    /// Labels overwrite the link's first cell only. Kitty image placeholder
    /// lines carry no link styles, so placeholder cells are never touched.
    fn draw_labels(&self, out: &mut Vec<Op>, targets: &Vec<super::LinkTarget>)
        ensures
            screen::ops(*final(out)) == screen::ops(*old(out)) + label_ops(
                strings::views(targets@),
                geometry::margin(self@.cfg.left_margin, self@.w),
                targets@.len(),
            ),
    {
        let ghost start = screen::ops(*out);
        let ghost ts = strings::views(targets@);
        let margin: u16 = effective_margin(&self.cfg, self.w);
        let mut i: usize = 0;
        assert(start + Seq::<OpView>::empty() =~= start);
        while i < targets.len()
            invariant
                i <= targets@.len(),
                ts == strings::views(targets@),
                screen::ops(*out) == start + label_ops(ts, margin, i as nat),
            decreases targets@.len() - i,
        {
            let ghost before = label_ops(ts, margin, i as nat);
            let t = &targets[i];
            assert(ts[i as int] == t@);
            let col: u16 = if margin > 0xffff - t.col {
                0xffff
            } else {
                margin + t.col
            };
            let mut name = String::new();
            name.push(t.label);
            assert(name@ =~= seq![t.label]);
            let ghost added = seq![
                OpView::MoveTo(col, t.row),
                OpView::Put(Attr::Reverse),
                OpView::Put(Attr::Bold),
                OpView::Print(name@),
                OpView::Put(Attr::Reset),
            ];
            out.push(Op::MoveTo(col, t.row));
            out.push(Op::Put(Attr::Reverse));
            out.push(Op::Put(Attr::Bold));
            out.push(Op::Print(name));
            out.push(Op::Put(Attr::Reset));
            assert(screen::ops(*out) =~= start + (before + added));
            i = i + 1;
        }
    }

    /// Draws the whole screen.
    pub fn draw(&self) -> (r: Vec<Op>)
        ensures
            screen::ops(r) == screen_ops(self@),
    {
        let mut out: Vec<Op> = Vec::new();
        out.push(Op::Begin);
        assert(screen::ops(out) =~= seq![OpView::Begin]);
        self.draw_rows(&mut out);
        self.draw_status(&mut out);
        match &self.mode {
            Mode::Toc { sel } => self.draw_toc(&mut out, *sel),
            Mode::Help => self.draw_help(&mut out),
            Mode::Follow { targets } => self.draw_labels(&mut out, targets),
            _ => {
                assert(screen::ops(out) + Seq::<OpView>::empty() =~= screen::ops(out));
            },
        }
        let ghost all = screen::ops(out);
        out.push(Op::End);
        assert(screen::ops(out) =~= all + seq![OpView::End]);
        out
    }
}

} // verus!
