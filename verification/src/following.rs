//! Which links can be followed: those that start on screen, each by a label of its own.

use vstd::prelude::*;
use crate::finding;
use crate::geometry;
use crate::pager_view;
use crate::pager_view::{ActionView, Gather, Key, KeyCode, ModeView, PagerView, TargetView};
use crate::paths;
use crate::strings;
use crate::text;
use crate::text::SpanView;
use crate::width;

verus! {

/// The columns in front of a span of a line.
pub open spec fn column(line: Seq<SpanView>, k: int) -> nat {
    text::line_width(line.take(k))
}

/// Whether a link starts with a span: one that leads somewhere, and elsewhere than the
/// span before it.
pub open spec fn starts_link(line: Seq<SpanView>, k: int) -> bool {
    &&& 0 <= k < line.len()
    &&& line[k].style.link is Some
    &&& k > 0 ==> line[k - 1].style.link != line[k].style.link
}

/// Whether a target is the link that starts with a span of the line on a screen row,
/// within the columns there are.
pub open spec fn marks(
    t: TargetView,
    line: Seq<SpanView>,
    row: int,
    k: int,
    visible: nat,
) -> bool {
    &&& starts_link(line, k)
    &&& column(line, k) < visible
    &&& t.row == row
    &&& t.col == column(line, k)
    &&& line[k].style.link == Some(t.url)
}

proof fn columns_grow(line: Seq<SpanView>, k: int)
    requires
        0 <= k < line.len(),
    ensures
        column(line, k + 1) == column(line, k) + width::str_width(line[k].text),
{
    assert(line.take(k + 1).drop_last() =~= line.take(k));
}

spec fn on_line(t: TargetView, line: Seq<SpanView>, row: int, visible: nat) -> bool {
    exists|k: int| #[trigger] marks(t, line, row, k, visible)
}

/// What holds of the links gathered from the first `n` spans of a line.
spec fn gathered(g0: Gather, g: Gather, line: Seq<SpanView>, row: int, visible: nat, n: int) -> bool {
    let old_len = g0.targets.len() as int;
    &&& old_len <= g.targets.len() <= 52
    &&& forall|i: int| 0 <= i < old_len ==> #[trigger] g.targets[i] == g0.targets[i]
    &&& forall|i: int|
        old_len <= i < g.targets.len() ==> on_line(#[trigger] g.targets[i], line, row, visible)
    &&& g.full ==> g.targets.len() == 52
    &&& !g.full ==> {
        &&& g.col < visible ==> g.col == column(line, n) && g.prev == (if n == 0 {
            None
        } else {
            line[n - 1].style.link
        })
        &&& g.col >= visible ==> g.col <= column(line, n)
        &&& forall|k: int|
            0 <= k < n && #[trigger] starts_link(line, k) && column(line, k) < visible
                ==> has_target(g.targets, line, row, k, visible)
    }
}

proof fn spans_are_gathered(
    g0: Gather,
    line: Seq<SpanView>,
    row: int,
    visible: nat,
    n: int,
)
    requires
        !g0.full,
        g0.targets.len() <= 52,
        g0.col == 0,
        g0.prev is None,
        0 <= row <= u16::MAX,
        visible <= u16::MAX,
        0 <= n <= line.len(),
    ensures
        gathered(
            g0,
            pager_view::gather_spans(g0, line.take(n), row, visible),
            line,
            row,
            visible,
            n,
        ),
    decreases n,
{
    let g = pager_view::gather_spans(g0, line.take(n), row, visible);
    if n == 0 {
        assert(line.take(0) =~= seq![]);
        assert(column(line, 0) == 0);
    } else {
        spans_are_gathered(g0, line, row, visible, n - 1);
        assert(line.take(n).drop_last() =~= line.take(n - 1));
        let f = pager_view::gather_spans(g0, line.take(n - 1), row, visible);
        let span = line[n - 1];
        assert(line.take(n).last() == span);
        columns_grow(line, n - 1);
        if f.full {
        } else if f.col >= visible {
            assert forall|k: int|
                0 <= k < n && #[trigger] starts_link(line, k) && column(line, k)
                    < visible implies has_target(g.targets, line, row, k, visible) by {
                assert(k < n - 1);
            }
        } else {
            let fresh = span.style.link is Some && f.prev != span.style.link;
            assert(fresh == starts_link(line, n - 1));
            if fresh && f.targets.len() >= 52 {
            } else {
                if fresh {
                    assert(marks(g.targets.last(), line, row, n - 1, visible));
                    assert forall|i: int|
                        g0.targets.len() <= i < g.targets.len() implies on_line(
                        #[trigger] g.targets[i],
                        line,
                        row,
                        visible,
                    ) by {
                        if i < f.targets.len() {
                            assert(g.targets[i] == f.targets[i]);
                            assert(on_line(f.targets[i], line, row, visible));
                        } else {
                            assert(marks(g.targets[i], line, row, n - 1, visible));
                        }
                    }
                }
                assert forall|k: int|
                    0 <= k < n && #[trigger] starts_link(line, k) && column(line, k)
                        < visible implies has_target(g.targets, line, row, k, visible) by {
                    if k < n - 1 {
                        assert(has_target(f.targets, line, row, k, visible));
                        let i = choose|i: int|
                            0 <= i < f.targets.len() && marks(
                                #[trigger] f.targets[i],
                                line,
                                row,
                                k,
                                visible,
                            );
                        assert(g.targets[i] == f.targets[i]);
                    } else {
                        assert(g.targets[g.targets.len() - 1] == g.targets.last());
                    }
                }
            }
        }
    }
}

/// Whether a target is a link on one of the first `n` rows of a screen.
spec fn is_shown(
    t: TargetView,
    lines: Seq<Seq<SpanView>>,
    top: nat,
    visible: nat,
    n: int,
) -> bool {
    exists|r: int, k: int|
        0 <= r < n && top + r < lines.len() && #[trigger] marks(
            t,
            lines[top + r],
            r,
            k,
            visible,
        )
}

spec fn has_target(
    targets: Seq<TargetView>,
    line: Seq<SpanView>,
    row: int,
    k: int,
    visible: nat,
) -> bool {
    exists|i: int| 0 <= i < targets.len() && marks(#[trigger] targets[i], line, row, k, visible)
}

proof fn rows_are_gathered(lines: Seq<Seq<SpanView>>, top: nat, visible: nat, n: int)
    requires
        0 <= n <= u16::MAX,
        visible <= u16::MAX,
    ensures
        ({
            let g = pager_view::gather_rows(lines, top, visible, n as nat);
            &&& g.targets.len() <= 52
            &&& g.full ==> g.targets.len() == 52
            &&& forall|i: int|
                0 <= i < g.targets.len() ==> is_shown(
                    #[trigger] g.targets[i],
                    lines,
                    top,
                    visible,
                    n,
                )
            &&& !g.full ==> forall|r: int, k: int|
                0 <= r < n && top + r < lines.len() && #[trigger] starts_link(lines[top + r], k)
                    && column(lines[top + r], k) < visible ==> has_target(
                    g.targets,
                    lines[top + r],
                    r,
                    k,
                    visible,
                )
        }),
    decreases n,
{
    if n > 0 {
        rows_are_gathered(lines, top, visible, n - 1);
        let f = pager_view::gather_rows(lines, top, visible, (n - 1) as nat);
        let g = pager_view::gather_rows(lines, top, visible, n as nat);
        if f.full || top + n - 1 >= lines.len() {
            assert forall|i: int| 0 <= i < g.targets.len() implies is_shown(
                #[trigger] g.targets[i],
                lines,
                top,
                visible,
                n,
            ) by {
                assert(is_shown(f.targets[i], lines, top, visible, n - 1));
            }
        } else {
            let line = lines[top + n - 1];
            let g0 = Gather { col: 0, prev: None, ..f };
            spans_are_gathered(g0, line, n - 1, visible, line.len() as int);
            assert(line.take(line.len() as int) =~= line);
            assert forall|i: int| 0 <= i < g.targets.len() implies is_shown(
                #[trigger] g.targets[i],
                lines,
                top,
                visible,
                n,
            ) by {
                if i < f.targets.len() {
                    assert(g.targets[i] == f.targets[i]);
                    assert(is_shown(f.targets[i], lines, top, visible, n - 1));
                } else {
                    assert(on_line(g.targets[i], line, n - 1, visible));
                    let k = choose|k: int| #[trigger]
                        marks(g.targets[i], line, n - 1, k, visible);
                    assert(marks(g.targets[i], lines[top + (n - 1)], n - 1, k, visible));
                }
            }
            if !g.full {
                assert forall|r: int, k: int|
                    0 <= r < n && top + r < lines.len() && #[trigger] starts_link(
                        lines[top + r],
                        k,
                    ) && column(lines[top + r], k) < visible implies has_target(
                    g.targets,
                    lines[top + r],
                    r,
                    k,
                    visible,
                ) by {
                    if r < n - 1 {
                        assert(has_target(f.targets, lines[top + r], r, k, visible));
                        let i = choose|i: int|
                            0 <= i < f.targets.len() && marks(
                                #[trigger] f.targets[i],
                                lines[top + r],
                                r,
                                k,
                                visible,
                            );
                        assert(g.targets[i] == f.targets[i]);
                    } else {
                        assert(lines[top + r] == line);
                    }
                }
            }
        }
    }
}

/// The rows of the screen that show the document.
pub open spec fn shown_rows(p: PagerView) -> int {
    if p.h > 2 {
        p.h - 1
    } else {
        1
    }
}

/// The columns of the screen that show the document.
pub open spec fn shown_cols(p: PagerView) -> nat {
    (p.w - geometry::margin(p.cfg.left_margin, p.w)) as nat
}

/// Whether a link starts on screen, on a row, with a span of the document line that is
/// shown there.
pub open spec fn link_on_screen(p: PagerView, row: int, k: int) -> bool {
    &&& 0 <= row < shown_rows(p)
    &&& p.top + row < p.doc.lines.len()
    &&& starts_link(p.doc.lines[p.top + row], k)
    &&& column(p.doc.lines[p.top + row], k) < shown_cols(p)
}

/// Whether a target is such a link.
pub open spec fn leads_as(p: PagerView, t: TargetView, row: int, k: int) -> bool {
    &&& link_on_screen(p, row, k)
    &&& t.row == row
    &&& t.col == column(p.doc.lines[p.top + row], k)
    &&& p.doc.lines[p.top + row][k].style.link == Some(t.url)
}

/// Whether every target is a link that starts on screen, at its place.
pub open spec fn all_lead(p: PagerView, targets: Seq<TargetView>) -> bool {
    forall|i: int| 0 <= i < targets.len() ==> leads(p, #[trigger] targets[i])
}

pub open spec fn leads(p: PagerView, t: TargetView) -> bool {
    exists|row: int, k: int| #[trigger] leads_as(p, t, row, k)
}

/// Whether every link that starts on screen has a target.
pub open spec fn none_missed(p: PagerView, targets: Seq<TargetView>) -> bool {
    forall|row: int, k: int| #[trigger]
        link_on_screen(p, row, k) ==> exists|i: int|
            0 <= i < targets.len() && leads_as(p, #[trigger] targets[i], row, k)
}

/// The labels are the links on screen: every label is that of a link that starts on a
/// line shown, at its place and with its target, and every such link has a label as
/// long as there are labels left. Where there is no link on screen, this is said.
pub proof fn labels_are_links_on_screen(p: PagerView)
    ensures
        ({
            let q = p.enter_follow_mode();
            ||| {
                &&& q == p.say("No links on screen"@)
                &&& forall|row: int, k: int| !#[trigger] link_on_screen(p, row, k)
            }
            ||| {
                &&& q.mode is Follow
                &&& q == p.set_mode(q.mode)
                &&& 0 < q.mode->targets.len() <= 52
                &&& all_lead(p, q.mode->targets)
                &&& q.mode->targets.len() < 52 ==> none_missed(p, q.mode->targets)
            }
        }),
{
    let visible = p.visible();
    let n = shown_rows(p);
    rows_are_gathered(p.doc.lines, p.top, visible, n);
    let g = pager_view::gather_rows(p.doc.lines, p.top, visible, p.content_h());
    let targets = g.targets;
    assert forall|i: int| 0 <= i < targets.len() implies leads(p, #[trigger] targets[i]) by {
        assert(is_shown(targets[i], p.doc.lines, p.top, visible, n));
        let (r, k) = choose|r: int, k: int|
            0 <= r < n && p.top + r < p.doc.lines.len() && #[trigger] marks(
                targets[i],
                p.doc.lines[p.top + r],
                r,
                k,
                visible,
            );
        assert(leads_as(p, targets[i], r, k));
    }
    if targets.len() < 52 {
        assert forall|row: int, k: int| #[trigger] link_on_screen(p, row, k) implies exists|i: int|
            0 <= i < targets.len() && leads_as(p, #[trigger] targets[i], row, k) by {
            assert(starts_link(p.doc.lines[p.top + row], k));
            assert(has_target(targets, p.doc.lines[p.top + row], row, k, visible));
            let i = choose|i: int|
                0 <= i < targets.len() && marks(
                    #[trigger] targets[i],
                    p.doc.lines[p.top + row],
                    row,
                    k,
                    visible,
                );
            assert(leads_as(p, targets[i], row, k));
        }
    }
    if targets.len() == 0 {
        assert forall|row: int, k: int| !#[trigger] link_on_screen(p, row, k) by {
            if link_on_screen(p, row, k) {
                let i = choose|i: int|
                    0 <= i < targets.len() && leads_as(p, #[trigger] targets[i], row, k);
                assert(false);
            }
        }
    }
}

// Labels.

/// The letters that label links: lowercase first.
pub open spec fn letter(i: int) -> char {
    seq![
        'a', 'b', 'c', 'd', 'e', 'f', 'g', 'h', 'i', 'j', 'k', 'l', 'm', 'n', 'o', 'p', 'q', 'r',
        's', 't', 'u', 'v', 'w', 'x', 'y', 'z', 'A', 'B', 'C', 'D', 'E', 'F', 'G', 'H', 'I', 'J',
        'K', 'L', 'M', 'N', 'O', 'P', 'Q', 'R', 'S', 'T', 'U', 'V', 'W', 'X', 'Y', 'Z',
    ][i]
}

proof fn labels_are_letters(i: int)
    requires
        0 <= i < 52,
    ensures
        pager_view::label(i) == letter(i),
{
}

proof fn spans_are_labelled(g0: Gather, line: Seq<SpanView>, row: int, visible: nat)
    requires
        g0.targets.len() <= 52,
        forall|i: int| 0 <= i < g0.targets.len() ==> (#[trigger] g0.targets[i]).label == letter(i),
    ensures
        ({
            let g = pager_view::gather_spans(g0, line, row, visible);
            &&& g.targets.len() <= 52
            &&& forall|i: int|
                0 <= i < g.targets.len() ==> (#[trigger] g.targets[i]).label == letter(i)
        }),
    decreases line.len(),
{
    if line.len() > 0 {
        spans_are_labelled(g0, line.drop_last(), row, visible);
        let f = pager_view::gather_spans(g0, line.drop_last(), row, visible);
        if f.targets.len() < 52 {
            labels_are_letters(f.targets.len() as int);
        }
    }
}

proof fn rows_are_labelled(lines: Seq<Seq<SpanView>>, top: nat, visible: nat, n: nat)
    ensures
        ({
            let g = pager_view::gather_rows(lines, top, visible, n);
            &&& g.targets.len() <= 52
            &&& forall|i: int|
                0 <= i < g.targets.len() ==> (#[trigger] g.targets[i]).label == letter(i)
        }),
    decreases n,
{
    if n > 0 {
        rows_are_labelled(lines, top, visible, (n - 1) as nat);
        let f = pager_view::gather_rows(lines, top, visible, (n - 1) as nat);
        if !f.full && top + n - 1 < lines.len() {
            spans_are_labelled(
                Gather { col: 0, prev: None, ..f },
                lines[top + n - 1],
                n - 1,
                visible,
            );
        }
    }
}

proof fn letters_differ(i: int, j: int)
    requires
        0 <= i < 52,
        0 <= j < 52,
        letter(i) == letter(j),
    ensures
        i == j,
{
    labels_are_letters(i);
    labels_are_letters(j);
}

proof fn labels_pick(targets: Seq<TargetView>, i: int, from: int)
    requires
        0 <= from <= i < targets.len() <= 52,
        forall|k: int| 0 <= k < targets.len() ==> (#[trigger] targets[k]).label == letter(k),
    ensures
        pager_view::target_at(targets, letter(i), from) == Some(targets[i].url),
    decreases i - from,
{
    if targets[from].label == letter(i) {
        letters_differ(from, i);
    } else {
        labels_pick(targets, i, from + 1);
    }
}

/// Pressing the label of a link follows that link: labels are letters, from the top of
/// the screen on, no two the same.
pub proof fn labels_follow_their_links(p: PagerView, i: int)
    requires
        p.mode is Normal,
        p.enter_follow_mode().mode is Follow,
        0 <= i < p.enter_follow_mode().mode->targets.len(),
    ensures
        ({
            let q = p.enter_follow_mode();
            let t = q.mode->targets[i];
            &&& t.label == letter(i)
            &&& q.key(finding::key_of(letter(i))) == (PagerView { message: None, ..p }).follow_link(
                t.url,
            )
        }),
{
    rows_are_labelled(p.doc.lines, p.top, p.visible(), p.content_h());
    let q = p.enter_follow_mode();
    labels_pick(q.mode->targets, i, 0);
    assert((PagerView { message: None, ..q }).set_mode(ModeView::Normal) =~= PagerView {
        message: None,
        ..p
    });
}

/// A key that labels no link leaves everything but the labels as it was.
pub proof fn other_keys_leave(p: PagerView, targets: Seq<TargetView>, key: Key)
    requires
        p.mode == (ModeView::Follow { targets }),
        key.code matches KeyCode::Char(c) ==> forall|i: int|
            0 <= i < targets.len() ==> (#[trigger] targets[i]).label != c,
    ensures
        p.key(key) == (
            PagerView { message: None, mode: ModeView::Normal, ..p },
            ActionView::Stay,
        ),
{
    if let KeyCode::Char(c) = key.code {
        nothing_picked(targets, c, 0);
    }
}

proof fn nothing_picked(targets: Seq<TargetView>, c: char, from: int)
    requires
        0 <= from <= targets.len(),
        forall|i: int| 0 <= i < targets.len() ==> (#[trigger] targets[i]).label != c,
    ensures
        pager_view::target_at(targets, c, from) is None,
    decreases targets.len() - from,
{
    if from < targets.len() {
        nothing_picked(targets, c, from + 1);
    }
}

// Where links lead.

/// The URL of a file.
pub open spec fn file_url(path: Seq<char>) -> Seq<char> {
    seq!['f', 'i', 'l', 'e', ':', '/', '/'] + path
}

proof fn file_url_is_one(path: Seq<char>)
    ensures
        strings::stands_at(file_url(path), "file://"@, 0),
        "file://"@.len() == 7,
        file_url(path).skip(7) == path,
        file_url(path)[0] == 'f',
{
    reveal_strlit("file://");
    assert(file_url(path).subrange(0, 7) =~= "file://"@);
    assert(file_url(path).skip(7) =~= path);
}

/// A link to a file is followed to the file: a markdown file is loaded, and shown from
/// the fragment behind its path on where there is one, and any other file is opened.
pub proof fn file_links_lead_to_files(p: PagerView, path: Seq<char>, fragment: Seq<char>)
    requires
        !path.contains('#'),
    ensures
        p.follow_link(file_url(path)) == (
            p,
            if paths::is_markdown_path(path) {
                ActionView::Load(path, None)
            } else {
                ActionView::OpenFile(path, file_url(path))
            },
        ),
        p.follow_link(file_url(path).push('#') + fragment) == (
            p,
            if paths::is_markdown_path(path) {
                ActionView::Load(path, Some(fragment))
            } else {
                ActionView::OpenFile(path, file_url(path).push('#') + fragment)
            },
        ),
{
    assert forall|i: int| 0 <= i < path.len() implies #[trigger] path[i] != '#' by {
        assert(path.contains(path[i]));
    }
    file_url_is_one(path);
    strings::first_is_there(path, '#', 0, path.len() as int);
    assert(path.take(path.len() as int) =~= path);
    let more = path.push('#') + fragment;
    file_url_is_one(more);
    assert(file_url(more) =~= file_url(path).push('#') + fragment);
    assert forall|i: int| 0 <= i < path.len() implies #[trigger] more[i] != '#' by {
        assert(more[i] == path[i]);
    }
    strings::first_is_there(more, '#', 0, path.len() as int);
    assert(more.take(path.len() as int) =~= path);
    assert(more.skip(path.len() as int + 1) =~= fragment);
}

/// A link to a place in the document stays in it, and any other link is opened.
pub proof fn other_links_are_opened(p: PagerView, url: Seq<char>)
    ensures
        p.follow_link(seq!['#'] + url) == (p.jump_fragment(url), ActionView::Stay),
        url.len() > 0 && url[0] != '#' && !strings::stands_at(url, file_url(seq![]), 0)
            ==> p.follow_link(url) == (p, ActionView::Open(url)),
{
    assert((seq!['#'] + url).skip(1) =~= url);
    reveal_strlit("file://");
    assert(file_url(seq![]) =~= "file://"@);
}

} // verus!
