//! Where keys go in a document.

use vstd::prelude::*;
use crate::finding;
use crate::following;
use crate::geometry;
use crate::numbers;
use crate::pager_view;
use crate::pager_view::{ActionView, Key, KeyCode, ModeView, PagerView, ThenView};
use crate::slug;
use crate::state::{DocumentView, HeadingView, ImageMode};
use crate::strings;

verus! {

/// Whether the pager waits for a command that no count was typed for, within the
/// document.
pub open spec fn at_rest(p: PagerView) -> bool {
    p.mode is Normal && p.count.len() == 0 && p.top <= finding::last_top(p)
}

/// A key other than a character.
pub open spec fn plain(code: KeyCode) -> Key {
    Key { code, ctrl: false }
}

/// The line at the top after a key.
pub open spec fn top_after(p: PagerView, key: Key) -> int {
    p.key(key).0.top as int
}

/// The smaller of two lines.
pub open spec fn lesser(a: int, b: int) -> int {
    if a < b {
        a
    } else {
        b
    }
}

proof fn no_count(p: PagerView)
    requires
        p.count.len() == 0,
    ensures
        (PagerView { message: None, ..p }).counted() is None,
{
}

/// Keys scroll by a line, a page or half of one, down as far as the document goes and
/// up as far as its start.
pub proof fn keys_scroll(p: PagerView)
    requires
        at_rest(p),
    ensures
        ({
            let last = finding::last_top(p);
            let rows = following::shown_rows(p);
            let down = |n: int| lesser(p.top + n, last);
            let up = |n: int| if p.top < n {
                0
            } else {
                p.top - n
            };
            &&& top_after(p, finding::key_of('j')) == down(1)
            &&& top_after(p, finding::key_of('k')) == up(1)
            &&& top_after(p, finding::key_of(' ')) == down(rows)
            &&& top_after(p, finding::key_of('f')) == down(rows)
            &&& top_after(p, finding::key_of('b')) == up(rows)
            &&& top_after(p, finding::key_of('d')) == down(rows / 2)
            &&& top_after(p, finding::key_of('u')) == up(rows / 2)
            &&& top_after(p, finding::key_of('g')) == 0
            &&& top_after(p, finding::key_of('G')) == last
        }),
{
    no_count(p);
}

/// The arrows, Enter and the paging keys do what letters do.
pub proof fn named_keys_scroll(p: PagerView)
    requires
        p.mode is Normal,
    ensures
        p.key(plain(KeyCode::Down)) == p.key(finding::key_of('j')),
        p.key(plain(KeyCode::Enter)) == p.key(finding::key_of('j')),
        p.key(plain(KeyCode::Up)) == p.key(finding::key_of('k')),
        p.key(plain(KeyCode::PageDown)) == p.key(finding::key_of('f')),
        p.key(plain(KeyCode::PageUp)) == p.key(finding::key_of('b')),
        p.key(plain(KeyCode::Home)) == p.key(finding::key_of('g')),
        p.key(plain(KeyCode::End)) == p.key(finding::key_of('G')),
        p.key(plain(KeyCode::F(1))) == p.key(finding::key_of('h')),
        p.key(Key { code: KeyCode::Char('v'), ctrl: true }).0 == p.key(finding::key_of('f')).0,
        p.key(plain(KeyCode::Backspace)) == p.key(Key { code: KeyCode::Char('o'), ctrl: true }),
{
}

proof fn digits_are_digits(n: nat)
    ensures
        decimal_is_typed(numbers::decimal_text(n)),
    decreases n,
{
    let s = numbers::decimal_text(n);
    if n >= 10 {
        digits_are_digits(n / 10);
        let d = numbers::decimal_text(n / 10);
        assert forall|i: int| 0 <= i < s.len() implies strings::is_digit(#[trigger] s[i]) by {
            if i < d.len() {
                assert(s[i] == d[i]);
            }
        }
    }
}

spec fn decimal_is_typed(s: Seq<char>) -> bool {
    forall|i: int| 0 <= i < s.len() ==> strings::is_digit(#[trigger] s[i])
}

proof fn digit_is_kept(p: PagerView, c: char)
    requires
        p.mode is Normal,
        strings::is_digit(c),
    ensures
        finding::pressed(p, finding::key_of(c)) == (PagerView {
            count: p.count.push(c),
            message: None,
            ..p
        }),
{
    reveal(finding::pressed);
}

proof fn digits_are_kept(p: PagerView, s: Seq<char>)
    requires
        p.mode is Normal,
        decimal_is_typed(s),
    ensures
        ({
            let q = finding::typed(p, finding::keys_of(s));
            &&& q.count == p.count + s
            &&& q == (PagerView { count: q.count, message: q.message, ..p })
        }),
    decreases s.len(),
{
    let keys = finding::keys_of(s);
    if s.len() == 0 {
        assert(p.count + s =~= p.count);
        assert(p =~= PagerView { count: p.count, message: p.message, ..p });
    } else {
        let d = s.drop_last();
        assert forall|i: int| 0 <= i < d.len() implies strings::is_digit(#[trigger] d[i]) by {
            assert(d[i] == s[i]);
        }
        digits_are_kept(p, d);
        assert(keys.drop_last() =~= finding::keys_of(d));
        let q = finding::typed(p, finding::keys_of(d));
        assert(strings::is_digit(s[s.len() - 1]));
        digit_is_kept(q, s.last());
        assert((p.count + d).push(s.last()) =~= p.count + s);
    }
}

proof fn counted_key(q: PagerView, n: nat)
    requires
        q.mode is Normal,
        q.counted() == Some(n),
        q.top <= finding::last_top(q),
    ensures
        ({
            let last = finding::last_top(q);
            let at = |c: char| finding::pressed(q, finding::key_of(c)).top as int;
            &&& at('j') == lesser(q.top as int + n, last)
            &&& at('k') == (if q.top < n {
                0
            } else {
                q.top - n
            })
            &&& n > 0 ==> at('g') == lesser(n - 1, last)
            &&& n > 0 ==> at('G') == lesser(n - 1, last)
            &&& n <= 100 ==> at('p') == lesser(q.doc.lines.len() * n as int / 100, last)
            &&& n > 100 ==> at('p') == lesser(q.doc.lines.len() as int * 100 / 100, last)
        }),
{
    reveal(finding::pressed);
    assert((PagerView { message: None, ..q }).counted() == q.counted());
    assert(q.doc.lines.len() * n as int >= 0) by (nonlinear_arith);
    assert(q.doc.lines.len() * n as int / 100 >= 0);
}

/// A number typed in front of a command counts its steps, names the line to go to
/// (counted from one), or the percentage of the document to go to.
pub proof fn counts_count(p: PagerView, n: nat, c: char)
    requires
        at_rest(p),
        n <= usize::MAX,
    ensures
        ({
            let keys = finding::keys_of(numbers::decimal_text(n)) + seq![finding::key_of(c)];
            let top = finding::typed(p, keys).top as int;
            let last = finding::last_top(p);
            &&& c == 'j' ==> top == lesser(p.top as int + n, last)
            &&& c == 'k' ==> top == (if p.top < n {
                0
            } else {
                p.top - n
            })
            &&& (c == 'g' || c == 'G') && n > 0 ==> top == lesser(n - 1, last)
            &&& c == 'p' && n <= 100 ==> top == lesser(p.doc.lines.len() * n as int / 100, last)
        }),
{
    let digits = numbers::decimal_text(n);
    digits_are_digits(n);
    digits_are_kept(p, digits);
    let q = finding::typed(p, finding::keys_of(digits));
    assert(p.count + digits =~= digits);
    numbers::decimal_reads_back(n, usize::MAX as nat);
    finding::typed_join(p, finding::keys_of(digits), seq![finding::key_of(c)]);
    finding::typed_one(q, finding::key_of(c));
    counted_key(q, n);
}

// Headings.

proof fn below_is_first(headings: Seq<HeadingView>, top: nat, from: int)
    requires
        0 <= from <= headings.len(),
        forall|i: int| 0 <= i < from ==> (#[trigger] headings[i]).line <= top,
    ensures
        match pager_view::heading_below(headings, top, from) {
            Some(line) => exists|k: int| #[trigger]
                is_next(headings, top, k) && headings[k].line == line,
            None => forall|i: int| 0 <= i < headings.len() ==> (#[trigger] headings[i]).line
                <= top,
        },
    decreases headings.len() - from,
{
    if from < headings.len() {
        if headings[from].line > top {
            assert(is_next(headings, top, from));
        } else {
            below_is_first(headings, top, from + 1);
        }
    }
}

/// Whether a heading is the first below a line.
pub open spec fn is_next(headings: Seq<HeadingView>, top: nat, k: int) -> bool {
    &&& 0 <= k < headings.len()
    &&& headings[k].line > top
    &&& forall|i: int| 0 <= i < k ==> (#[trigger] headings[i]).line <= top
}

/// Whether a heading is the last above a line.
pub open spec fn is_previous(headings: Seq<HeadingView>, top: nat, k: int) -> bool {
    &&& 0 <= k < headings.len()
    &&& headings[k].line < top
    &&& forall|i: int| k < i < headings.len() ==> (#[trigger] headings[i]).line >= top
}

proof fn above_is_last(headings: Seq<HeadingView>, top: nat, n: int)
    requires
        0 <= n <= headings.len(),
        forall|i: int| n <= i < headings.len() ==> (#[trigger] headings[i]).line >= top,
    ensures
        match pager_view::heading_above(headings.take(n), top) {
            Some(line) => exists|k: int| #[trigger]
                is_previous(headings, top, k) && headings[k].line == line,
            None => forall|i: int| 0 <= i < headings.len() ==> (#[trigger] headings[i]).line
                >= top,
        },
    decreases n,
{
    if n > 0 {
        let h = headings.take(n);
        assert(h.last() == headings[n - 1]);
        assert(h.drop_last() =~= headings.take(n - 1));
        if headings[n - 1].line < top {
            assert(is_previous(headings, top, n - 1));
        } else {
            above_is_last(headings, top, n - 1);
        }
    }
}

/// The brackets go to the next heading below the top line and to the last above it,
/// and say so where there is none.
pub proof fn brackets_go_to_headings(p: PagerView)
    ensures
        ({
            let hs = p.doc.headings;
            let q = p.jump_heading(true);
            let r = p.jump_heading(false);
            &&& q == (PagerView { top: q.top, message: q.message, ..p })
            &&& r == (PagerView { top: r.top, message: r.message, ..p })
            &&& (exists|k: int| #[trigger]
                is_next(hs, p.top, k) && finding::stands_at_top(q, hs[k].line as int)) || (q
                == p.say("No more headings"@) && forall|i: int|
                0 <= i < hs.len() ==> (#[trigger] hs[i]).line <= p.top)
            &&& (exists|k: int| #[trigger]
                is_previous(hs, p.top, k) && finding::stands_at_top(r, hs[k].line as int)) || (r
                == p.say("No more headings"@) && forall|i: int|
                0 <= i < hs.len() ==> (#[trigger] hs[i]).line >= p.top)
        }),
{
    let hs = p.doc.headings;
    below_is_first(hs, p.top, 0);
    above_is_last(hs, p.top, hs.len() as int);
    assert(hs.take(hs.len() as int) =~= hs);
    let q = p.jump_heading(true);
    let r = p.jump_heading(false);
    if let Some(line) = pager_view::heading_below(hs, p.top, 0) {
        let k = choose|k: int| #[trigger] is_next(hs, p.top, k) && hs[k].line == line;
        assert(is_next(hs, p.top, k) && finding::stands_at_top(q, hs[k].line as int));
    }
    if let Some(line) = pager_view::heading_above(hs, p.top) {
        let k = choose|k: int| #[trigger] is_previous(hs, p.top, k) && hs[k].line == line;
        assert(is_previous(hs, p.top, k) && finding::stands_at_top(r, hs[k].line as int));
    }
}

/// The bracket keys are the ones that go to headings.
pub proof fn bracket_keys(p: PagerView)
    requires
        p.mode is Normal,
    ensures
        ({
            let q = PagerView { message: None, ..p };
            &&& p.key(finding::key_of(']')).0 == (PagerView {
                count: seq![],
                ..q.jump_heading(true)
            })
            &&& p.key(finding::key_of('}')).0 == p.key(finding::key_of(']')).0
            &&& p.key(finding::key_of('[')).0 == (PagerView {
                count: seq![],
                ..q.jump_heading(false)
            })
            &&& p.key(finding::key_of('{')).0 == p.key(finding::key_of('[')).0
            &&& p.key(finding::key_of('n')).0 == (PagerView {
                count: seq![],
                ..q.next_match(true)
            })
            &&& p.key(finding::key_of('N')).0 == (PagerView {
                count: seq![],
                ..q.next_match(false)
            })
            &&& p.key(finding::key_of('o')).0 == (PagerView {
                count: seq![],
                ..q.enter_follow_mode()
            })
        }),
{
}

/// Only `q`, `Q` and Ctrl-C at the document leave the pager.
pub proof fn quitting_is_asked_for(p: PagerView, key: Key)
    requires
        !p.quit,
    ensures
        p.key(key).0.quit <==> p.mode is Normal && ((key.code == KeyCode::Char('q') || key.code
            == KeyCode::Char('Q')) && !key.ctrl || key.code == KeyCode::Char('c') && key.ctrl),
{
}

// The table of contents.

proof fn at_is_last(headings: Seq<HeadingView>, top: nat)
    ensures
        ({
            let k = pager_view::heading_at(headings, top);
            &&& headings.len() > 0 ==> 0 <= k < headings.len()
            &&& forall|i: int| k < i < headings.len() ==> (#[trigger] headings[i]).line > top
            &&& headings.len() > 0 && headings[k].line > top ==> k == 0
        }),
    decreases headings.len(),
{
    if headings.len() > 0 {
        let d = headings.drop_last();
        if headings.last().line > top {
            at_is_last(d, top);
            let k = pager_view::heading_at(d, top);
            assert forall|i: int| k < i < headings.len() implies (#[trigger] headings[i]).line
                > top by {
                if i < d.len() {
                    assert(d[i] == headings[i]);
                }
            }
            if d.len() > 0 {
                assert(d[k] == headings[k]);
            }
        }
    }
}

/// The table of contents opens at the section that the top line is in: the last
/// heading at or above it, or the first of all.
pub proof fn contents_open_here(p: PagerView)
    requires
        p.doc.headings.len() <= usize::MAX,
    ensures
        ({
            let hs = p.doc.headings;
            let q = p.enter_toc();
            if hs.len() == 0 {
                q == p.say("No headings in this document"@)
            } else {
                let sel = q.mode->sel;
                &&& q.mode is Toc
                &&& q == p.set_mode(q.mode)
                &&& sel < hs.len()
                &&& forall|i: int| sel < i < hs.len() ==> (#[trigger] hs[i]).line > p.top
                &&& hs[sel as int].line <= p.top || sel == 0
            }
        }),
{
    at_is_last(p.doc.headings, p.top);
}

/// In the table of contents, Enter goes to the heading that is selected, and the other
/// keys select the next, the previous, the first and the last one.
pub proof fn contents_lead_to_headings(p: PagerView, sel: usize)
    requires
        p.mode == (ModeView::Toc { sel }),
        sel < p.doc.headings.len() <= usize::MAX,
    ensures
        ({
            let n = p.doc.headings.len() as int;
            let q = p.key(plain(KeyCode::Enter)).0;
            let at = |key: Key| p.key(key).0.mode->sel as int;
            &&& q.mode is Normal
            &&& finding::stands_at_top(q, p.doc.headings[sel as int].line as int)
            &&& at(finding::key_of('j')) == lesser(sel + 1, n - 1)
            &&& at(plain(KeyCode::Down)) == lesser(sel + 1, n - 1)
            &&& at(finding::key_of('k')) == (if sel == 0 {
                0
            } else {
                sel - 1
            })
            &&& at(plain(KeyCode::Up)) == at(finding::key_of('k'))
            &&& at(finding::key_of('g')) == 0
            &&& at(finding::key_of('G')) == n - 1
            &&& p.key(plain(KeyCode::Esc)).0.mode is Normal
            &&& p.key(plain(KeyCode::Esc)).0.top == p.top
            &&& p.key(finding::key_of('q')).0.mode is Normal
            &&& p.key(finding::key_of('t')).0.mode is Normal
        }),
{
}

/// Whether a fragment names a heading: it is the slug of its text or its text, in
/// whatever case it is written.
pub open spec fn names(fragment: Seq<char>, h: HeadingView) -> bool {
    strings::lowered(fragment) == slug::slug(h.text) || strings::lowered(fragment)
        == strings::lowered(h.text)
}

/// Whether a heading is the first that a fragment names.
pub open spec fn is_named(headings: Seq<HeadingView>, fragment: Seq<char>, k: int) -> bool {
    &&& 0 <= k < headings.len()
    &&& names(fragment, headings[k])
    &&& forall|i: int| 0 <= i < k ==> !names(fragment, #[trigger] headings[i])
}

proof fn fragments_name(headings: Seq<HeadingView>, fragment: Seq<char>, from: int)
    requires
        0 <= from <= headings.len(),
        forall|i: int| 0 <= i < from ==> !names(fragment, #[trigger] headings[i]),
    ensures
        match pager_view::fragment_line(headings, fragment, from) {
            Some(line) => exists|k: int| #[trigger]
                is_named(headings, fragment, k) && headings[k].line == line,
            None => forall|i: int|
                0 <= i < headings.len() ==> !names(fragment, #[trigger] headings[i]),
        },
    decreases headings.len() - from,
{
    if from < headings.len() {
        if names(fragment, headings[from]) {
            assert(is_named(headings, fragment, from));
        } else {
            fragments_name(headings, fragment, from + 1);
        }
    }
}

/// A fragment leads to the first heading that it names, which then stands at the top;
/// where there is none, this is said.
pub proof fn fragments_lead_to_headings(p: PagerView, fragment: Seq<char>)
    ensures
        ({
            let hs = p.doc.headings;
            let q = p.jump_fragment(fragment);
            ||| exists|k: int| #[trigger]
                is_named(hs, fragment, k) && finding::stands_at_top(q, hs[k].line as int) && q
                    == (PagerView { top: q.top, ..p })
            ||| q == p.say("No heading #"@ + fragment) && forall|i: int|
                0 <= i < hs.len() ==> !names(fragment, #[trigger] hs[i])
        }),
{
    let hs = p.doc.headings;
    fragments_name(hs, fragment, 0);
    let q = p.jump_fragment(fragment);
    if let Some(line) = pager_view::fragment_line(hs, fragment, 0) {
        let k = choose|k: int| #[trigger] is_named(hs, fragment, k) && hs[k].line == line;
        assert(is_named(hs, fragment, k) && finding::stands_at_top(q, hs[k].line as int));
    }
}

// Other documents and other sizes.

/// A document that is loaded is shown from its start, or from the heading that a
/// fragment names on; one that is gone back to, from the line it stood at on.
pub proof fn documents_are_shown(p: PagerView, doc: DocumentView, line: nat, guess: nat)
    ensures
        ({
            let q = p.show(doc, ThenView::Start(None), guess);
            q.doc == doc && q.top == 0 && q.search is None && q.images_stale
        }),
        ({
            let q = p.show(doc, ThenView::At(line), guess);
            q.doc == doc && finding::stands_at_top(q, line as int) && q.search is None
                && q.images_stale
        }),
        ({
            let q = p.show(doc, ThenView::Proportion(p.top, 1), guess);
            q.doc == doc && finding::stands_at_top(q, guess as int)
        }),
{
}

/// A link to another document makes that the one shown, and Backspace the one before.
pub proof fn documents_replace_each_other(
    p: PagerView,
    source: Seq<char>,
    title: Seq<char>,
    base: Option<Seq<char>>,
    fragment: Option<Seq<char>>,
)
    ensures
        ({
            let (q, action) = p.navigate_to(source, title, base, fragment);
            &&& q.source == source
            &&& q.title == title
            &&& q.base == base
            &&& q.resolve_links
            &&& action == ActionView::Render(ThenView::Start(fragment))
            &&& q.back_stack.len() == p.back_stack.len() + 1
        }),
        p.back_stack.len() == 0 ==> p.go_back() == (
            p.say("No previous document"@),
            ActionView::Stay,
        ),
{
}

/// A terminal of another size has the document rendered for it, and shown where it
/// stood; a size that is not known is the customary one.
pub proof fn sizes_are_taken(p: PagerView, w: u16, h: u16, mode: ImageMode)
    ensures
        ({
            let (q, action) = p.resize(w, h, mode);
            &&& w > 0 ==> q.w == w
            &&& w == 0 ==> q.w == 80
            &&& h > 0 ==> q.h == h
            &&& h == 0 ==> q.h == 24
            &&& q.image_mode == mode
            &&& q.images_stale
            &&& q.doc == p.doc && q.top == p.top
            &&& p.doc.lines.len() > 0 ==> action == ActionView::Render(
                ThenView::Proportion(p.top, p.doc.lines.len()),
            )
            &&& q.render_opts().width == geometry::wrap_columns(
                p.cfg.wrap_width,
                p.cfg.left_margin,
                q.w,
            )
        }),
{
}

/// The `v` key has the document rendered again, diagrams drawn where they were not and
/// as their source where they were.
pub proof fn diagrams_are_toggled(p: PagerView)
    requires
        p.mode is Normal,
        p.doc.lines.len() > 0,
    ensures
        ({
            let (q, action) = p.key(finding::key_of('v'));
            &&& q.diagrams == !p.diagrams
            &&& q.render_opts().diagrams == !p.diagrams
            &&& q.images_stale
            &&& action == ActionView::Render(ThenView::Proportion(p.top, p.doc.lines.len()))
            &&& q.message == Some(
                if p.diagrams {
                    "diagrams: source"@
                } else {
                    "diagrams: rendered"@
                },
            )
        }),
{
}

/// The help is opened by its key and left by any; a key takes back what was said before
/// it.
pub proof fn help_is_opened_and_left(p: PagerView, key: Key)
    ensures
        p.mode is Normal ==> p.key(finding::key_of('h')).0 == (PagerView {
            mode: ModeView::Help,
            message: None,
            count: seq![],
            ..p
        }),
        p.mode is Help ==> p.key(key) == (
            PagerView { mode: ModeView::Normal, message: None, ..p },
            ActionView::Stay,
        ),
        p.mode is Normal ==> p.key(finding::key_of('j')).0.message is None,
        p.mode is Normal ==> p.key(finding::key_of('t')).0 == (PagerView {
            count: seq![],
            ..(PagerView { message: None, ..p }).enter_toc()
        }),
        p.mode is Normal ==> p.key(plain(KeyCode::Other)) == (
            PagerView { message: None, count: seq![], ..p },
            ActionView::Stay,
        ),
{
}

/// A document that is loaded for a fragment is shown from the heading that it names on.
pub proof fn fragments_are_shown(p: PagerView, doc: DocumentView, fragment: Seq<char>, guess: nat)
    ensures
        ({
            let q = p.show(doc, ThenView::Start(Some(fragment)), guess);
            let hs = doc.headings;
            &&& q.doc == doc && q.search is None && q.images_stale
            &&& (exists|k: int| #[trigger]
                is_named(hs, fragment, k) && finding::stands_at_top(q, hs[k].line as int)) || (q.top
                == 0 && forall|i: int| 0 <= i < hs.len() ==> !names(fragment, #[trigger] hs[i]))
        }),
{
    let fresh = PagerView { doc, top: 0, search: None, images_stale: true, ..p };
    fragments_lead_to_headings(fresh, fragment);
    let q = fresh.jump_fragment(fragment);
    assert(p.show(doc, ThenView::Start(Some(fragment)), guess) == q);
}

/// A document is rendered for the pager it is shown in: with its directory, on its
/// terminal, and with diagrams and links as they are to be there.
pub proof fn renderings_follow_the_pager(p: PagerView)
    ensures
        ({
            let o = p.render_opts();
            &&& o.base == p.base
            &&& o.image_mode == p.image_mode
            &&& o.diagrams == p.diagrams
            &&& o.resolve_links == p.resolve_links
            &&& o.theme == p.theme
            &&& o.width == geometry::wrap_columns(p.cfg.wrap_width, p.cfg.left_margin, p.w)
        }),
{
}

} // verus!
