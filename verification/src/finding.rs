//! What searching finds, and where it goes from what is shown.

use vstd::prelude::*;
use crate::pager_view;
use crate::pager_view::{Key, KeyCode, ModeView, PagerView, SearchView};
use crate::search;
use crate::strings;
use crate::text;
use crate::text::SpanView;

verus! {

/// The furthest line that can stand at the top: the rows below it, all but the one of
/// the status bar and one at least, show the end of the document.
pub open spec fn last_top(p: PagerView) -> int {
    let rows: int = if p.h > 2 {
        p.h - 1
    } else {
        1
    };
    if p.doc.lines.len() > rows {
        p.doc.lines.len() - rows
    } else {
        0
    }
}

/// Whether a line stands at the top, or the end of the document is shown where it is
/// further down than that.
pub open spec fn stands_at_top(p: PagerView, line: int) -> bool {
    p.top == (if line < last_top(p) {
        line
    } else {
        last_top(p)
    })
}

proof fn nearest_is_first_below(matches: Seq<(usize, usize, usize)>, top: nat, from: int)
    requires
        0 <= from <= matches.len(),
        forall|i: int| 0 <= i < from ==> (#[trigger] matches[i]).0 < top,
    ensures
        ({
            let k = search::first_below(matches, top, from);
            &&& from <= k <= matches.len()
            &&& forall|i: int| 0 <= i < k ==> (#[trigger] matches[i]).0 < top
            &&& k < matches.len() ==> matches[k].0 >= top
        }),
    decreases matches.len() - from,
{
    if from < matches.len() && matches[from].0 < top {
        nearest_is_first_below(matches, top, from + 1);
    }
}

proof fn above_is_last_above(matches: Seq<(usize, usize, usize)>, top: nat, n: int)
    requires
        0 <= n <= matches.len(),
        matches.len() > 0,
        forall|i: int| n <= i < matches.len() ==> (#[trigger] matches[i]).0 >= top,
    ensures
        ({
            let k = pager_view::match_above(matches, top, n);
            &&& 0 <= k < matches.len()
            &&& matches[k].0 < top ==> forall|i: int|
                k < i < matches.len() ==> (#[trigger] matches[i]).0 >= top
            &&& matches[k].0 >= top ==> k == matches.len() - 1 && forall|i: int|
                0 <= i < matches.len() ==> (#[trigger] matches[i]).0 >= top
        }),
    decreases n,
{
    if n > 0 && matches[n - 1].0 >= top {
        above_is_last_above(matches, top, n - 1);
    }
}

/// Whether a match is the one that a search forward from a line goes to: the first at
/// or below the line, or the first of all where there is none.
pub open spec fn first_from(matches: Seq<(usize, usize, usize)>, top: nat, cur: int) -> bool {
    &&& 0 <= cur < matches.len()
    &&& (exists|i: int| 0 <= i < matches.len() && (#[trigger] matches[i]).0 >= top)
        ==> matches[cur].0 >= top && forall|i: int|
        0 <= i < cur ==> (#[trigger] matches[i]).0 < top
    &&& (forall|i: int| 0 <= i < matches.len() ==> (#[trigger] matches[i]).0 < top) ==> cur == 0
}

/// Whether a match is the one that a search backward from a line goes to: the last
/// above the line, or the last of all where there is none.
pub open spec fn last_before(matches: Seq<(usize, usize, usize)>, top: nat, cur: int) -> bool {
    &&& 0 <= cur < matches.len()
    &&& (exists|i: int| 0 <= i < matches.len() && (#[trigger] matches[i]).0 < top)
        ==> matches[cur].0 < top && forall|i: int|
        cur < i < matches.len() ==> (#[trigger] matches[i]).0 >= top
    &&& (forall|i: int| 0 <= i < matches.len() ==> (#[trigger] matches[i]).0 >= top) ==> cur
        == matches.len() - 1
}

proof fn nearest_is_first_from(matches: Seq<(usize, usize, usize)>, top: nat)
    requires
        matches.len() > 0,
    ensures
        first_from(matches, top, search::nearest(matches, top)),
{
    nearest_is_first_below(matches, top, 0);
    let k = search::first_below(matches, top, 0);
    if exists|i: int| 0 <= i < matches.len() && (#[trigger] matches[i]).0 >= top {
        let i = choose|i: int| 0 <= i < matches.len() && (#[trigger] matches[i]).0 >= top;
        assert(k < matches.len());
    }
    if forall|i: int| 0 <= i < matches.len() ==> (#[trigger] matches[i]).0 < top {
        if k < matches.len() {
            assert(matches[k].0 < top);
        }
    }
}

/// A search goes on from what is shown: forward, to the first match at or below the
/// top line, and backward, to the last above it; from the other end where there is
/// none. The match is shown at the top, as far as the document scrolls.
pub proof fn searches_go_on_from_here(p: PagerView, query: Seq<char>, backward: bool)
    ensures
        ({
            let q = p.do_search(query, backward);
            let matches = search::all_matches(p.doc.lines, query);
            if matches.len() == 0 {
                q.search is None && q.top == p.top
            } else {
                let cur = q.search->0.cur;
                &&& q.search == Some(SearchView { query, matches, cur })
                &&& !backward ==> first_from(matches, p.top, cur)
                &&& backward ==> last_before(matches, p.top, cur)
                &&& q.doc == p.doc && q.h == p.h
                &&& stands_at_top(q, matches[cur].0 as int)
            }
        }),
{
    let matches = search::all_matches(p.doc.lines, query);
    if matches.len() > 0 {
        nearest_is_first_from(matches, p.top);
        above_is_last_above(matches, p.top, matches.len() as int);
        let k = pager_view::match_above(matches, p.top, matches.len() as int);
        if exists|i: int| 0 <= i < matches.len() && (#[trigger] matches[i]).0 < p.top {
            let i = choose|i: int| 0 <= i < matches.len() && (#[trigger] matches[i]).0 < p.top;
            assert(matches[k].0 < p.top);
        }
        if forall|i: int| 0 <= i < matches.len() ==> (#[trigger] matches[i]).0 >= p.top {
            assert(matches[k].0 >= p.top);
        }
    }
}

/// Going on to another match shows it at the top, as far as the document scrolls: the
/// one behind the current match or the one before it, around the ends.
pub proof fn next_matches_are_shown(p: PagerView, forward: bool)
    requires
        p.search matches Some(s) ==> 0 <= s.cur < s.matches.len(),
    ensures
        ({
            let q = p.next_match(forward);
            match p.search {
                None => q.search is None && q.top == p.top && q.message == Some(
                    "No previous search"@,
                ),
                Some(s) => {
                    let n = s.matches.len() as int;
                    let cur = q.search->0.cur;
                    &&& q.search == Some(SearchView { cur, ..s })
                    &&& forward ==> cur == (if s.cur == n - 1 {
                        0
                    } else {
                        s.cur + 1
                    })
                    &&& !forward ==> cur == (if s.cur == 0 {
                        n - 1
                    } else {
                        s.cur - 1
                    })
                    &&& q.doc == p.doc && q.h == p.h
                    &&& stands_at_top(q, s.matches[cur].0 as int)
                },
            }
        }),
{
}

/// A new rendering is searched for the same text; the match that is then the current
/// one is the first that is shown or below.
pub proof fn searches_outlive_renderings(p: PagerView)
    ensures
        ({
            let q = p.research();
            &&& q == (PagerView { search: q.search, ..p })
            &&& p.search is None ==> q.search is None
            &&& p.search matches Some(s) ==> {
                let matches = search::all_matches(p.doc.lines, s.query);
                if matches.len() == 0 {
                    q.search is None
                } else {
                    q.search is Some && q.search->0.query == s.query && q.search->0.matches
                        == matches && first_from(matches, p.top, q.search->0.cur)
                }
            }
        }),
{
    if let Some(s) = p.search {
        let matches = search::all_matches(p.doc.lines, s.query);
        if matches.len() > 0 {
            nearest_is_first_from(matches, p.top);
        }
    }
}

// What a match is.

/// Whether a character of the document is one of a query: the same, or where the query
/// holds no uppercase character the same but for its case.
pub open spec fn agree(query: Seq<char>, q: char, c: char) -> bool {
    if exists|i: int| 0 <= i < query.len() && search::has_uppercase(#[trigger] query[i]) {
        c == q
    } else {
        search::folded(c) == search::folded(q)
    }
}

/// Whether a query stands in a text, by character.
pub open spec fn found_at(text: Seq<char>, query: Seq<char>, at: int) -> bool {
    &&& 0 <= at <= text.len() - query.len()
    &&& forall|k: int|
        0 <= k < query.len() ==> agree(query, #[trigger] query[k], text[at + k])
}

proof fn hits_are_finds(text: Seq<char>, query: Seq<char>, at: int)
    ensures
        ({
            let case = search::case_counts(query);
            strings::stands_at(
                search::compared(text, case),
                search::compared(query, case),
                at,
            ) <==> found_at(text, query, at)
        }),
{
    let case = search::case_counts(query);
    let t = search::compared(text, case);
    let q = search::compared(query, case);
    if strings::stands_at(t, q, at) {
        assert forall|k: int| 0 <= k < query.len() implies agree(
            query,
            #[trigger] query[k],
            text[at + k],
        ) by {
            assert(t.subrange(at, at + q.len())[k] == t[at + k]);
            assert(q[k] == t[at + k]);
        }
    }
    if found_at(text, query, at) {
        assert(t.subrange(at, at + q.len()) =~= q) by {
            assert forall|k: int| 0 <= k < q.len() implies #[trigger] t.subrange(at, at + q.len())[k]
                == q[k] by {
                assert(agree(query, query[k], text[at + k]));
            }
        }
    }
}

/// Whether a match is the bytes of a place where the query stands in the text of its
/// line.
pub open spec fn is_find(text: Seq<char>, query: Seq<char>, m: (usize, usize, usize)) -> bool {
    exists|at: int|
        #![trigger found_at(text, query, at)]
        found_at(text, query, at) && m.1 == search::byte_len(text.take(at)) && m.2
            == search::byte_len(text.take(at + query.len()))
}

/// Every match is on a line of the document and is the bytes of a place where the
/// query stands in its text.
pub proof fn matches_are_finds(lines: Seq<Seq<SpanView>>, query: Seq<char>, i: int)
    requires
        lines.len() <= usize::MAX,
        search::countable(lines, lines.len()),
        0 <= i < search::all_matches(lines, query).len(),
    ensures
        ({
            let m = search::all_matches(lines, query)[i];
            &&& m.0 < lines.len()
            &&& is_find(text::line_text(lines[m.0 as int]), query, m)
        }),
{
    matches_upto(lines, query, lines.len(), i);
}

proof fn matches_upto(lines: Seq<Seq<SpanView>>, query: Seq<char>, n: nat, i: int)
    requires
        n <= lines.len() <= usize::MAX,
        search::countable(lines, lines.len()),
        0 <= i < search::matches_in(lines, query, n).len(),
    ensures
        ({
            let m = search::matches_in(lines, query, n)[i];
            &&& m.0 < n
            &&& is_find(text::line_text(lines[m.0 as int]), query, m)
        }),
    decreases n,
{
    if n > 0 {
        let before = search::matches_in(lines, query, (n - 1) as nat);
        let t = text::line_text(lines[n - 1]);
        if i < before.len() {
            matches_upto(lines, query, (n - 1) as nat, i);
            assert(search::matches_in(lines, query, n)[i] == before[i]);
        } else {
            let k = i - before.len();
            let here = search::line_matches(n - 1, t, query);
            assert(search::matches_in(lines, query, n)[i] == here[k]);
            let case = search::case_counts(query);
            let shown = search::compared(t, case);
            let needle = search::compared(query, case);
            let places = search::hits(shown, needle, 0);
            assert(needle.len() == query.len());
            if needle.len() == 0 {
                assert(places.len() == 0);
            }
            search::hits_spell_the_needle(shown, needle, 0);
            let at = places[k];
            assert(strings::stands_at(shown, needle, at));
            hits_are_finds(t, query, at);
            assert(here[k] == search::match_at(n - 1, t, query.len(), at));
            search::bytes_grow(t, at, at + query.len());
            assert(search::byte_len(t) <= usize::MAX);
            assert(found_at(t, query, at));
            assert(here[k].0 == n - 1);
            assert(is_find(t, query, here[k]));
        }
    }
}

/// Nothing is missed: wherever a query stands in a line, a match on that line overlaps
/// the place.
pub proof fn finds_are_matched(
    lines: Seq<Seq<SpanView>>,
    query: Seq<char>,
    line: int,
    at: int,
)
    requires
        lines.len() <= usize::MAX,
        search::countable(lines, lines.len()),
        query.len() > 0,
        0 <= line < lines.len(),
        found_at(text::line_text(lines[line]), query, at),
    ensures
        exists|i: int|
            0 <= i < search::all_matches(lines, query).len() && is_over(
                #[trigger] search::all_matches(lines, query)[i],
                line,
                text::line_text(lines[line]),
                at,
            ),
{
    finds_upto(lines, query, lines.len(), line, at);
    let all = search::all_matches(lines, query);
    let t = text::line_text(lines[line]);
    assert(all == search::matches_in(lines, query, lines.len()));
    let i = choose|i: int| 0 <= i < all.len() && is_over(#[trigger] all[i], line, t, at);
    assert(is_over(all[i], line, t, at));
}

/// Whether a match holds the character at a place of a line.
pub open spec fn is_over(m: (usize, usize, usize), line: int, text: Seq<char>, at: int) -> bool {
    m.0 == line && m.1 <= search::byte_len(text.take(at)) < m.2
}

proof fn finds_upto(
    lines: Seq<Seq<SpanView>>,
    query: Seq<char>,
    n: nat,
    line: int,
    at: int,
)
    requires
        n <= lines.len() <= usize::MAX,
        search::countable(lines, lines.len()),
        query.len() > 0,
        0 <= line < n,
        found_at(text::line_text(lines[line]), query, at),
    ensures
        exists|i: int|
            0 <= i < search::matches_in(lines, query, n).len() && is_over(
                #[trigger] search::matches_in(lines, query, n)[i],
                line,
                text::line_text(lines[line]),
                at,
            ),
    decreases n,
{
    let before = search::matches_in(lines, query, (n - 1) as nat);
    let all = search::matches_in(lines, query, n);
    let t = text::line_text(lines[line]);
    if line < n - 1 {
        finds_upto(lines, query, (n - 1) as nat, line, at);
        let i = choose|i: int| 0 <= i < before.len() && is_over(#[trigger] before[i], line, t, at);
        assert(all[i] == before[i]);
    } else {
        let case = search::case_counts(query);
        let shown = search::compared(t, case);
        let needle = search::compared(query, case);
        let places = search::hits(shown, needle, 0);
        hits_are_finds(t, query, at);
        search::hits_miss_nothing(shown, needle, 0, at);
        let k = choose|k: int|
            0 <= k < places.len() && (#[trigger] places[k]) <= at < places[k] + needle.len();
        search::hits_spell_the_needle(shown, needle, 0);
        assert(strings::stands_at(shown, needle, places[k]));
        let here = search::line_matches(n - 1, t, query);
        assert(here[k] == search::match_at(n - 1, t, query.len(), places[k]));
        assert(search::byte_len(t) <= usize::MAX);
        search::bytes_grow(t, places[k], at);
        search::bytes_grow(t, at, places[k] + needle.len());
        assert(all[before.len() + k] == here[k]);
        assert(is_over(all[before.len() + k], line, t, at));
    }
}

// What is typed.

/// The key of a character.
pub open spec fn key_of(c: char) -> Key {
    Key { code: KeyCode::Char(c), ctrl: false }
}

/// The keys of some characters.
pub open spec fn keys_of(s: Seq<char>) -> Seq<Key>
    decreases s.len(),
{
    if s.len() == 0 {
        seq![]
    } else {
        keys_of(s.drop_last()).push(key_of(s.last()))
    }
}

/// The pager after a key.
#[verifier::opaque]
pub open spec fn pressed(p: PagerView, key: Key) -> PagerView {
    p.key(key).0
}

/// The pager after some keys.
pub open spec fn typed(p: PagerView, keys: Seq<Key>) -> PagerView
    decreases keys.len(),
{
    if keys.len() == 0 {
        p
    } else {
        pressed(typed(p, keys.drop_last()), keys.last())
    }
}

/// Keys in two parts.
pub proof fn typed_join(p: PagerView, a: Seq<Key>, b: Seq<Key>)
    ensures
        typed(p, a + b) == typed(typed(p, a), b),
    decreases b.len(),
{
    if b.len() == 0 {
        assert(a + b =~= a);
    } else {
        assert((a + b).drop_last() =~= a + b.drop_last());
        typed_join(p, a, b.drop_last());
    }
}

/// One key.
pub proof fn typed_one(p: PagerView, key: Key)
    ensures
        typed(p, seq![key]) == pressed(p, key),
{
    assert(seq![key].drop_last() =~= Seq::<Key>::empty());
    assert(typed(p, seq![key].drop_last()) == p);
}

proof fn prompt_takes(p: PagerView, backward: bool, buf: Seq<char>, c: char)
    requires
        p.mode == (ModeView::Prompt { backward, buf }),
    ensures
        pressed(p, key_of(c)) == (PagerView {
            mode: ModeView::Prompt { backward, buf: buf.push(c) },
            message: None,
            ..p
        }),
{
    reveal(pressed);
}

proof fn prompts_collect(p: PagerView, backward: bool, buf: Seq<char>, s: Seq<char>)
    requires
        p.mode == (ModeView::Prompt { backward, buf }),
    ensures
        ({
            let q = typed(p, keys_of(s));
            &&& q.mode == (ModeView::Prompt { backward, buf: buf + s })
            &&& q == (PagerView { mode: q.mode, message: q.message, ..p })
        }),
    decreases s.len(),
{
    if s.len() == 0 {
        assert(buf + s =~= buf);
        assert(typed(p, keys_of(s)) == p);
        assert(p =~= PagerView { mode: p.mode, message: p.message, ..p });
    } else {
        let d = s.drop_last();
        prompts_collect(p, backward, buf, d);
        assert(keys_of(s).drop_last() =~= keys_of(d));
        let q = typed(p, keys_of(d));
        prompt_takes(q, backward, buf + d, s.last());
        assert((buf + d).push(s.last()) =~= buf + s);
    }
}

proof fn prompt_opens(p: PagerView, backward: bool)
    requires
        p.mode is Normal,
    ensures
        ({
            let open = Key {
                code: KeyCode::Char(
                    if backward {
                        '?'
                    } else {
                        '/'
                    },
                ),
                ctrl: false,
            };
            pressed(p, open) == (PagerView {
                mode: ModeView::Prompt { backward, buf: seq![] },
                message: None,
                count: seq![],
                ..p
            })
        }),
{
    reveal(pressed);
}

proof fn prompt_searches(p: PagerView, backward: bool, buf: Seq<char>)
    requires
        p.mode == (ModeView::Prompt { backward, buf }),
        buf.len() > 0,
    ensures
        pressed(p, Key { code: KeyCode::Enter, ctrl: false }) == (PagerView {
            message: None,
            mode: ModeView::Normal,
            ..p
        }).do_search(buf, backward),
{
    reveal(pressed);
}

/// What is typed between the key that opens the prompt and Enter is what is searched
/// for: forward after a slash, backward after a question mark.
pub proof fn typed_queries_are_searched(p: PagerView, query: Seq<char>, backward: bool)
    requires
        p.mode is Normal,
        query.len() > 0,
    ensures
        ({
            let open = Key {
                code: KeyCode::Char(
                    if backward {
                        '?'
                    } else {
                        '/'
                    },
                ),
                ctrl: false,
            };
            let keys = seq![open] + keys_of(query) + seq![
                Key { code: KeyCode::Enter, ctrl: false },
            ];
            let q = typed(p, keys);
            let r = p.do_search(query, backward);
            q.mode is Normal && q.search == r.search && q.top == r.top && q.doc == p.doc
        }),
{
    let open = Key {
        code: KeyCode::Char(
            if backward {
                '?'
            } else {
                '/'
            },
        ),
        ctrl: false,
    };
    let enter = Key { code: KeyCode::Enter, ctrl: false };
    let none = Seq::<char>::empty();
    typed_join(p, seq![open] + keys_of(query), seq![enter]);
    typed_join(p, seq![open], keys_of(query));
    typed_one(p, open);
    prompt_opens(p, backward);
    let p1 = pressed(p, open);
    prompts_collect(p1, backward, none, query);
    assert(none + query =~= query);
    let p2 = typed(p1, keys_of(query));
    typed_one(p2, enter);
    prompt_searches(p2, backward, query);
}

/// A character typed at the prompt and a backspace leave the prompt as it was. Escape and
/// Ctrl-C leave it without a search, and so do Enter and a backspace where it is empty.
pub proof fn backspace_takes_back(p: PagerView, backward: bool, buf: Seq<char>, c: char)
    requires
        p.mode == (ModeView::Prompt { backward, buf }),
    ensures
        ({
            let q = p.key(Key { code: KeyCode::Char(c), ctrl: false }).0;
            q.key(Key { code: KeyCode::Backspace, ctrl: false }).0.mode == p.mode
        }),
        p.key(Key { code: KeyCode::Esc, ctrl: false }).0.mode is Normal,
        p.key(Key { code: KeyCode::Esc, ctrl: false }).0.search == p.search,
        p.key(Key { code: KeyCode::Esc, ctrl: false }).0.top == p.top,
        p.key(Key { code: KeyCode::Char('c'), ctrl: true }).0.mode is Normal,
        p.key(Key { code: KeyCode::Char('c'), ctrl: true }).0.search == p.search,
        buf.len() == 0 ==> p.key(Key { code: KeyCode::Backspace, ctrl: false }).0.mode is Normal,
        buf.len() == 0 ==> p.key(Key { code: KeyCode::Enter, ctrl: false }).0 == p.key(
            Key { code: KeyCode::Esc, ctrl: false },
        ).0,
{
    assert(buf.push(c).drop_last() =~= buf);
}

} // verus!
