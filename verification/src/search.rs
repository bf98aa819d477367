//! Search over rendered lines, and the highlighting of what it finds.

use vstd::prelude::*;
use vstd::utf8;
use crate::strings;
use crate::strings::to_chars;
use crate::text;
use crate::text::{Line, SpanView};

verus! {

broadcast use strings::group_views;

/// The bytes that a character takes in UTF-8.
pub open spec fn char_bytes(c: char) -> nat {
    let v = c as u32;
    if v < 0x80 {
        1
    } else if v < 0x800 {
        2
    } else if v < 0x10000 {
        3
    } else {
        4
    }
}

/// The bytes that text takes in UTF-8.
pub open spec fn byte_len(s: Seq<char>) -> nat
    decreases s.len(),
{
    if s.len() == 0 {
        0
    } else {
        byte_len(s.drop_last()) + char_bytes(s.last())
    }
}

/// Counted by character, the bytes of two texts add up.
pub proof fn byte_len_add(a: Seq<char>, b: Seq<char>)
    ensures
        byte_len(a + b) == byte_len(a) + byte_len(b),
    decreases b.len(),
{
    if b.len() == 0 {
        assert(a + b =~= a);
    } else {
        assert((a + b).drop_last() =~= a + b.drop_last());
        byte_len_add(a, b.drop_last());
    }
}

/// Counted by character, the bytes are those of the text's encoding.
pub proof fn byte_len_is_encoded_len(s: Seq<char>)
    ensures
        byte_len(s) == utf8::encode_utf8(s).len(),
    decreases s.len(),
{
    if s.len() > 0 {
        let rest = s.drop_first();
        byte_len_is_encoded_len(rest);
        assert(s =~= seq![s[0]] + rest);
        byte_len_add(seq![s[0]], rest);
        assert(seq![s[0]].drop_last() =~= seq![]);
        assert(byte_len(seq![s[0]]) == char_bytes(s[0])) by {
            assert(byte_len(seq![s[0]].drop_last()) == 0);
        }
        utf8::char_is_scalar(s[0]);
    }
}

/// The bytes that a character takes in UTF-8.
pub fn len_utf8(c: char) -> (r: usize)
    ensures
        r == char_bytes(c),
{
    let v: u32 = c as u32;
    if v < 0x80 {
        1
    } else if v < 0x800 {
        2
    } else if v < 0x10000 {
        3
    } else {
        4
    }
}

/// Whether `char::is_uppercase` holds of a character.
pub uninterp spec fn has_uppercase(c: char) -> bool;

/// `char::is_uppercase` depends on the character alone; of ASCII, it holds of
/// the letters `A` to `Z`.
pub assume_specification[ char::is_uppercase ](c: char) -> (r: bool)
    ensures
        r == has_uppercase(c),
        (c as u32) < 0x80 ==> r == strings::is_upper(c),
;

/// What `char::to_lowercase` makes of a character.
pub uninterp spec fn lowercase(c: char) -> Seq<char>;

/// Calls `char::to_lowercase`. The result depends on the character alone; ASCII
/// letters become `a` to `z`, and other ASCII characters stay.
#[verifier::external_body]
pub(crate) fn lowercase_of(c: char) -> (r: Vec<char>)
    ensures
        r@ == lowercase(c),
        (c as u32) < 0x80 ==> r@ == seq![strings::lower(c)],
{
    c.to_lowercase().collect()
}

/// A character as it is compared when case does not count.
pub open spec fn folded(c: char) -> char {
    if lowercase(c).len() > 0 {
        lowercase(c)[0]
    } else {
        c
    }
}

/// A character as it is compared when case does not count.
pub fn fold(ch: char) -> (r: char)
    ensures
        r == folded(ch),
        (ch as u32) < 0x80 ==> r == strings::lower(ch),
{
    let lower = lowercase_of(ch);
    if lower.len() > 0 {
        lower[0]
    } else {
        ch
    }
}

/// Whether case counts in a search: where the query holds an uppercase
/// character.
pub open spec fn case_counts(query: Seq<char>) -> bool {
    exists|i: int| 0 <= i < query.len() && has_uppercase(#[trigger] query[i])
}

/// Text as it is compared in a search.
pub open spec fn compared(s: Seq<char>, case: bool) -> Seq<char> {
    if case {
        s
    } else {
        s.map_values(|c: char| folded(c))
    }
}

/// Where `needle` stands in `hay` from `from` on, leftmost first and without
/// overlaps, by character.
pub open spec fn hits(hay: Seq<char>, needle: Seq<char>, from: int) -> Seq<int>
    decreases hay.len() - from,
{
    if needle.len() == 0 || from + needle.len() > hay.len() {
        seq![]
    } else if hay.subrange(from, from + needle.len()) == needle {
        seq![from] + hits(hay, needle, from + needle.len())
    } else {
        hits(hay, needle, from + 1)
    }
}

/// A match: a line, and the byte range in its plain text.
pub open spec fn match_at(line: int, text: Seq<char>, len: nat, at: int) -> (usize, usize, usize) {
    (line as usize, byte_len(text.take(at)) as usize, byte_len(text.take(at + len)) as usize)
}

/// The matches of a query in one line.
pub open spec fn line_matches(line: int, text: Seq<char>, query: Seq<char>) -> Seq<
    (usize, usize, usize),
> {
    let case = case_counts(query);
    hits(compared(text, case), compared(query, case), 0).map_values(
        |at: int| match_at(line, text, query.len(), at),
    )
}

/// The matches of a query in the first `n` lines.
pub open spec fn matches_in(lines: Seq<Seq<SpanView>>, query: Seq<char>, n: nat) -> Seq<
    (usize, usize, usize),
>
    decreases n,
{
    if n == 0 {
        seq![]
    } else {
        matches_in(lines, query, (n - 1) as nat) + line_matches(
            n - 1,
            text::line_text(lines[n - 1]),
            query,
        )
    }
}

/// All matches of a query.
pub open spec fn all_matches(lines: Seq<Seq<SpanView>>, query: Seq<char>) -> Seq<
    (usize, usize, usize),
> {
    matches_in(lines, query, lines.len())
}

fn any_uppercase(chars: &Vec<char>) -> (r: bool)
    ensures
        r == case_counts(chars@),
{
    let mut i: usize = 0;
    while i < chars.len()
        invariant
            i <= chars@.len(),
            forall|j: int| 0 <= j < i ==> !has_uppercase(#[trigger] chars@[j]),
        decreases chars@.len() - i,
    {
        if chars[i].is_uppercase() {
            assert(has_uppercase(chars@[i as int]));
            return true;
        }
        i = i + 1;
    }
    false
}

fn compare_chars(chars: &Vec<char>, case: bool) -> (r: Vec<char>)
    ensures
        r@ == compared(chars@, case),
{
    let mut out: Vec<char> = Vec::new();
    let mut i: usize = 0;
    let ghost want = compared(chars@, case);
    while i < chars.len()
        invariant
            i <= chars@.len(),
            want == compared(chars@, case),
            out@ =~= want.take(i as int),
        decreases chars@.len() - i,
    {
        out.push(
            if case {
                chars[i]
            } else {
                fold(chars[i])
            },
        );
        i = i + 1;
    }
    assert(want.take(i as int) =~= want);
    out
}

/// The byte offsets of the characters of a text, and of its end.
fn byte_offsets(s: &str, chars: &Vec<char>) -> (r: Vec<usize>)
    requires
        chars@ == s@,
    ensures
        r@.len() == chars@.len() + 1,
        forall|k: int| 0 <= k <= chars@.len() ==> #[trigger] r@[k] == byte_len(chars@.take(k)),
{
    let total: usize = s.as_bytes().len();
    proof {
        byte_len_is_encoded_len(s@);
    }
    let mut out: Vec<usize> = Vec::new();
    out.push(0);
    let mut at: usize = 0;
    let mut i: usize = 0;
    assert(chars@.take(0) =~= seq![]);
    while i < chars.len()
        invariant
            i <= chars@.len(),
            chars@ == s@,
            total == byte_len(s@),
            at == byte_len(chars@.take(i as int)),
            out@.len() == i + 1,
            forall|k: int| 0 <= k <= i ==> #[trigger] out@[k] == byte_len(chars@.take(k)),
        decreases chars@.len() - i,
    {
        proof {
            assert(chars@.take(i + 1).drop_last() =~= chars@.take(i as int));
            byte_len_add(chars@.take(i + 1), chars@.skip(i + 1));
            assert(chars@.take(i + 1) + chars@.skip(i + 1) =~= chars@);
        }
        at = at + len_utf8(chars[i]);
        out.push(at);
        i = i + 1;
    }
    out
}

fn window_is(hay: &Vec<char>, needle: &Vec<char>, at: usize) -> (r: bool)
    requires
        at + needle@.len() <= hay@.len(),
    ensures
        r == (hay@.subrange(at as int, at + needle@.len()) == needle@),
{
    let n: usize = hay.len();
    let mut j: usize = 0;
    while j < needle.len()
        invariant
            j <= needle@.len(),
            n == hay@.len(),
            at + needle@.len() <= n,
            forall|k: int| 0 <= k < j ==> hay@[at + k] == #[trigger] needle@[k],
        decreases needle@.len() - j,
    {
        if hay[at + j] != needle[j] {
            assert(hay@.subrange(at as int, at + needle@.len())[j as int] == hay@[at + j]);
            return false;
        }
        j = j + 1;
    }
    assert(hay@.subrange(at as int, at + needle@.len()) =~= needle@);
    true
}

/// Adds the matches of one line, given its text and the characters that stand
/// for it and for the query when they are compared.
pub fn search_line(
    out: &mut Vec<(usize, usize, usize)>,
    line: usize,
    hay: &str,
    shown: &Vec<char>,
    needle: &Vec<char>,
)
    requires
        needle@.len() > 0,
        shown@.len() == hay@.len(),
    ensures
        final(out)@ == old(out)@ + hits(shown@, needle@, 0).map_values(
            |at: int| match_at(line as int, hay@, needle@.len(), at),
        ),
        byte_len(hay@) <= usize::MAX,
{
    let chars = to_chars(hay);
    let offsets = byte_offsets(hay, &chars);
    let ghost f = |at: int| match_at(line as int, hay@, needle@.len(), at);
    let ghost start = out@;
    let ghost all = hits(shown@, needle@, 0);
    assert(offsets@[hay@.len() as int] == byte_len(hay@)) by {
        assert(chars@.take(hay@.len() as int) =~= hay@);
    }
    let n: usize = shown.len();
    let m: usize = needle.len();
    let mut at: usize = 0;
    assert(start + all.map_values(f) =~= out@ + all.map_values(f));
    while m <= n && at <= n - m
        invariant
            n == shown@.len(),
            m == needle@.len(),
            m > 0,
            at <= n,
            n == hay@.len(),
            chars@ == hay@,
            offsets@.len() == n + 1,
            forall|k: int| 0 <= k <= n ==> #[trigger] offsets@[k] == byte_len(chars@.take(k)),
            f == (|at: int| match_at(line as int, hay@, needle@.len(), at)),
            out@ + hits(shown@, needle@, at as int).map_values(f) == start + all.map_values(f),
        decreases n - at,
    {
        let ghost before = out@;
        if window_is(shown, needle, at) {
            let ghost rest = hits(shown@, needle@, at + m);
            out.push((line, offsets[at], offsets[at + m]));
            assert((seq![at as int] + rest).map_values(f) =~= seq![f(at as int)]
                + rest.map_values(f));
            assert(before + (seq![f(at as int)] + rest.map_values(f)) =~= before.push(
                f(at as int),
            ) + rest.map_values(f));
            at = at + m;
        } else {
            at = at + 1;
        }
    }
    assert(out@ + Seq::<int>::empty().map_values(f) =~= out@);
}

/// Substring search over the rendered lines. Case-insensitive unless the query
/// contains an uppercase character (smartcase). Returns byte ranges.
pub fn find_matches(lines: &[Line], query: &str) -> (r: Vec<(usize, usize, usize)>)
    ensures
        r@ == all_matches(strings::views(lines@), query@),
        apart(r@),
{
    let chars = to_chars(query);
    let case = any_uppercase(&chars);
    let needle = compare_chars(&chars, case);
    let ghost ls = strings::views(lines@);
    let mut out: Vec<(usize, usize, usize)> = Vec::new();
    if needle.len() == 0 {
        proof {
            nothing_for_nothing(ls, query@, ls.len());
        }
        return out;
    }
    let mut i: usize = 0;
    while i < lines.len()
        invariant
            i <= lines@.len(),
            ls == strings::views(lines@),
            case == case_counts(query@),
            needle@ == compared(query@, case),
            needle@.len() > 0,
            out@ == matches_in(ls, query@, i as nat),
            countable(ls, i as nat),
        decreases lines@.len() - i,
    {
        let hay = lines[i].plain();
        let hay_chars = to_chars(hay.as_str());
        let shown = compare_chars(&hay_chars, case);
        search_line(&mut out, i, hay.as_str(), &shown, &needle);
        assert(needle@.len() == query@.len());
        assert(hits(compared(hay@, case), needle@, 0).map_values(
            |at: int| match_at(i as int, hay@, needle@.len(), at),
        ) =~= line_matches(i as int, hay@, query@));
        i = i + 1;
    }
    proof {
        assert(lines.len() <= usize::MAX);
        matches_apart_upto(ls, query@, ls.len());
    }
    out
}

proof fn nothing_for_nothing(lines: Seq<Seq<SpanView>>, query: Seq<char>, n: nat)
    requires
        query.len() == 0,
    ensures
        matches_in(lines, query, n) == Seq::<(usize, usize, usize)>::empty(),
    decreases n,
{
    if n > 0 {
        nothing_for_nothing(lines, query, (n - 1) as nat);
        assert(line_matches(n - 1, text::line_text(lines[n - 1]), query) =~= seq![]);
    }
}

/// An empty query finds nothing.
pub proof fn empty_query_finds_nothing(lines: Seq<Seq<SpanView>>)
    ensures
        all_matches(lines, seq![]) == Seq::<(usize, usize, usize)>::empty(),
{
    nothing_for_nothing(lines, seq![], lines.len());
}

/// Whether places in `hay`, at or after `from`, all spell `needle`, and do so
/// without overlaps.
pub open spec fn spell(hay: Seq<char>, needle: Seq<char>, from: int, places: Seq<int>) -> bool {
    &&& forall|k: int|
        0 <= k < places.len() ==> from <= #[trigger] places[k] && strings::stands_at(
            hay,
            needle,
            places[k],
        )
    &&& forall|j: int, k: int|
        0 <= j < k < places.len() ==> (#[trigger] places[j]) + needle.len() <= #[trigger] places[k]
}

/// What a search finds spells the query, and finds do not overlap.
pub proof fn hits_spell_the_needle(hay: Seq<char>, needle: Seq<char>, from: int)
    requires
        0 <= from,
        needle.len() > 0,
    ensures
        spell(hay, needle, from, hits(hay, needle, from)),
    decreases hay.len() - from,
{
    let all = hits(hay, needle, from);
    if from + needle.len() > hay.len() {
    } else if hay.subrange(from, from + needle.len()) == needle {
        let rest = hits(hay, needle, from + needle.len());
        hits_spell_the_needle(hay, needle, from + needle.len());
        assert(all =~= seq![from] + rest);
        assert forall|k: int| 0 <= k < all.len() implies from <= #[trigger] all[k]
            && strings::stands_at(hay, needle, all[k]) by {
            if k > 0 {
                assert(all[k] == rest[k - 1]);
            }
        }
        assert forall|j: int, k: int| 0 <= j < k < all.len() implies (#[trigger] all[j])
            + needle.len() <= #[trigger] all[k] by {
            assert(all[k] == rest[k - 1]);
            if j > 0 {
                assert(all[j] == rest[j - 1]);
            }
        }
    } else {
        hits_spell_the_needle(hay, needle, from + 1);
    }
}

/// Nothing is missed: wherever the needle stands, a find overlaps it.
pub proof fn hits_miss_nothing(hay: Seq<char>, needle: Seq<char>, from: int, at: int)
    requires
        0 <= from <= at,
        needle.len() > 0,
        strings::stands_at(hay, needle, at),
    ensures
        exists|k: int|
            0 <= k < hits(hay, needle, from).len() && (#[trigger] hits(hay, needle, from)[k]) <= at
                < hits(hay, needle, from)[k] + needle.len(),
    decreases hay.len() - from,
{
    let all = hits(hay, needle, from);
    if hay.subrange(from, from + needle.len()) == needle {
        if at < from + needle.len() {
            assert(all[0] == from);
        } else {
            let next = from + needle.len();
            hits_miss_nothing(hay, needle, next, at);
            let k = choose|k: int|
                0 <= k < hits(hay, needle, next).len() && (#[trigger] hits(hay, needle, next)[k])
                    <= at < hits(hay, needle, next)[k] + needle.len();
            assert(all[k + 1] == hits(hay, needle, next)[k]);
        }
    } else {
        hits_miss_nothing(hay, needle, from + 1, at);
        let k = choose|k: int|
            0 <= k < hits(hay, needle, from + 1).len() && (#[trigger] hits(hay, needle, from + 1)[k])
                <= at < hits(hay, needle, from + 1)[k] + needle.len();
        assert(all[k] == hits(hay, needle, from + 1)[k]);
    }
}

/// Whether matches come in the order of their lines.
pub open spec fn sorted(matches: Seq<(usize, usize, usize)>) -> bool {
    forall|i: int, j: int|
        0 <= i < j < matches.len() ==> (#[trigger] matches[i]).0 <= (#[trigger] matches[j]).0
}

proof fn matches_in_order(lines: Seq<Seq<SpanView>>, query: Seq<char>, n: nat)
    requires
        n <= lines.len() <= usize::MAX,
    ensures
        sorted(matches_in(lines, query, n)),
        forall|i: int|
            0 <= i < matches_in(lines, query, n).len() ==> (#[trigger] matches_in(
                lines,
                query,
                n,
            )[i]).0 < n,
    decreases n,
{
    if n > 0 {
        matches_in_order(lines, query, (n - 1) as nat);
        let a = matches_in(lines, query, (n - 1) as nat);
        let b = line_matches(n - 1, text::line_text(lines[n - 1]), query);
        assert forall|i: int| 0 <= i < (a + b).len() implies (#[trigger] (a + b)[i]).0 < n by {
            if i >= a.len() {
                assert((a + b)[i] == b[i - a.len()]);
            }
        }
        assert forall|i: int, j: int| 0 <= i < j < (a + b).len() implies (#[trigger] (a + b)[i]).0
            <= (#[trigger] (a + b)[j]).0 by {
            if i < a.len() {
                assert((a + b)[i] == a[i]);
            } else {
                assert((a + b)[i] == b[i - a.len()]);
            }
            if j < a.len() {
                assert((a + b)[j] == a[j]);
            } else {
                assert((a + b)[j] == b[j - a.len()]);
            }
        }
    }
}

/// Matches come in the order of their lines, and each is on a line.
pub proof fn matches_are_sorted(lines: Seq<Seq<SpanView>>, query: Seq<char>)
    requires
        lines.len() <= usize::MAX,
    ensures
        sorted(all_matches(lines, query)),
        forall|i: int|
            0 <= i < all_matches(lines, query).len() ==> (#[trigger] all_matches(
                lines,
                query,
            )[i]).0 < lines.len(),
{
    matches_in_order(lines, query, lines.len());
}

/// Whether the bytes of each of the first `n` lines can be counted.
pub open spec fn countable(lines: Seq<Seq<SpanView>>, n: nat) -> bool {
    forall|i: int|
        0 <= i < n && i < lines.len() ==> byte_len(text::line_text(#[trigger] lines[i]))
            <= usize::MAX
}

/// Whether each match holds something and ends before the next starts: on an
/// earlier line, or on the same.
pub open spec fn apart(matches: Seq<(usize, usize, usize)>) -> bool {
    &&& forall|i: int| 0 <= i < matches.len() ==> (#[trigger] matches[i]).1 < matches[i].2
    &&& forall|i: int, j: int|
        0 <= i < j < matches.len() ==> (#[trigger] matches[i]).0 < (#[trigger] matches[j]).0 || (
        matches[i].0 == matches[j].0 && matches[i].2 <= matches[j].1)
}

/// The bytes of a text grow with every character.
pub proof fn bytes_grow(s: Seq<char>, a: int, b: int)
    requires
        0 <= a <= b <= s.len(),
    ensures
        byte_len(s.take(a)) <= byte_len(s.take(b)) <= byte_len(s),
        a < b ==> byte_len(s.take(a)) < byte_len(s.take(b)),
{
    byte_len_add(s.take(a), s.subrange(a, b));
    assert(s.take(a) + s.subrange(a, b) =~= s.take(b));
    byte_len_add(s.take(b), s.skip(b));
    assert(s.take(b) + s.skip(b) =~= s);
    if a < b {
        assert(byte_len(s.subrange(a, b)) >= char_bytes(s.subrange(a, b).last()));
    }
}

proof fn line_matches_apart(line: int, hay: Seq<char>, query: Seq<char>)
    requires
        0 <= line <= usize::MAX,
        byte_len(hay) <= usize::MAX,
    ensures
        apart(line_matches(line, hay, query)),
{
    let ms = line_matches(line, hay, query);
    if query.len() > 0 {
        let case = case_counts(query);
        let shown = compared(hay, case);
        let needle = compared(query, case);
        let n = needle.len() as int;
        let at = hits(shown, needle, 0);
        hits_spell_the_needle(shown, needle, 0);
        assert forall|i: int| 0 <= i < ms.len() implies (#[trigger] ms[i]).1 < ms[i].2 by {
            assert(strings::stands_at(shown, needle, at[i]));
            bytes_grow(hay, at[i], at[i] + n);
        }
        assert forall|i: int, j: int| 0 <= i < j < ms.len() implies (#[trigger] ms[i]).0
            == (#[trigger] ms[j]).0 && ms[i].2 <= ms[j].1 by {
            assert(strings::stands_at(shown, needle, at[i]));
            assert(strings::stands_at(shown, needle, at[j]));
            bytes_grow(hay, at[i] + n, at[j]);
            bytes_grow(hay, at[j], at[j] + n);
        }
    }
}

proof fn matches_apart_upto(lines: Seq<Seq<SpanView>>, query: Seq<char>, n: nat)
    requires
        n <= lines.len() <= usize::MAX,
        countable(lines, n),
    ensures
        apart(matches_in(lines, query, n)),
    decreases n,
{
    if n > 0 {
        let a = matches_in(lines, query, (n - 1) as nat);
        let b = line_matches(n - 1, text::line_text(lines[n - 1]), query);
        matches_apart_upto(lines, query, (n - 1) as nat);
        matches_in_order(lines, query, (n - 1) as nat);
        line_matches_apart(n - 1, text::line_text(lines[n - 1]), query);
        let r = a + b;
        assert forall|i: int| 0 <= i < r.len() implies (#[trigger] r[i]).1 < r[i].2 by {
            if i < a.len() {
                assert(r[i] == a[i]);
            } else {
                assert(r[i] == b[i - a.len()]);
            }
        }
        assert forall|i: int, j: int| 0 <= i < j < r.len() implies (#[trigger] r[i]).0
            < (#[trigger] r[j]).0 || (r[i].0 == r[j].0 && r[i].2 <= r[j].1) by {
            if j < a.len() {
                assert(r[i] == a[i] && r[j] == a[j]);
            } else if i < a.len() {
                assert(r[i] == a[i] && r[j] == b[j - a.len()]);
            } else {
                assert(r[i] == b[i - a.len()] && r[j] == b[j - a.len()]);
            }
        }
    }
}

/// Matches come in order and do not overlap: each ends before the next starts, on
/// an earlier line or on the same.
pub proof fn matches_are_apart(lines: Seq<Seq<SpanView>>, query: Seq<char>)
    requires
        lines.len() <= usize::MAX,
        countable(lines, lines.len()),
    ensures
        apart(all_matches(lines, query)),
{
    matches_apart_upto(lines, query, lines.len());
}

/// Where the first match at or below a line stands among matches, from `from`
/// on; their number where there is none.
pub open spec fn first_below(matches: Seq<(usize, usize, usize)>, top: nat, from: int) -> int
    decreases matches.len() - from,
{
    if from >= matches.len() || matches[from].0 >= top {
        from
    } else {
        first_below(matches, top, from + 1)
    }
}

/// The match that a search starts at from a line: the first at or below it, or
/// else the first of all.
pub open spec fn nearest(matches: Seq<(usize, usize, usize)>, top: nat) -> int {
    let i = first_below(matches, top, 0);
    if i < matches.len() {
        i
    } else {
        0
    }
}

/// The first match at or below a line, or else the first of all.
pub fn nearest_match(matches: &[(usize, usize, usize)], top: usize) -> (r: usize)
    ensures
        r == nearest(matches@, top as nat),
        matches@.len() > 0 ==> r < matches@.len(),
{
    let mut i: usize = 0;
    while i < matches.len() && matches[i].0 < top
        invariant
            i <= matches@.len(),
            first_below(matches@, top as nat, 0) == first_below(matches@, top as nat, i as int),
        decreases matches@.len() - i,
    {
        i = i + 1;
    }
    if i < matches.len() {
        i
    } else {
        0
    }
}

/// Whether a byte of the line is in one of some ranges.
pub open spec fn lit(ranges: Seq<(usize, usize)>, at: int) -> bool {
    exists|i: int| 0 <= i < ranges.len() && (#[trigger] ranges[i]).0 <= at < ranges[i].1
}

/// Whether one of some ranges starts or ends at a byte of the line.
pub open spec fn cut_at(ranges: Seq<(usize, usize)>, at: int) -> bool {
    exists|i: int|
        0 <= i < ranges.len() && ((#[trigger] ranges[i]).0 == at || ranges[i].1 == at)
}

/// The first `n` characters of `text`, which starts `offset` bytes into a line,
/// in segments that start where ranges start or end, each with whether it is
/// inside one.
pub open spec fn segments_upto(
    text: Seq<char>,
    offset: int,
    ranges: Seq<(usize, usize)>,
    n: nat,
) -> Seq<(Seq<char>, bool)>
    decreases n,
{
    if n == 0 {
        seq![]
    } else {
        let before = segments_upto(text, offset, ranges, (n - 1) as nat);
        let c = text[n - 1];
        let at = offset + byte_len(text.take(n - 1));
        if n == 1 || cut_at(ranges, at) {
            before.push((seq![c], lit(ranges, at)))
        } else {
            before.drop_last().push((before.last().0.push(c), before.last().1))
        }
    }
}

/// The segments of `text`, which starts `offset` bytes into a line.
pub open spec fn segments(text: Seq<char>, offset: int, ranges: Seq<(usize, usize)>) -> Seq<
    (Seq<char>, bool),
> {
    if ranges.len() == 0 {
        seq![(text, false)]
    } else {
        segments_upto(text, offset, ranges, text.len())
    }
}

/// The text and mark of each segment.
pub open spec fn segment_views(segs: Seq<(String, bool)>) -> Seq<(Seq<char>, bool)> {
    segs.map_values(|s: (String, bool)| (s.0@, s.1))
}

fn is_lit(ranges: &[(usize, usize)], at: u128) -> (r: bool)
    ensures
        r == lit(ranges@, at as int),
{
    let mut i: usize = 0;
    while i < ranges.len()
        invariant
            i <= ranges@.len(),
            forall|j: int| 0 <= j < i ==> !((#[trigger] ranges@[j]).0 <= at < ranges@[j].1),
        decreases ranges@.len() - i,
    {
        if ranges[i].0 as u128 <= at && at < ranges[i].1 as u128 {
            assert(ranges@[i as int].0 <= at < ranges@[i as int].1);
            return true;
        }
        i = i + 1;
    }
    false
}

fn is_cut(ranges: &[(usize, usize)], at: u128) -> (r: bool)
    ensures
        r == cut_at(ranges@, at as int),
{
    let mut i: usize = 0;
    while i < ranges.len()
        invariant
            i <= ranges@.len(),
            forall|j: int| 0 <= j < i ==> !((#[trigger] ranges@[j]).0 == at || ranges@[j].1 == at),
        decreases ranges@.len() - i,
    {
        if ranges[i].0 as u128 == at || ranges[i].1 as u128 == at {
            assert(ranges@[i as int].0 == at || ranges@[i as int].1 == at);
            return true;
        }
        i = i + 1;
    }
    false
}

/// Splits `text` (starting at `offset` bytes into the line) into segments that
/// are inside/outside the highlight ranges.
pub fn segment(text: &str, offset: usize, ranges: &[(usize, usize)]) -> (r: Vec<(String, bool)>)
    ensures
        segment_views(r@) == segments(text@, offset as int, ranges@),
{
    segment_far(text, offset as u128, ranges)
}

/// Splits `text`, which may start further into its line than memory reaches.
pub(crate) fn segment_far(text: &str, offset: u128, ranges: &[(usize, usize)]) -> (r: Vec<
    (String, bool),
>)
    requires
        offset + usize::MAX <= u128::MAX,
    ensures
        segment_views(r@) == segments(text@, offset as int, ranges@),
{
    let mut out: Vec<(String, bool)> = Vec::new();
    if ranges.len() == 0 {
        out.push((text.to_owned(), false));
        assert(segment_views(out@) =~= seq![(text@, false)]);
        return out;
    }
    let chars = to_chars(text);
    let offsets = byte_offsets(text, &chars);
    let mut i: usize = 0;
    assert(segment_views(out@) =~= seq![]);
    while i < chars.len()
        invariant
            i <= chars@.len(),
            chars@ == text@,
            offset + usize::MAX <= u128::MAX,
            offsets@.len() == chars@.len() + 1,
            forall|k: int|
                0 <= k <= chars@.len() ==> #[trigger] offsets@[k] == byte_len(chars@.take(k)),
            segment_views(out@) == segments_upto(text@, offset as int, ranges@, i as nat),
            i > 0 ==> out@.len() > 0,
        decreases chars@.len() - i,
    {
        proof {
            byte_len_add(text@.take(i as int), text@.skip(i as int));
            assert(text@.take(i as int) + text@.skip(i as int) =~= text@);
        }
        let at: u128 = offset + offsets[i] as u128;
        let c = chars[i];
        let ghost before = out@;
        if i == 0 || is_cut(ranges, at) {
            let mut s = String::new();
            s.push(c);
            assert(s@ =~= seq![c]);
            let mark = is_lit(ranges, at);
            out.push((s, mark));
            assert(segment_views(out@) =~= segment_views(before).push((seq![c], mark)));
        } else {
            let (mut s, mark) = out.pop().unwrap();
            s.push(c);
            out.push((s, mark));
            assert(segment_views(out@) =~= segment_views(before).drop_last().push((s@, mark)));
        }
        i = i + 1;
    }
    out
}

/// The texts of segments, joined.
pub open spec fn joined(segs: Seq<(Seq<char>, bool)>) -> Seq<char>
    decreases segs.len(),
{
    if segs.len() == 0 {
        seq![]
    } else {
        joined(segs.drop_last()) + segs.last().0
    }
}

proof fn segments_upto_join(text: Seq<char>, offset: int, ranges: Seq<(usize, usize)>, n: nat)
    requires
        n <= text.len(),
    ensures
        joined(segments_upto(text, offset, ranges, n)) == text.take(n as int),
        n > 0 ==> segments_upto(text, offset, ranges, n).len() > 0,
    decreases n,
{
    let segs = segments_upto(text, offset, ranges, n);
    if n == 0 {
        assert(text.take(0) =~= seq![]);
    } else {
        segments_upto_join(text, offset, ranges, (n - 1) as nat);
        let before = segments_upto(text, offset, ranges, (n - 1) as nat);
        let at = offset + byte_len(text.take(n - 1));
        let c = text[n - 1];
        if n == 1 || cut_at(ranges, at) {
            assert(segs.drop_last() =~= before);
        } else {
            assert(segs.drop_last() =~= before.drop_last());
            assert(joined(before.drop_last()) + before.last().0.push(c) =~= (joined(
                before.drop_last(),
            ) + before.last().0).push(c));
        }
        assert(joined(segs) =~= text.take(n as int));
    }
}

/// The segments of a text, joined, are the text.
pub proof fn segments_join(text: Seq<char>, offset: int, ranges: Seq<(usize, usize)>)
    ensures
        joined(segments(text, offset, ranges)) == text,
{
    if ranges.len() == 0 {
        let segs = segments(text, offset, ranges);
        assert(segs.drop_last() =~= seq![]);
        assert(joined(segs.drop_last()) =~= seq![]);
        assert(joined(segs) =~= text);
    } else {
        segments_upto_join(text, offset, ranges, text.len());
        assert(text.take(text.len() as int) =~= text);
    }
}

/// Whether ranges start and end between the characters of `text`, which starts
/// `offset` bytes into a line, where they do so within it.
pub open spec fn on_chars(text: Seq<char>, offset: int, ranges: Seq<(usize, usize)>) -> bool {
    forall|i: int, k: int|
        0 <= i < ranges.len() && 0 <= k < text.len() ==> {
            let at = offset + byte_len(#[trigger] text.take(k));
            let next = at + char_bytes(text[k]);
            !(at < (#[trigger] ranges[i]).0 < next) && !(at < ranges[i].1 < next)
        }
}

proof fn marks_change_at_cuts(text: Seq<char>, offset: int, ranges: Seq<(usize, usize)>, k: int)
    requires
        on_chars(text, offset, ranges),
        0 < k < text.len(),
        !cut_at(ranges, offset + byte_len(text.take(k))),
    ensures
        lit(ranges, offset + byte_len(text.take(k))) == lit(
            ranges,
            offset + byte_len(text.take(k - 1)),
        ),
{
    let at = offset + byte_len(text.take(k));
    let prev = offset + byte_len(text.take(k - 1));
    assert(text.take(k).drop_last() =~= text.take(k - 1));
    assert(at == prev + char_bytes(text[k - 1]));
    if lit(ranges, at) {
        let i = choose|i: int|
            0 <= i < ranges.len() && (#[trigger] ranges[i]).0 <= at < ranges[i].1;
        assert(!(prev < ranges[i].0 < at));
        assert(ranges[i].0 <= prev < ranges[i].1);
    }
    if lit(ranges, prev) {
        let i = choose|i: int|
            0 <= i < ranges.len() && (#[trigger] ranges[i]).0 <= prev < ranges[i].1;
        assert(!(prev < ranges[i].1 < at));
        assert(ranges[i].0 <= at < ranges[i].1);
    }
}

/// The mark of each of the first `n` characters, as segments give it.
pub open spec fn marks(segs: Seq<(Seq<char>, bool)>) -> Seq<bool>
    decreases segs.len(),
{
    if segs.len() == 0 {
        seq![]
    } else {
        marks(segs.drop_last()) + Seq::new(segs.last().0.len(), |i: int| segs.last().1)
    }
}

proof fn marks_upto(text: Seq<char>, offset: int, ranges: Seq<(usize, usize)>, n: nat)
    requires
        n <= text.len(),
        on_chars(text, offset, ranges),
    ensures
        marks(segments_upto(text, offset, ranges, n)) == Seq::new(
            n,
            |k: int| lit(ranges, offset + byte_len(text.take(k))),
        ),
        n > 0 ==> segments_upto(text, offset, ranges, n).len() > 0 && segments_upto(
            text,
            offset,
            ranges,
            n,
        ).last().1 == lit(ranges, offset + byte_len(text.take(n - 1))),
    decreases n,
{
    let segs = segments_upto(text, offset, ranges, n);
    let want = Seq::new(n, |k: int| lit(ranges, offset + byte_len(text.take(k))));
    if n == 0 {
        assert(marks(segs) =~= want);
    } else {
        marks_upto(text, offset, ranges, (n - 1) as nat);
        let before = segments_upto(text, offset, ranges, (n - 1) as nat);
        let at = offset + byte_len(text.take(n - 1));
        let mark = lit(ranges, at);
        if n == 1 || cut_at(ranges, at) {
            assert(segs.drop_last() =~= before);
            assert(segs.last() == (seq![text[n - 1]], mark));
            assert(marks(segs) =~= marks(before).push(mark));
        } else {
            marks_change_at_cuts(text, offset, ranges, n - 1);
            assert(segs.drop_last() =~= before.drop_last());
            let last = before.last();
            assert(segs.last() == (last.0.push(text[n - 1]), last.1));
            assert(marks(before) == marks(before.drop_last()) + Seq::new(
                last.0.len(),
                |i: int| last.1,
            ));
            assert(marks(segs) =~= marks(before).push(mark));
        }
        assert(marks(segs) =~= want);
    }
}

/// Where ranges start and end between characters, the segments mark exactly the
/// characters that are inside a range.
pub proof fn segments_mark_the_ranges(text: Seq<char>, offset: int, ranges: Seq<(usize, usize)>)
    requires
        on_chars(text, offset, ranges),
    ensures
        marks(segments(text, offset, ranges)) == Seq::new(
            text.len(),
            |k: int| lit(ranges, offset + byte_len(text.take(k))),
        ),
{
    let want = Seq::new(text.len(), |k: int| lit(ranges, offset + byte_len(text.take(k))));
    if ranges.len() == 0 {
        let segs = segments(text, offset, ranges);
        assert(segs.drop_last() =~= seq![]);
        assert(marks(segs.drop_last()) =~= seq![]);
        assert(segs.last() == (text, false));
        assert forall|at: int| !lit(ranges, at) by {}
        assert(marks(segs) =~= Seq::new(text.len(), |i: int| segs.last().1));
        assert(marks(segs) =~= want);
    } else {
        marks_upto(text, offset, ranges, text.len());
    }
}

} // verus!
