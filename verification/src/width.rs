//! Display widths, in terminal columns.

use vstd::prelude::*;

verus! {

/// The columns that `unicode_width::UnicodeWidthStr::width` gives a string.
pub uninterp spec fn str_width(s: Seq<char>) -> usize;

/// The columns that `unicode_width::UnicodeWidthChar::width` gives a
/// character; nothing for a control character.
pub uninterp spec fn char_width(c: char) -> Option<usize>;

/// Whether a character is printable ASCII.
pub open spec fn printable(c: char) -> bool {
    ' ' <= c <= '~'
}

/// Whether text is all printable ASCII.
pub open spec fn printable_text(s: Seq<char>) -> bool {
    forall|i: int| 0 <= i < s.len() ==> printable(#[trigger] s[i])
}

/// Calls `unicode_width::UnicodeWidthStr::width`. The result depends on the
/// characters alone; printable ASCII takes one column for each character.
#[verifier::external_body]
pub(crate) fn measure(s: &str) -> (w: usize)
    ensures
        w == str_width(s@),
        printable_text(s@) ==> w == s@.len(),
{
    unicode_width::UnicodeWidthStr::width(s)
}

/// Calls `unicode_width::UnicodeWidthChar::width`. The result depends on the
/// character alone; printable ASCII takes one column.
#[verifier::external_body]
fn measure_char(c: char) -> (w: Option<usize>)
    ensures
        w == char_width(c),
        printable(c) ==> w == Some(1usize),
{
    unicode_width::UnicodeWidthChar::width(c)
}

/// The columns a character takes when it is laid out; a control character
/// takes none.
pub open spec fn cols(c: char) -> nat {
    match char_width(c) {
        Some(w) => w as nat,
        None => 0,
    }
}

/// The columns a character takes when it is laid out.
pub fn char_cols(c: char) -> (w: usize)
    ensures
        w == cols(c),
        printable(c) ==> w == 1,
{
    match measure_char(c) {
        Some(w) => w,
        None => 0,
    }
}

/// The columns a run of characters takes when each is laid out on its own.
pub open spec fn run_cols(s: Seq<char>) -> nat
    decreases s.len(),
{
    if s.len() == 0 {
        0
    } else {
        run_cols(s.drop_last()) + cols(s.last())
    }
}

/// Runs laid out one after the other take the columns of both.
pub proof fn run_cols_add(a: Seq<char>, b: Seq<char>)
    ensures
        run_cols(a + b) == run_cols(a) + run_cols(b),
    decreases b.len(),
{
    if b.len() == 0 {
        assert(a + b =~= a);
    } else {
        assert((a + b).drop_last() =~= a + b.drop_last());
        run_cols_add(a, b.drop_last());
    }
}

proof fn run_cols_front(s: Seq<char>)
    requires
        s.len() > 0,
    ensures
        run_cols(s) == cols(s[0]) + run_cols(s.skip(1)),
{
    assert(s =~= seq![s[0]] + s.skip(1));
    run_cols_add(seq![s[0]], s.skip(1));
    assert(seq![s[0]].drop_last() =~= seq![]);
    assert(run_cols(seq![s[0]].drop_last()) == 0);
}

/// How many leading characters of `s` fit in `room` columns.
pub open spec fn fit_len(s: Seq<char>, room: int) -> int
    decreases s.len(),
{
    if s.len() == 0 || cols(s[0]) > room {
        0
    } else {
        1 + fit_len(s.skip(1), room - cols(s[0]))
    }
}

/// The characters counted by `fit_len` fit, and with the next one they would
/// not.
pub proof fn fit_len_is_longest(s: Seq<char>, room: int)
    requires
        room >= 0,
    ensures
        0 <= fit_len(s, room) <= s.len(),
        run_cols(s.take(fit_len(s, room))) <= room,
        fit_len(s, room) < s.len() ==> run_cols(s.take(fit_len(s, room) + 1)) > room,
    decreases s.len(),
{
    let n = fit_len(s, room);
    if s.len() > 0 {
        let t = s.skip(1);
        if cols(s[0]) > room {
            run_cols_front(s.take(1));
            assert(s.take(0) =~= seq![]);
            assert(run_cols(s.take(1).skip(1)) == 0);
        } else {
            fit_len_is_longest(t, room - cols(s[0]));
            run_cols_front(s.take(n));
            assert(s.take(n).skip(1) =~= t.take(n - 1));
            if n < s.len() {
                run_cols_front(s.take(n + 1));
                assert(s.take(n + 1).skip(1) =~= t.take(n));
            }
        }
    }
}

/// How many leading characters fit in `room` columns, and the columns they
/// take.
pub fn fit_chars(chars: &Vec<char>, room: usize) -> (r: (usize, usize))
    ensures
        r.0 == fit_len(chars@, room as int),
        r.0 <= chars@.len(),
        r.1 == run_cols(chars@.take(r.0 as int)),
        r.1 <= room,
        printable_text(chars@) ==> r.1 == r.0,
{
    let mut used: usize = 0;
    let mut i: usize = 0;
    let ghost s = chars@;
    assert(s.skip(0) =~= s);
    assert(s.take(0) =~= seq![]);
    while i < chars.len()
        invariant
            i <= chars@.len(),
            s == chars@,
            used <= room,
            used == run_cols(s.take(i as int)),
            printable_text(s) ==> used == i,
            fit_len(s, room as int) == i + fit_len(s.skip(i as int), room - used),
        decreases chars@.len() - i,
    {
        let w: usize = char_cols(chars[i]);
        assert(s.skip(i as int)[0] == s[i as int]);
        if w > room - used {
            return (i, used);
        }
        assert(s.skip(i as int).skip(1) =~= s.skip(i + 1));
        assert(s.take(i + 1).drop_last() =~= s.take(i as int));
        used = used + w;
        i = i + 1;
    }
    (i, used)
}

} // verus!
