//! Text primitives: views of sequences, character classes, and conversions
//! between strings and vectors of characters.

use vstd::prelude::*;

verus! {

/// The views of the elements of `s`, in order.
pub open spec fn views<T: View>(s: Seq<T>) -> Seq<T::V> {
    Seq::new(s.len(), |i: int| s[i].view())
}

pub broadcast proof fn views_push<T: View>(s: Seq<T>, x: T)
    ensures
        #[trigger] views(s.push(x)) == views(s).push(x.view()),
{
    assert(views(s.push(x)) =~= views(s).push(x.view()));
}

pub broadcast proof fn views_subrange<T: View>(s: Seq<T>, a: int, b: int)
    requires
        0 <= a <= b <= s.len(),
    ensures
        #[trigger] views(s.subrange(a, b)) == views(s).subrange(a, b),
{
    assert(views(s.subrange(a, b)) =~= views(s).subrange(a, b));
}

pub broadcast proof fn views_drop_last<T: View>(s: Seq<T>)
    requires
        s.len() > 0,
    ensures
        #[trigger] views(s.drop_last()) == views(s).drop_last(),
{
    assert(views(s.drop_last()) =~= views(s).drop_last());
}

pub broadcast proof fn views_add<T: View>(s: Seq<T>, t: Seq<T>)
    ensures
        #[trigger] views(s + t) == views(s) + views(t),
{
    assert(views(s + t) =~= views(s) + views(t));
}

pub broadcast proof fn views_update<T: View>(s: Seq<T>, i: int, x: T)
    requires
        0 <= i < s.len(),
    ensures
        #[trigger] views(s.update(i, x)) == views(s).update(i, x.view()),
{
    assert(views(s.update(i, x)) =~= views(s).update(i, x.view()));
}

pub broadcast proof fn views_empty<T: View>()
    ensures
        #[trigger] views(Seq::<T>::empty()) == Seq::<T::V>::empty(),
{
    assert(views(Seq::<T>::empty()) =~= Seq::<T::V>::empty());
}

/// The views of the elements of each vector in `s`.
pub open spec fn views2<T: View>(s: Seq<Vec<T>>) -> Seq<Seq<T::V>> {
    Seq::new(s.len(), |i: int| views(s[i]@))
}

pub broadcast proof fn views2_push<T: View>(s: Seq<Vec<T>>, x: Vec<T>)
    ensures
        #[trigger] views2(s.push(x)) == views2(s).push(views(x@)),
{
    assert(views2(s.push(x)) =~= views2(s).push(views(x@)));
}

pub broadcast proof fn views2_empty<T: View>()
    ensures
        #[trigger] views2(Seq::<Vec<T>>::empty()) == Seq::<Seq<T::V>>::empty(),
{
    assert(views2(Seq::<Vec<T>>::empty()) =~= Seq::<Seq<T::V>>::empty());
}

pub broadcast group group_views {
    views2_push,
    views2_empty,
    views_push,
    views_subrange,
    views_drop_last,
    views_add,
    views_update,
    views_empty,
}

/// `String::push` appends one character.
pub assume_specification[ String::push ](s: &mut String, c: char)
    ensures
        final(s)@ == old(s)@.push(c),
;

/// `String::push_str` appends the whole of another string.
pub assume_specification[ String::push_str ](s: &mut String, t: &str)
    ensures
        final(s)@ == old(s)@ + t@,
;

/// `String::pop` takes the last character off, if there is one.
pub assume_specification[ String::pop ](s: &mut String) -> (c: Option<char>)
    ensures
        old(s)@.len() == 0 ==> c is None && final(s)@ == old(s)@,
        old(s)@.len() > 0 ==> c == Some(old(s)@.last()) && final(s)@ == old(s)@.drop_last(),
;

/// A vector of one element.
pub fn one<T>(x: T) -> (r: Vec<T>)
    ensures
        r@ == seq![x],
{
    let mut v: Vec<T> = Vec::new();
    v.push(x);
    v
}

/// `n` copies of a character.
pub open spec fn copies(c: char, n: nat) -> Seq<char> {
    Seq::new(n, |i: int| c)
}

/// The string of `n` copies of a character.
pub fn repeat(c: char, n: usize) -> (r: String)
    ensures
        r@ == copies(c, n as nat),
{
    let mut out = String::new();
    let mut i: usize = 0;
    while i < n
        invariant
            i <= n,
            out@ =~= copies(c, i as nat),
        decreases n - i,
    {
        out.push(c);
        i = i + 1;
    }
    out
}

/// `s` with every `from` turned into `to`.
pub open spec fn swapped(s: Seq<char>, from: char, to: char) -> Seq<char> {
    s.map_values(
        |c: char|
            if c == from {
                to
            } else {
                c
            },
    )
}

/// The characters of `s`, with every `from` turned into `to`.
pub fn swap_chars(s: &str, from: char, to: char) -> (r: Vec<char>)
    ensures
        r@ == swapped(s@, from, to),
{
    let chars = to_chars(s);
    let mut out: Vec<char> = Vec::new();
    let mut i: usize = 0;
    while i < chars.len()
        invariant
            i <= chars@.len(),
            chars@ == s@,
            out@ =~= swapped(s@, from, to).take(i as int),
        decreases chars@.len() - i,
    {
        out.push(
            if chars[i] == from {
                to
            } else {
                chars[i]
            },
        );
        i = i + 1;
    }
    assert(swapped(s@, from, to).take(i as int) =~= swapped(s@, from, to));
    out
}

/// Whether two strings hold the same characters.
pub fn str_eq(a: &str, b: &str) -> (r: bool)
    ensures
        r == (a@ == b@),
{
    a.to_owned() == b.to_owned()
}

/// The characters of a string.
pub fn to_chars(s: &str) -> (r: Vec<char>)
    ensures
        r@ == s@,
{
    let mut out: Vec<char> = Vec::new();
    for c in it: s.chars()
        invariant
            it.seq() == s@,
            out@ == s@.take(it.index()),
    {
        out.push(c);
    }
    out
}

/// The string made of `chars[from..to]`.
pub fn from_chars(chars: &Vec<char>, from: usize, to: usize) -> (r: String)
    requires
        from <= to <= chars@.len(),
    ensures
        r@ == chars@.subrange(from as int, to as int),
{
    let mut out = String::new();
    let mut i: usize = from;
    while i < to
        invariant
            from <= i <= to <= chars@.len(),
            out@ == chars@.subrange(from as int, i as int),
        decreases to - i,
    {
        out.push(chars[i]);
        i = i + 1;
    }
    out
}

/// Where `c` first stands in `s` at or after `from`; the length of `s` where it
/// does not.
pub open spec fn first_at(s: Seq<char>, c: char, from: int) -> int
    decreases s.len() - from,
{
    if from >= s.len() || s[from] == c {
        from
    } else {
        first_at(s, c, from + 1)
    }
}

pub proof fn first_at_bounds(s: Seq<char>, c: char, from: int)
    requires
        0 <= from <= s.len(),
    ensures
        from <= first_at(s, c, from) <= s.len(),
        first_at(s, c, from) < s.len() ==> s[first_at(s, c, from)] == c,
        forall|j: int| from <= j < first_at(s, c, from) ==> s[j] != c,
    decreases s.len() - from,
{
    if from < s.len() && s[from] != c {
        first_at_bounds(s, c, from + 1);
    }
}

/// Where a character first stands is the place that it stands at and not before.
pub proof fn first_is_there(s: Seq<char>, c: char, from: int, at: int)
    requires
        0 <= from <= at <= s.len(),
        forall|i: int| from <= i < at ==> #[trigger] s[i] != c,
        at == s.len() || s[at] == c,
    ensures
        first_at(s, c, from) == at,
    decreases at - from,
{
    if from < at {
        assert(s[from] != c);
        first_is_there(s, c, from + 1, at);
    }
}

/// Where `c` first stands at or after `from`; the length where it does not.
pub fn find_from(chars: &Vec<char>, c: char, from: usize) -> (r: usize)
    requires
        from <= chars@.len(),
    ensures
        r == first_at(chars@, c, from as int),
        from <= r <= chars@.len(),
        r < chars@.len() ==> chars@[r as int] == c,
{
    let mut i: usize = from;
    while i < chars.len() && chars[i] != c
        invariant
            from <= i <= chars@.len(),
            first_at(chars@, c, from as int) == first_at(chars@, c, i as int),
        decreases chars@.len() - i,
    {
        i = i + 1;
    }
    i
}

/// The lines of `s` from `from` on, without their line endings.
pub open spec fn lines_from(s: Seq<char>, from: int) -> Seq<Seq<char>>
    decreases s.len() + 1 - from,
    when 0 <= from via lines_from_ends
{
    if from >= s.len() {
        seq![]
    } else {
        let end = first_at(s, '\n', from);
        let stop = if end < s.len() && end > from && s[end - 1] == '\r' {
            end - 1
        } else {
            end
        };
        seq![s.subrange(from, stop)] + lines_from(s, end + 1)
    }
}

#[via_fn]
proof fn lines_from_ends(s: Seq<char>, from: int) {
    if from < s.len() {
        first_at_bounds(s, '\n', from);
    }
}

/// The lines of a text; a line ends in `\n` or `\r\n`, the last one perhaps in
/// neither.
pub open spec fn lines_of(s: Seq<char>) -> Seq<Seq<char>> {
    lines_from(s, 0)
}

/// The lines of a text, without their line endings.
pub fn split_lines(s: &str) -> (r: Vec<String>)
    ensures
        views(r@) == lines_of(s@),
{
    let chars = to_chars(s);
    let n: usize = chars.len();
    let mut out: Vec<String> = Vec::new();
    let mut from: usize = 0;
    assert(views(out@) + lines_of(s@) =~= lines_of(s@));
    while from < n
        invariant
            from <= n,
            n == chars@.len(),
            chars@ == s@,
            views(out@) + lines_from(s@, from as int) == lines_of(s@),
        decreases n - from,
    {
        let end: usize = find_from(&chars, '\n', from);
        let stop: usize = if end < n && end > from && chars[end - 1] == '\r' {
            end - 1
        } else {
            end
        };
        let line = from_chars(&chars, from, stop);
        let ghost before = views(out@);
        let ghost rest = lines_from(s@, end + 1);
        out.push(line);
        assert(views(out@) =~= before.push(line@));
        assert(before + (seq![line@] + rest) =~= before.push(line@) + rest);
        if end == n {
            assert(rest =~= seq![]);
            assert(views(out@) + rest =~= views(out@));
            return out;
        }
        from = end + 1;
    }
    assert(views(out@) + lines_from(s@, from as int) =~= views(out@));
    out
}

/// `s` with every tab turned into four spaces.
pub open spec fn untabbed(s: Seq<char>) -> Seq<char>
    decreases s.len(),
{
    if s.len() == 0 {
        seq![]
    } else if s.last() == '\t' {
        untabbed(s.drop_last()) + copies(' ', 4)
    } else {
        untabbed(s.drop_last()).push(s.last())
    }
}

/// Turns every tab into four spaces.
pub fn untab(s: &str) -> (r: String)
    ensures
        r@ == untabbed(s@),
{
    let chars = to_chars(s);
    let mut out = String::new();
    let mut i: usize = 0;
    assert(s@.take(0) =~= seq![]);
    while i < chars.len()
        invariant
            i <= chars@.len(),
            chars@ == s@,
            out@ == untabbed(s@.take(i as int)),
        decreases chars@.len() - i,
    {
        assert(s@.take(i + 1).drop_last() =~= s@.take(i as int));
        if chars[i] == '\t' {
            let spaces = repeat(' ', 4);
            out.push_str(spaces.as_str());
        } else {
            out.push(chars[i]);
        }
        i = i + 1;
    }
    assert(s@.take(i as int) =~= s@);
    out
}

/// `s` without the `c`s at its end.
pub open spec fn without_trailing(s: Seq<char>, c: char) -> Seq<char>
    decreases s.len(),
{
    if s.len() > 0 && s.last() == c {
        without_trailing(s.drop_last(), c)
    } else {
        s
    }
}

/// Drops the `c`s at the end of a string.
pub fn trim_trailing(s: &str, c: char) -> (r: String)
    ensures
        r@ == without_trailing(s@, c),
{
    let chars = to_chars(s);
    let mut n: usize = chars.len();
    assert(s@.take(n as int) =~= s@);
    while n > 0 && chars[n - 1] == c
        invariant
            n <= chars@.len(),
            chars@ == s@,
            without_trailing(s@, c) == without_trailing(s@.take(n as int), c),
        decreases n,
    {
        assert(s@.take(n as int).drop_last() =~= s@.take(n - 1));
        n = n - 1;
    }
    let r = from_chars(&chars, 0, n);
    assert(r@ =~= s@.take(n as int));
    r
}

/// The pieces of `s` from `from` on, between one `c` and the next.
pub open spec fn split_from(s: Seq<char>, c: char, from: int) -> Seq<Seq<char>>
    decreases s.len() - from,
    when 0 <= from <= s.len() via split_from_ends
{
    let end = first_at(s, c, from);
    if end < s.len() {
        seq![s.subrange(from, end)] + split_from(s, c, end + 1)
    } else {
        seq![s.skip(from)]
    }
}

#[via_fn]
proof fn split_from_ends(s: Seq<char>, c: char, from: int) {
    first_at_bounds(s, c, from);
}

/// The pieces of a string between one `c` and the next.
pub fn split(s: &str, c: char) -> (r: Vec<String>)
    ensures
        views(r@) == split_from(s@, c, 0),
        r@.len() > 0,
{
    let chars = to_chars(s);
    let n: usize = chars.len();
    let mut out: Vec<String> = Vec::new();
    let mut from: usize = 0;
    assert(views(out@) + split_from(s@, c, 0) =~= split_from(s@, c, 0));
    loop
        invariant
            from <= n,
            n == chars@.len(),
            chars@ == s@,
            views(out@) + split_from(s@, c, from as int) == split_from(s@, c, 0),
        decreases n - from,
    {
        let end: usize = find_from(&chars, c, from);
        let piece = from_chars(&chars, from, end);
        let ghost before = views(out@);
        out.push(piece);
        assert(views(out@) =~= before.push(piece@));
        if end == n {
            assert(piece@ =~= s@.skip(from as int));
            assert(before + seq![piece@] =~= before.push(piece@));
            return out;
        }
        let ghost rest = split_from(s@, c, end + 1);
        assert(before + (seq![piece@] + rest) =~= before.push(piece@) + rest);
        from = end + 1;
    }
}

/// `s` without the white space at its start.
pub open spec fn trimmed_start(s: Seq<char>) -> Seq<char>
    decreases s.len(),
{
    if s.len() > 0 && is_white(s[0]) {
        trimmed_start(s.skip(1))
    } else {
        s
    }
}

/// `s` without the white space at its end.
pub open spec fn trimmed_end(s: Seq<char>) -> Seq<char>
    decreases s.len(),
{
    if s.len() > 0 && is_white(s.last()) {
        trimmed_end(s.drop_last())
    } else {
        s
    }
}

/// `s` without the white space at either end.
pub open spec fn trimmed(s: Seq<char>) -> Seq<char> {
    trimmed_end(trimmed_start(s))
}

/// Drops the white space at either end of a string.
pub fn trim(s: &str) -> (r: String)
    ensures
        r@ == trimmed(s@),
{
    let chars = to_chars(s);
    let mut a: usize = 0;
    assert(s@.skip(0) =~= s@);
    while a < chars.len() && chars[a].is_whitespace()
        invariant
            a <= chars@.len(),
            chars@ == s@,
            trimmed_start(s@) == trimmed_start(s@.skip(a as int)),
        decreases chars@.len() - a,
    {
        assert(s@.skip(a as int)[0] == chars@[a as int]);
        assert(s@.skip(a as int).skip(1) =~= s@.skip(a + 1));
        a = a + 1;
    }
    let ghost rest = s@.skip(a as int);
    assert(a < s@.len() ==> rest[0] == chars@[a as int]);
    assert(trimmed_start(s@) == rest);
    let mut b: usize = chars.len();
    assert(s@.subrange(a as int, b as int) =~= rest);
    while b > a && chars[b - 1].is_whitespace()
        invariant
            a <= b <= chars@.len(),
            chars@ == s@,
            trimmed_end(rest) == trimmed_end(s@.subrange(a as int, b as int)),
        decreases b,
    {
        assert(s@.subrange(a as int, b as int).last() == chars@[b - 1]);
        assert(s@.subrange(a as int, b as int).drop_last() =~= s@.subrange(a as int, b - 1));
        b = b - 1;
    }
    assert(b > a ==> s@.subrange(a as int, b as int).last() == chars@[b - 1]);
    from_chars(&chars, a, b)
}

/// Where the first white space stands in `s` at or after `from`; the length of
/// `s` where there is none.
pub open spec fn white_at(s: Seq<char>, from: int) -> int
    decreases s.len() - from,
{
    if from >= s.len() || is_white(s[from]) {
        from
    } else {
        white_at(s, from + 1)
    }
}

/// The first word of a text; empty where there is none.
pub open spec fn first_word(s: Seq<char>) -> Seq<char> {
    let t = trimmed_start(s);
    t.take(white_at(t, 0))
}

/// The first word of a text; empty where there is none.
pub fn leading_word(s: &str) -> (r: String)
    ensures
        r@ == first_word(s@),
{
    let chars = to_chars(s);
    let mut a: usize = 0;
    assert(s@.skip(0) =~= s@);
    while a < chars.len() && chars[a].is_whitespace()
        invariant
            a <= chars@.len(),
            chars@ == s@,
            trimmed_start(s@) == trimmed_start(s@.skip(a as int)),
        decreases chars@.len() - a,
    {
        assert(s@.skip(a as int)[0] == chars@[a as int]);
        assert(s@.skip(a as int).skip(1) =~= s@.skip(a + 1));
        a = a + 1;
    }
    let ghost t = s@.skip(a as int);
    assert(a < s@.len() ==> t[0] == chars@[a as int]);
    assert(trimmed_start(s@) == t);
    let mut b: usize = a;
    while b < chars.len() && !chars[b].is_whitespace()
        invariant
            a <= b <= chars@.len(),
            chars@ == s@,
            t == s@.skip(a as int),
            white_at(t, 0) == white_at(t, b - a),
        decreases chars@.len() - b,
    {
        assert(t[b - a] == chars@[b as int]);
        b = b + 1;
    }
    assert(b < s@.len() ==> t[b - a] == chars@[b as int]);
    let r = from_chars(&chars, a, b);
    assert(r@ =~= t.take(b - a));
    r
}

/// Whether a text is nothing but white space.
pub open spec fn all_white(s: Seq<char>) -> bool {
    forall|i: int| 0 <= i < s.len() ==> is_white(#[trigger] s[i])
}

/// Whether a text is nothing but white space.
pub fn is_blank(s: &str) -> (r: bool)
    ensures
        r == all_white(s@),
{
    let chars = to_chars(s);
    let mut i: usize = 0;
    while i < chars.len()
        invariant
            i <= chars@.len(),
            chars@ == s@,
            forall|j: int| 0 <= j < i ==> is_white(#[trigger] s@[j]),
        decreases chars@.len() - i,
    {
        if !chars[i].is_whitespace() {
            assert(!is_white(s@[i as int]));
            return false;
        }
        i = i + 1;
    }
    true
}

/// Whether `part` stands in `s` at `i`.
pub open spec fn stands_at<T>(s: Seq<T>, part: Seq<T>, i: int) -> bool {
    0 <= i && i + part.len() <= s.len() && s.subrange(i, i + part.len()) == part
}

/// Whether `part` stands anywhere in `s`.
pub open spec fn has_part(s: Seq<char>, part: Seq<char>) -> bool {
    exists|i: int| #[trigger] stands_at(s, part, i)
}

fn part_at(s: &Vec<char>, part: &Vec<char>, i: usize) -> (r: bool)
    requires
        i + part@.len() <= s@.len(),
    ensures
        r == stands_at(s@, part@, i as int),
{
    let n: usize = s.len();
    let mut j: usize = 0;
    while j < part.len()
        invariant
            j <= part@.len(),
            n == s@.len(),
            i + part@.len() <= n,
            forall|k: int| 0 <= k < j ==> s@[i + k] == #[trigger] part@[k],
        decreases part@.len() - j,
    {
        if s[i + j] != part[j] {
            assert(s@.subrange(i as int, i + part@.len())[j as int] == s@[i + j]);
            return false;
        }
        j = j + 1;
    }
    assert(s@.subrange(i as int, i + part@.len()) =~= part@);
    true
}

/// Whether `part` stands anywhere in `s`.
pub fn contains(s: &str, part: &str) -> (r: bool)
    ensures
        r == has_part(s@, part@),
{
    let a = to_chars(s);
    let b = to_chars(part);
    if b.len() > a.len() {
        return false;
    }
    let mut i: usize = 0;
    while i <= a.len() - b.len()
        invariant
            a@ == s@,
            b@ == part@,
            b@.len() <= a@.len(),
            i <= a@.len() - b@.len() + 1,
            forall|j: int| 0 <= j < i ==> !stands_at(s@, part@, j),
        decreases a@.len() - i,
    {
        if part_at(&a, &b, i) {
            return true;
        }
        if i == a.len() - b.len() {
            return false;
        }
        i = i + 1;
    }
    false
}

/// Whether `a` comes before `b` in the order of dictionaries, character by
/// character.
pub open spec fn precedes(a: Seq<char>, b: Seq<char>) -> bool
    decreases a.len(),
{
    if b.len() == 0 {
        false
    } else if a.len() == 0 {
        true
    } else if a[0] != b[0] {
        a[0] < b[0]
    } else {
        precedes(a.skip(1), b.skip(1))
    }
}

/// Whether `a` comes before `b` in the order of dictionaries.
pub fn comes_before(a: &Vec<char>, b: &Vec<char>) -> (r: bool)
    ensures
        r == precedes(a@, b@),
{
    let mut i: usize = 0;
    assert(a@.skip(0) =~= a@);
    assert(b@.skip(0) =~= b@);
    while i < a.len() && i < b.len() && a[i] == b[i]
        invariant
            i <= a@.len(),
            i <= b@.len(),
            precedes(a@, b@) == precedes(a@.skip(i as int), b@.skip(i as int)),
        decreases a@.len() - i,
    {
        assert(a@.skip(i as int)[0] == a@[i as int]);
        assert(b@.skip(i as int)[0] == b@[i as int]);
        assert(a@.skip(i as int).skip(1) =~= a@.skip(i + 1));
        assert(b@.skip(i as int).skip(1) =~= b@.skip(i + 1));
        i = i + 1;
    }
    assert(i < a@.len() ==> a@.skip(i as int)[0] == a@[i as int]);
    assert(i < b@.len() ==> b@.skip(i as int)[0] == b@[i as int]);
    if i == b.len() {
        false
    } else if i == a.len() {
        true
    } else {
        a[i] < b[i]
    }
}

/// Of two different texts exactly one comes before the other.
pub proof fn order_is_total(a: Seq<char>, b: Seq<char>)
    ensures
        a == b || precedes(a, b) || precedes(b, a),
        !(precedes(a, b) && precedes(b, a)),
        !precedes(a, a),
    decreases a.len(),
{
    if a.len() > 0 && b.len() > 0 && a[0] == b[0] {
        order_is_total(a.skip(1), b.skip(1));
        if a.skip(1) == b.skip(1) {
            assert(a =~= seq![a[0]] + a.skip(1));
            assert(b =~= seq![b[0]] + b.skip(1));
        }
    } else if a.len() > 0 {
        order_is_total(a.skip(1), a.skip(1));
    }
    if a.len() > 0 {
        order_is_total(a.skip(1), a.skip(1));
    } else if b.len() == 0 {
        assert(a =~= b);
    }
}

/// What comes before something comes before all that follows it.
pub proof fn order_is_transitive(a: Seq<char>, b: Seq<char>, c: Seq<char>)
    requires
        precedes(a, b),
        precedes(b, c),
    ensures
        precedes(a, c),
    decreases a.len(),
{
    if a.len() > 0 && b.len() > 0 && c.len() > 0 && a[0] == b[0] && b[0] == c[0] {
        order_is_transitive(a.skip(1), b.skip(1), c.skip(1));
    }
}

/// Whether `s` starts with `part`.
pub fn starts_with(s: &str, part: &str) -> (r: bool)
    ensures
        r == stands_at(s@, part@, 0),
{
    let a = to_chars(s);
    let b = to_chars(part);
    b.len() <= a.len() && part_at(&a, &b, 0)
}

/// A character in lowercase, where it is an ASCII letter.
pub open spec fn lower(c: char) -> char {
    if is_upper(c) {
        (c as u32 + 32) as u8 as char
    } else {
        c
    }
}

/// `s` with its ASCII letters in lowercase.
pub open spec fn lowered(s: Seq<char>) -> Seq<char> {
    s.map_values(|c: char| lower(c))
}

/// A character in lowercase, where it is an ASCII letter.
pub fn lower_char(c: char) -> (r: char)
    ensures
        r == lower(c),
{
    if 'A' <= c && c <= 'Z' {
        (c as u32 + 32) as u8 as char
    } else {
        c
    }
}

/// Puts the ASCII letters of a string in lowercase.
pub fn to_lower(s: &str) -> (r: String)
    ensures
        r@ == lowered(s@),
{
    let chars = to_chars(s);
    let mut out = String::new();
    let mut i: usize = 0;
    while i < chars.len()
        invariant
            i <= chars@.len(),
            chars@ == s@,
            out@ =~= lowered(s@).take(i as int),
        decreases chars@.len() - i,
    {
        out.push(lower_char(chars[i]));
        i = i + 1;
    }
    assert(lowered(s@).take(i as int) =~= lowered(s@));
    out
}

pub open spec fn is_upper(c: char) -> bool {
    'A' <= c <= 'Z'
}

pub open spec fn is_lower(c: char) -> bool {
    'a' <= c <= 'z'
}

pub open spec fn is_digit(c: char) -> bool {
    '0' <= c <= '9'
}

/// Whether a character is an ASCII letter.
pub open spec fn is_letter(c: char) -> bool {
    is_upper(c) || is_lower(c)
}

/// Whether a character is an ASCII letter or digit.
pub open spec fn is_alnum(c: char) -> bool {
    is_letter(c) || is_digit(c)
}

/// Whether a character is an ASCII letter.
pub fn letter(c: char) -> (r: bool)
    ensures
        r == is_letter(c),
{
    ('A' <= c && c <= 'Z') || ('a' <= c && c <= 'z')
}

/// Whether a character is an ASCII letter or digit.
pub fn alnum(c: char) -> (r: bool)
    ensures
        r == is_alnum(c),
{
    letter(c) || ('0' <= c && c <= '9')
}

/// Whether a character has the Unicode `White_Space` property.
pub open spec fn is_white(c: char) -> bool {
    ||| '\u{9}' <= c <= '\u{d}'
    ||| c == ' '
    ||| c == '\u{85}'
    ||| c == '\u{a0}'
    ||| c == '\u{1680}'
    ||| '\u{2000}' <= c <= '\u{200a}'
    ||| c == '\u{2028}'
    ||| c == '\u{2029}'
    ||| c == '\u{202f}'
    ||| c == '\u{205f}'
    ||| c == '\u{3000}'
}

/// `char::is_whitespace` tells the characters with the `White_Space` property.
pub assume_specification[ char::is_whitespace ](c: char) -> (r: bool)
    ensures
        r == is_white(c),
;

/// Whether bytes are all ASCII.
pub open spec fn ascii_bytes(bytes: Seq<u8>) -> bool {
    forall|i: int| 0 <= i < bytes.len() ==> (#[trigger] bytes[i]) < 0x80
}

/// The characters that ASCII bytes stand for.
pub open spec fn ascii_text(bytes: Seq<u8>) -> Seq<char> {
    bytes.map_values(|b: u8| b as char)
}

/// The text that `String::from_utf8_lossy` makes of bytes.
pub uninterp spec fn lossy_text(bytes: Seq<u8>) -> Seq<char>;

/// Calls `String::from_utf8_lossy`. The text depends on the bytes alone, and is
/// what they stand for where they are all ASCII.
#[verifier::external_body]
fn lossy(bytes: &[u8]) -> (r: String)
    ensures
        r@ == lossy_text(bytes@),
        ascii_bytes(bytes@) ==> r@ == ascii_text(bytes@),
{
    String::from_utf8_lossy(bytes).into_owned()
}

/// The text that bytes are read as.
pub open spec fn bytes_text(bytes: Seq<u8>) -> Seq<char> {
    if ascii_bytes(bytes) {
        ascii_text(bytes)
    } else {
        lossy_text(bytes)
    }
}

/// Reads bytes as text; what is no text is marked so.
pub fn bytes_to_string(bytes: &[u8]) -> (r: String)
    ensures
        r@ == bytes_text(bytes@),
{
    lossy(bytes)
}

} // verus!
