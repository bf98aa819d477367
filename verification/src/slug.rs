//! Heading slugs, which fragments lead to.

use vstd::prelude::*;
use crate::search;
use crate::search::lowercase_of;
use crate::strings;
use crate::strings::to_chars;

verus! {

/// Whether `char::is_alphanumeric` holds of a character.
pub uninterp spec fn alphanumeric(c: char) -> bool;

/// `char::is_alphanumeric` depends on the character alone; of ASCII, it holds of
/// letters and digits.
pub assume_specification[ char::is_alphanumeric ](c: char) -> (r: bool)
    ensures
        r == alphanumeric(c),
        (c as u32) < 0x80 ==> r == strings::is_alnum(c),
;

/// What a character comes to in a slug.
pub open spec fn slug_char(c: char) -> Seq<char> {
    if alphanumeric(c) {
        search::lowercase(c)
    } else if c == ' ' || c == '-' {
        seq!['-']
    } else if c == '_' {
        seq!['_']
    } else {
        seq![]
    }
}

/// The slug of a heading.
pub open spec fn slug(s: Seq<char>) -> Seq<char>
    decreases s.len(),
{
    if s.len() == 0 {
        seq![]
    } else {
        slug(s.drop_last()) + slug_char(s.last())
    }
}

/// Whether text is all ASCII.
pub open spec fn is_ascii(s: Seq<char>) -> bool {
    forall|i: int| 0 <= i < s.len() ==> (#[trigger] s[i] as u32) < 0x80
}

/// What an ASCII character comes to in a slug.
pub open spec fn ascii_slug_char(c: char) -> Seq<char> {
    if strings::is_alnum(c) {
        seq![strings::lower(c)]
    } else if c == ' ' || c == '-' {
        seq!['-']
    } else if c == '_' {
        seq!['_']
    } else {
        seq![]
    }
}

/// The slug of a heading in ASCII.
pub open spec fn ascii_slug(s: Seq<char>) -> Seq<char>
    decreases s.len(),
{
    if s.len() == 0 {
        seq![]
    } else {
        ascii_slug(s.drop_last()) + ascii_slug_char(s.last())
    }
}

fn push_all(out: &mut String, chars: &Vec<char>)
    ensures
        final(out)@ == old(out)@ + chars@,
{
    let ghost start = out@;
    let mut i: usize = 0;
    assert(chars@.take(0) =~= seq![]);
    assert(start + chars@.take(0) =~= start);
    while i < chars.len()
        invariant
            i <= chars@.len(),
            out@ =~= start + chars@.take(i as int),
        decreases chars@.len() - i,
    {
        out.push(chars[i]);
        i = i + 1;
    }
    assert(chars@.take(i as int) =~= chars@);
}

/// GitHub-style heading slug: lowercase, spaces to hyphens, punctuation
/// dropped.
pub fn slugify(text: &str) -> (r: String)
    ensures
        r@ == slug(text@),
        is_ascii(text@) ==> r@ == ascii_slug(text@),
{
    let chars = to_chars(text);
    let mut out = String::new();
    let mut i: usize = 0;
    assert(text@.take(0) =~= seq![]);
    while i < chars.len()
        invariant
            i <= chars@.len(),
            chars@ == text@,
            out@ == slug(text@.take(i as int)),
            is_ascii(text@) ==> out@ == ascii_slug(text@.take(i as int)),
        decreases chars@.len() - i,
    {
        assert(text@.take(i + 1).drop_last() =~= text@.take(i as int));
        let c = chars[i];
        let ghost before = out@;
        if c.is_alphanumeric() {
            let lower = lowercase_of(c);
            push_all(&mut out, &lower);
        } else if c == ' ' || c == '-' {
            out.push('-');
            assert(out@ =~= before + seq!['-']);
        } else if c == '_' {
            out.push('_');
            assert(out@ =~= before + seq!['_']);
        } else {
            assert(before + Seq::<char>::empty() =~= before);
        }
        i = i + 1;
    }
    assert(text@.take(i as int) =~= text@);
    out
}

/// The slug of an ASCII heading is made character by character: letters in lowercase,
/// digits, underscores and hyphens as they are, a hyphen for a space, and nothing for
/// anything else. It is its own slug.
pub proof fn slugs_are_made_of(a: Seq<char>, b: Seq<char>)
    ensures
        ascii_slug(a + b) == ascii_slug(a) + ascii_slug(b),
        forall|i: int|
            0 <= i < ascii_slug(b).len() ==> {
                let c = #[trigger] ascii_slug(b)[i];
                'a' <= c <= 'z' || '0' <= c <= '9' || c == '_' || c == '-'
            },
        ascii_slug(ascii_slug(b)) == ascii_slug(b),
        (forall|i: int|
            0 <= i < b.len() ==> 'a' <= #[trigger] b[i] <= 'z' || '0' <= b[i] <= '9' || b[i] == '_'
                || b[i] == '-') ==> ascii_slug(b) == b,
        ascii_slug(b.push(' ')) == ascii_slug(b).push('-'),
        ascii_slug(b.push('.')) == ascii_slug(b),
        ascii_slug(b.push('A')) == ascii_slug(b).push('a'),
    decreases b.len(),
{
    assert(b.push(' ').drop_last() =~= b);
    assert(b.push('.').drop_last() =~= b);
    assert(b.push('A').drop_last() =~= b);
    let s = ascii_slug(b);
    assert(s + seq!['-'] =~= s.push('-'));
    assert(s + Seq::<char>::empty() =~= s);
    assert(s + seq!['a'] =~= s.push('a'));
    if b.len() == 0 {
        assert(a + b =~= a);
        assert(ascii_slug(a) + s =~= ascii_slug(a));
        assert(s =~= b);
    } else {
        let d = b.drop_last();
        slugs_are_made_of(a, d);
        assert((a + b).drop_last() =~= a + d);
        let c = ascii_slug_char(b.last());
        assert(ascii_slug(a) + ascii_slug(d) + c =~= ascii_slug(a) + s);
        let t = ascii_slug(d);
        assert forall|i: int| 0 <= i < s.len() implies {
            let c = #[trigger] s[i];
            'a' <= c <= 'z' || '0' <= c <= '9' || c == '_' || c == '-'
        } by {
            if i < t.len() {
                assert(s[i] == t[i]);
            } else {
                assert(s[i] == c[i - t.len()]);
            }
        }
        if c.len() == 0 {
            assert(s =~= t);
        } else {
            assert(s.drop_last() =~= t);
            assert(s.last() == c[0]);
            assert(ascii_slug_char(c[0]) =~= c);
            assert(ascii_slug(s) == ascii_slug(t) + ascii_slug_char(c[0]));
            assert(t + c =~= s);
        }
        if forall|i: int|
            0 <= i < b.len() ==> 'a' <= #[trigger] b[i] <= 'z' || '0' <= b[i] <= '9' || b[i] == '_'
                || b[i] == '-' {
            assert forall|i: int| 0 <= i < d.len() implies 'a' <= #[trigger] d[i] <= 'z' || '0'
                <= d[i] <= '9' || d[i] == '_' || d[i] == '-' by {
                assert(d[i] == b[i]);
            }
            assert(b[b.len() - 1] == b.last());
            assert(c =~= seq![b.last()]);
            assert(d + seq![b.last()] =~= b);
        }
    }
}

} // verus!
