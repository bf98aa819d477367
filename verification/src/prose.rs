//! Inline text: control characters, emoji shortcodes, links.

use vstd::prelude::*;
use crate::paths;
use crate::strings;
use crate::strings::{alnum, find_from, from_chars, letter, to_chars};
use crate::text;

verus! {

/// What a character of the source becomes on screen: a carriage return goes,
/// a tab is four spaces.
pub open spec fn expanded_char(c: char) -> Seq<char> {
    if c == '\r' {
        seq![]
    } else if c == '\t' {
        seq![' ', ' ', ' ', ' ']
    } else {
        seq![c]
    }
}

/// Text with its carriage returns stripped and its tabs expanded.
pub open spec fn expanded(s: Seq<char>) -> Seq<char>
    decreases s.len(),
{
    if s.len() == 0 {
        seq![]
    } else {
        expanded(s.drop_last()) + expanded_char(s.last())
    }
}

/// Strips carriage returns and expands tabs; a raw `\t` reaching the terminal
/// advances to the next tab stop and desyncs all column accounting.
pub fn clean_inline(text: &str) -> (r: String)
    ensures
        r@ == expanded(text@),
{
    let chars = to_chars(text);
    let mut out = String::new();
    let mut i: usize = 0;
    assert(text@.take(0) =~= seq![]);
    while i < chars.len()
        invariant
            i <= chars@.len(),
            chars@ == text@,
            out@ =~= expanded(text@.take(i as int)),
        decreases chars@.len() - i,
    {
        assert(text@.take(i + 1).drop_last() =~= text@.take(i as int));
        let c = chars[i];
        if c == '\t' {
            out.push(' ');
            out.push(' ');
            out.push(' ');
            out.push(' ');
        } else if c != '\r' {
            out.push(c);
        }
        i = i + 1;
    }
    assert(text@.take(i as int) =~= text@);
    out
}

/// Cleaned text holds neither carriage returns nor tabs.
pub proof fn expanded_is_clean(s: Seq<char>)
    ensures
        !expanded(s).contains('\r'),
        !expanded(s).contains('\t'),
    decreases s.len(),
{
    if s.len() > 0 {
        expanded_is_clean(s.drop_last());
        let a = expanded(s.drop_last());
        let b = expanded_char(s.last());
        assert forall|i: int| 0 <= i < (a + b).len() implies (a + b)[i] != '\r' && (a + b)[i]
            != '\t' by {
            if i < a.len() {
                assert(a.contains(a[i]));
            } else {
                assert((a + b)[i] == b[i - a.len()]);
            }
        }
    }
}

/// Text that holds neither carriage returns nor tabs is clean as it is.
pub proof fn clean_text_stays(s: Seq<char>)
    requires
        !s.contains('\r'),
        !s.contains('\t'),
    ensures
        expanded(s) == s,
    decreases s.len(),
{
    if s.len() > 0 {
        let d = s.drop_last();
        assert forall|c: char| d.contains(c) implies s.contains(c) by {
            let i = choose|i: int| 0 <= i < d.len() && d[i] == c;
            assert(s[i] == c);
        }
        clean_text_stays(d);
        assert(s.contains(s.last()));
        assert(d + seq![s.last()] =~= s);
    }
}

/// The emoji that `emojis::get_by_shortcode` finds under a name.
pub uninterp spec fn shortcode_emoji(name: Seq<char>) -> Option<Seq<char>>;

/// Calls `emojis::get_by_shortcode` and `Emoji::as_str`. Whether a name is
/// known, and the text it stands for, depend on the name alone.
#[verifier::external_body]
fn lookup_emoji(name: &str) -> (r: Option<String>)
    ensures
        text::opt_view(r) == shortcode_emoji(name@),
{
    emojis::get_by_shortcode(name).map(|e| e.as_str().to_string())
}

/// Whether a character may stand in an emoji shortcode.
pub open spec fn is_code_char(c: char) -> bool {
    strings::is_alnum(c) || c == '_' || c == '+' || c == '-'
}

/// Whether text between two colons may be an emoji shortcode.
pub open spec fn is_code(s: Seq<char>) -> bool {
    s.len() > 0 && forall|i: int| 0 <= i < s.len() ==> is_code_char(#[trigger] s[i])
}

/// An emoji as it is written out: a lone symbol that terminals may draw as
/// text is followed by the selector that asks for its emoji presentation.
pub open spec fn presented(emoji: Seq<char>) -> Seq<char> {
    if emoji.len() == 1 && (emoji[0] as u32) < 0x1F000 && emoji[0] != '\u{FE0F}' {
        emoji.push('\u{FE0F}')
    } else {
        emoji
    }
}

/// The emoji that a pair of colons at `start` and `end` stands for.
pub open spec fn emoji_between(s: Seq<char>, start: int, end: int) -> Option<Seq<char>> {
    if end < s.len() && is_code(s.subrange(start + 1, end)) {
        shortcode_emoji(s.subrange(start + 1, end))
    } else {
        None
    }
}

/// `s` from `from` on, with its shortcodes replaced.
pub open spec fn replaced_from(s: Seq<char>, from: int) -> Seq<char>
    decreases s.len() - from,
    when 0 <= from <= s.len() via replaced_from_ends
{
    let start = strings::first_at(s, ':', from);
    if start >= s.len() {
        s.skip(from)
    } else {
        let end = strings::first_at(s, ':', start + 1);
        match emoji_between(s, start, end) {
            Some(emoji) => s.subrange(from, start) + presented(emoji) + replaced_from(s, end + 1),
            None => s.subrange(from, start).push(':') + replaced_from(s, start + 1),
        }
    }
}

#[via_fn]
proof fn replaced_from_ends(s: Seq<char>, from: int) {
    strings::first_at_bounds(s, ':', from);
    let start = strings::first_at(s, ':', from);
    if start < s.len() {
        strings::first_at_bounds(s, ':', start + 1);
    }
}

/// `s` with its emoji shortcodes replaced.
pub open spec fn replaced(s: Seq<char>) -> Seq<char> {
    replaced_from(s, 0)
}

fn valid_code(chars: &Vec<char>, from: usize, to: usize) -> (r: bool)
    requires
        from <= to <= chars@.len(),
    ensures
        r == is_code(chars@.subrange(from as int, to as int)),
{
    let ghost code = chars@.subrange(from as int, to as int);
    if from == to {
        return false;
    }
    let mut i: usize = from;
    while i < to
        invariant
            from <= i <= to <= chars@.len(),
            code == chars@.subrange(from as int, to as int),
            forall|j: int| 0 <= j < i - from ==> is_code_char(#[trigger] code[j]),
        decreases to - i,
    {
        let c = chars[i];
        assert(code[i - from] == c);
        if !(alnum(c) || c == '_' || c == '+' || c == '-') {
            return false;
        }
        i = i + 1;
    }
    true
}

/// An emoji as it is written out, given the text it is listed under.
pub fn present(emoji: &str) -> (r: String)
    ensures
        r@ == presented(emoji@),
{
    let chars = to_chars(emoji);
    let mut out: String = emoji.to_owned();
    if chars.len() == 1 && (chars[0] as u32) < 0x1F000 && chars[0] != '\u{FE0F}' {
        out.push('\u{FE0F}');
    }
    out
}

/// Replaces GitHub-style `:shortcode:` emoji (e.g. `:book:` → 📖) in prose.
/// Unknown candidates are left untouched, and a failed closing colon is
/// re-considered as the opening colon of the next candidate, so text like
/// "12:30:45" or "a : b :tada:" behaves as expected.
pub fn replace_shortcodes(text: &str) -> (r: String)
    ensures
        r@ == replaced(text@),
{
    let chars = to_chars(text);
    let ghost s = text@;
    let mut out = String::new();
    let mut from: usize = 0;
    assert(seq![] + replaced(s) =~= replaced(s));
    loop
        invariant
            from <= chars@.len(),
            chars@ == s,
            s == text@,
            out@ + replaced_from(s, from as int) == replaced(s),
        decreases chars@.len() - from,
    {
        let ghost before = out@;
        let start: usize = find_from(&chars, ':', from);
        let plain = from_chars(&chars, from, start);
        out.push_str(plain.as_str());
        if start == chars.len() {
            assert(s.subrange(from as int, start as int) =~= s.skip(from as int));
            return out;
        }
        let end: usize = find_from(&chars, ':', start + 1);
        let emoji = if end < chars.len() && valid_code(&chars, start + 1, end) {
            let name = from_chars(&chars, start + 1, end);
            lookup_emoji(name.as_str())
        } else {
            None
        };
        assert(text::opt_view(emoji) == emoji_between(s, start as int, end as int));
        match emoji {
            Some(e) => {
                let shown = present(e.as_str());
                out.push_str(shown.as_str());
                assert(before + (plain@ + shown@ + replaced_from(s, end + 1)) =~= before + plain@
                    + shown@ + replaced_from(s, end + 1));
                from = end + 1;
            },
            None => {
                out.push(':');
                assert(before + (plain@.push(':') + replaced_from(s, start + 1)) =~= (before
                    + plain@).push(':') + replaced_from(s, start + 1));
                from = start + 1;
            },
        }
    }
}

proof fn unknown_codes_stay_from(s: Seq<char>, from: int)
    requires
        0 <= from <= s.len(),
        forall|i: int, j: int|
            0 <= i <= j < s.len() ==> (#[trigger] shortcode_emoji(s.subrange(i, j))) is None,
    ensures
        replaced_from(s, from) == s.skip(from),
    decreases s.len() - from,
{
    strings::first_at_bounds(s, ':', from);
    let start = strings::first_at(s, ':', from);
    if start < s.len() {
        strings::first_at_bounds(s, ':', start + 1);
        unknown_codes_stay_from(s, start + 1);
        assert(s.subrange(from, start).push(':') + s.skip(start + 1) =~= s.skip(from));
    }
}

/// Text in which nothing between colons names an emoji is left untouched.
pub proof fn unknown_codes_stay(s: Seq<char>)
    requires
        forall|i: int, j: int|
            0 <= i <= j < s.len() ==> (#[trigger] shortcode_emoji(s.subrange(i, j))) is None,
    ensures
        replaced(s) == s,
{
    unknown_codes_stay_from(s, 0);
    assert(s.skip(0) =~= s);
}

/// Text with fewer than two colons is left untouched.
pub proof fn lone_colon_stays(s: Seq<char>)
    requires
        forall|i: int, j: int| 0 <= i < j < s.len() ==> s[i] != ':' || s[j] != ':',
    ensures
        replaced(s) == s,
{
    strings::first_at_bounds(s, ':', 0);
    let start = strings::first_at(s, ':', 0);
    assert(s.skip(0) =~= s);
    if start < s.len() {
        strings::first_at_bounds(s, ':', start + 1);
        assert(strings::first_at(s, ':', start + 1) == s.len());
        assert(replaced_from(s, start + 1) == s.skip(start + 1));
        assert(s.subrange(0, start).push(':') + s.skip(start + 1) =~= s);
    }
}

/// Whether a character may stand in a URI scheme behind the first.
pub open spec fn is_scheme_char(c: char) -> bool {
    strings::is_alnum(c) || c == '+' || c == '.' || c == '-'
}

/// Whether the text before `k` is a scheme and a colon follows it.
pub open spec fn scheme_ends_at(s: Seq<char>, k: int) -> bool {
    0 < k < s.len() && strings::is_letter(s[0]) && s[k] == ':' && forall|j: int|
        0 < j < k ==> is_scheme_char(#[trigger] s[j])
}

/// Whether `s` starts with a URI scheme and a colon.
pub open spec fn schemed(s: Seq<char>) -> bool {
    exists|k: int| scheme_ends_at(s, k)
}

/// True for `scheme:` prefixes per RFC 3986 (https://, mailto:, etc.).
pub fn has_scheme(s: &str) -> (r: bool)
    ensures
        r == schemed(s@),
{
    let chars = to_chars(s);
    if chars.len() == 0 || !letter(chars[0]) {
        return false;
    }
    let mut i: usize = 1;
    while i < chars.len()
        invariant
            1 <= i <= chars@.len(),
            chars@ == s@,
            strings::is_letter(s@[0]),
            forall|j: int| 0 < j < i ==> is_scheme_char(#[trigger] s@[j]),
        decreases chars@.len() - i,
    {
        let c = chars[i];
        if c == ':' {
            assert(scheme_ends_at(s@, i as int));
            return true;
        }
        if !(alnum(c) || c == '+' || c == '.' || c == '-') {
            assert forall|k: int| !scheme_ends_at(s@, k) by {
                if scheme_ends_at(s@, k) {
                    if k < i {
                        assert(is_scheme_char(s@[k]));
                    } else {
                        assert(is_scheme_char(s@[i as int]));
                    }
                }
            }
            return false;
        }
        i = i + 1;
    }
    assert forall|k: int| !scheme_ends_at(s@, k) by {
        if scheme_ends_at(s@, k) {
            assert(is_scheme_char(s@[k]));
        }
    }
    false
}

/// The URI of a path, with the fragment that followed it.
pub open spec fn file_uri(path: Seq<char>, fragment: Seq<char>) -> Seq<char> {
    "file://"@ + path + fragment
}

/// What a link destination leads to. Nothing for an empty one; a fragment, a
/// URI with a scheme, or any destination that is not to be resolved, as it is;
/// a path, the `file://` URI of that path seen from `base`, with its fragment.
pub open spec fn resolved(dest: Seq<char>, base: Option<Seq<char>>, resolve: bool) -> Option<
    Seq<char>,
> {
    if dest.len() == 0 {
        None
    } else if dest[0] == '#' || schemed(dest) || !resolve {
        Some(dest)
    } else {
        let cut = strings::first_at(dest, '#', 0);
        let path = dest.take(cut);
        let fragment = dest.skip(cut);
        if paths::is_absolute(path) {
            Some(file_uri(path, fragment))
        } else {
            match base {
                Some(b) => Some(file_uri(paths::joined(b, path), fragment)),
                None => Some(dest),
            }
        }
    }
}

/// Turns a markdown link destination into a followable URI. Relative paths
/// become file:// URIs against `base` (what image resolution already does);
/// fragment-only links stay internal; anything with a scheme passes through.
pub fn resolve_link(dest: &str, base: &Option<String>, resolve: bool) -> (r: Option<String>)
    ensures
        text::opt_view(r) == resolved(dest@, text::opt_view(*base), resolve),
{
    let chars = to_chars(dest);
    if chars.len() == 0 {
        return None;
    }
    if chars[0] == '#' || has_scheme(dest) || !resolve {
        return Some(dest.to_owned());
    }
    let cut: usize = find_from(&chars, '#', 0);
    let path = from_chars(&chars, 0, cut);
    let fragment = from_chars(&chars, cut, chars.len());
    assert(path@ =~= dest@.take(cut as int));
    assert(fragment@ =~= dest@.skip(cut as int));
    let abs = if paths::absolute(path.as_str()) {
        path
    } else {
        match base {
            Some(b) => paths::join(b.as_str(), path.as_str()),
            None => {
                return Some(dest.to_owned());
            },
        }
    };
    let mut uri: String = "file://".to_owned();
    uri.push_str(abs.as_str());
    uri.push_str(fragment.as_str());
    Some(uri)
}

/// A fragment stays at the end of the URI its link resolves to.
pub proof fn fragment_is_kept(dest: Seq<char>, base: Option<Seq<char>>, resolve: bool)
    requires
        dest.len() > 0,
    ensures
        ({
            let r = resolved(dest, base, resolve)->0;
            let fragment = dest.skip(strings::first_at(dest, '#', 0));
            r.len() >= fragment.len() && r.skip(r.len() - fragment.len()) == fragment
        }),
{
    strings::first_at_bounds(dest, '#', 0);
    let r = resolved(dest, base, resolve)->0;
    let fragment = dest.skip(strings::first_at(dest, '#', 0));
    assert(r.skip(r.len() - fragment.len()) =~= fragment);
}

} // verus!
