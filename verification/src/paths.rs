//! Paths written with `/`, as text.

use vstd::prelude::*;
use crate::strings;
use crate::strings::{from_chars, str_eq, to_chars};
use crate::text;

verus! {

/// Whether a path starts at the root.
pub open spec fn is_absolute(path: Seq<char>) -> bool {
    path.len() > 0 && path[0] == '/'
}

/// `path` as seen from `base`: an absolute path stands for itself, another is
/// appended behind one separator.
pub open spec fn joined(base: Seq<char>, path: Seq<char>) -> Seq<char> {
    if is_absolute(path) {
        path
    } else if base.len() > 0 && base.last() != '/' {
        base.push('/') + path
    } else {
        base + path
    }
}

/// Whether a path starts at the root.
pub fn absolute(path: &str) -> (r: bool)
    ensures
        r == is_absolute(path@),
{
    let chars = to_chars(path);
    chars.len() > 0 && chars[0] == '/'
}

/// `path` as seen from `base`.
pub fn join(base: &str, path: &str) -> (r: String)
    ensures
        r@ == joined(base@, path@),
{
    if absolute(path) {
        return path.to_owned();
    }
    let chars = to_chars(base);
    let n: usize = chars.len();
    let mut out: String = base.to_owned();
    if n > 0 && chars[n - 1] != '/' {
        out.push('/');
    }
    out.push_str(path);
    out
}

/// Joining gives an absolute path whenever either part is one.
pub proof fn joining_keeps_the_root(base: Seq<char>, path: Seq<char>)
    ensures
        is_absolute(path) ==> joined(base, path) == path,
        is_absolute(base) ==> is_absolute(joined(base, path)),
{
}

/// Where the part of `s` behind its last `c` starts; zero where `c` does not
/// stand in it.
pub open spec fn behind_last(s: Seq<char>, c: char) -> int
    decreases s.len(),
{
    if s.len() == 0 || s.last() == c {
        s.len() as int
    } else {
        behind_last(s.drop_last(), c)
    }
}

/// The last of some components, leaving out at the end those that name the
/// directory they are in.
pub open spec fn last_of(parts: Seq<Seq<char>>) -> Option<Seq<char>>
    decreases parts.len(),
{
    if parts.len() == 0 {
        None
    } else if parts.last().len() == 0 || parts.last() == "."@ {
        last_of(parts.drop_last())
    } else {
        Some(parts.last())
    }
}

/// The final component of a path: the last that is neither empty nor `.`,
/// unless that is `..`.
pub open spec fn final_component(path: Seq<char>) -> Option<Seq<char>> {
    match last_of(strings::split_from(path, '/', 0)) {
        Some(n) => if n == ".."@ {
            None
        } else {
            Some(n)
        },
        None => None,
    }
}

/// The final component of a path, if it has one.
pub fn last_component(path: &str) -> (r: Option<String>)
    ensures
        text::opt_view(r) == final_component(path@),
{
    let parts = strings::split(path, '/');
    let ghost ps = strings::views(parts@);
    let mut n: usize = parts.len();
    assert(ps.take(n as int) =~= ps);
    while n > 0
        invariant
            n <= parts@.len(),
            ps == strings::views(parts@),
            ps == strings::split_from(path@, '/', 0),
            last_of(ps) == last_of(ps.take(n as int)),
        decreases n,
    {
        assert(ps.take(n as int).last() == parts@[n - 1]@);
        assert(ps.take(n as int).drop_last() =~= ps.take(n - 1));
        let part = parts[n - 1].as_str();
        if !part.is_empty() && !str_eq(part, ".") {
            if str_eq(part, "..") {
                return None;
            }
            return Some(parts[n - 1].clone());
        }
        n = n - 1;
    }
    None
}

/// What a document is called: the final component of its path, or else the
/// whole path.
pub open spec fn title_text(path: Seq<char>) -> Seq<char> {
    match final_component(path) {
        Some(n) => n,
        None => path,
    }
}

/// What a document is called: the final component of its path, or else the
/// whole path.
pub fn title_of(path: &str) -> (r: String)
    ensures
        r@ == title_text(path@),
{
    match last_component(path) {
        Some(n) => n,
        None => path.to_owned(),
    }
}

/// The extension of a file name: what follows its last dot, unless that dot is
/// the first character.
pub open spec fn extension(name: Seq<char>) -> Option<Seq<char>> {
    let i = behind_last(name, '.');
    if i >= 2 {
        Some(name.skip(i))
    } else {
        None
    }
}

/// Whether a file of this name is markdown.
pub open spec fn markdown_name(name: Seq<char>) -> bool {
    match extension(name) {
        Some(e) => strings::lowered(e) == strings::lowered("md"@) || strings::lowered(e)
            == strings::lowered("markdown"@),
        None => false,
    }
}

/// Whether the file at a path is markdown, by its extension.
pub open spec fn is_markdown_path(path: Seq<char>) -> bool {
    match final_component(path) {
        Some(n) => markdown_name(n),
        None => false,
    }
}

/// The extension of a file name, if it has one.
pub fn extension_of(name: &str) -> (r: Option<String>)
    ensures
        text::opt_view(r) == extension(name@),
{
    let chars = to_chars(name);
    let mut i: usize = chars.len();
    assert(name@.take(i as int) =~= name@);
    while i > 0 && chars[i - 1] != '.'
        invariant
            i <= chars@.len(),
            chars@ == name@,
            behind_last(name@, '.') == behind_last(name@.take(i as int), '.'),
        decreases i,
    {
        assert(name@.take(i as int).last() == chars@[i - 1]);
        assert(name@.take(i as int).drop_last() =~= name@.take(i - 1));
        i = i - 1;
    }
    assert(i > 0 ==> name@.take(i as int).last() == chars@[i - 1]);
    if i >= 2 {
        let e = from_chars(&chars, i, chars.len());
        assert(e@ =~= name@.skip(i as int));
        Some(e)
    } else {
        None
    }
}

/// Whether a file of this name is markdown.
pub fn is_markdown_name(name: &str) -> (r: bool)
    ensures
        r == markdown_name(name@),
{
    match extension_of(name) {
        Some(e) => {
            let lower = strings::to_lower(e.as_str());
            lower == strings::to_lower("md") || lower == strings::to_lower("markdown")
        },
        None => false,
    }
}

/// Whether the file at a path is markdown, by its extension.
pub fn is_markdown(path: &str) -> (r: bool)
    ensures
        r == is_markdown_path(path@),
{
    match last_component(path) {
        Some(n) => is_markdown_name(n.as_str()),
        None => false,
    }
}

} // verus!
