//! Where links lead, what paths name, and what the names of emoji become.

use vstd::prelude::*;
use crate::following;
use crate::pager_view::{ActionView, PagerView};
use crate::paths;
use crate::prose;
use crate::strings;

verus! {

/// Whether a character stands nowhere in a text.
pub open spec fn without(s: Seq<char>, c: char) -> bool {
    forall|i: int| 0 <= i < s.len() ==> #[trigger] s[i] != c
}

/// The path of a file in a directory.
pub open spec fn in_dir(dir: Seq<char>, path: Seq<char>) -> Seq<char> {
    if dir.len() > 0 && dir.last() == '/' {
        dir + path
    } else {
        dir.push('/') + path
    }
}

/// A fragment behind a path, or nothing.
pub open spec fn with_fragment(path: Seq<char>, fragment: Option<Seq<char>>) -> Seq<char> {
    match fragment {
        Some(f) => path.push('#') + f,
        None => path,
    }
}

proof fn fragment_is_cut(path: Seq<char>, fragment: Option<Seq<char>>)
    requires
        without(path, '#'),
    ensures
        ({
            let dest = with_fragment(path, fragment);
            let cut = strings::first_at(dest, '#', 0);
            &&& cut == path.len()
            &&& dest.take(cut) == path
            &&& path + dest.skip(cut) == dest
        }),
{
    let dest = with_fragment(path, fragment);
    let n = path.len() as int;
    assert forall|i: int| 0 <= i < n implies #[trigger] dest[i] != '#' by {
        assert(dest[i] == path[i]);
    }
    strings::first_is_there(dest, '#', 0, n);
    assert(dest.take(n) =~= path);
    assert(path + dest.skip(n) =~= dest);
}

/// A relative link leads to the file that it names, seen from the directory of the
/// document, with its fragment; one that starts at the root, to that file.
pub proof fn relative_links_resolve(
    dir: Seq<char>,
    path: Seq<char>,
    fragment: Option<Seq<char>>,
)
    requires
        dir.len() > 0,
        path.len() > 0,
        without(path, '#'),
        !prose::schemed(with_fragment(path, fragment)),
    ensures
        prose::resolved(with_fragment(path, fragment), Some(dir), true) == Some(
            following::file_url(
                with_fragment(
                    if path[0] == '/' {
                        path
                    } else {
                        in_dir(dir, path)
                    },
                    fragment,
                ),
            ),
        ),
{
    let dest = with_fragment(path, fragment);
    fragment_is_cut(path, fragment);
    assert(dest[0] == path[0]);
    let whole = if path[0] == '/' {
        path
    } else {
        in_dir(dir, path)
    };
    reveal_strlit("file://");
    let rest = dest.skip(path.len() as int);
    assert("file://"@ + whole + rest =~= following::file_url(with_fragment(whole, fragment))) by {
        assert(with_fragment(whole, fragment) =~= whole + rest);
        assert(following::file_url(whole + rest) =~= "file://"@ + whole + rest);
    }
}

/// A link with a scheme, one within the document, and any link of a document that has
/// no place of its own stay as they are; an empty one leads nowhere.
pub proof fn other_links_stay(dest: Seq<char>, base: Option<Seq<char>>, resolve: bool)
    ensures
        dest.len() == 0 ==> prose::resolved(dest, base, resolve) is None,
        dest.len() > 0 && (dest[0] == '#' || prose::schemed(dest) || !resolve)
            ==> prose::resolved(dest, base, resolve) == Some(dest),
        dest.len() > 0 && dest[0] != '/' && base is None ==> prose::resolved(dest, base, resolve)
            == Some(dest),
{
    if dest.len() > 0 && dest[0] != '/' {
        strings::first_at_bounds(dest, '#', 0);
        let cut = strings::first_at(dest, '#', 0);
        if cut > 0 {
            assert(dest.take(cut)[0] == dest[0]);
        }
    }
}

/// What a scheme is: letters, digits, plus signs, dots and hyphens behind a letter, and
/// a colon behind them.
pub proof fn schemes_are_told(scheme: Seq<char>, rest: Seq<char>)
    requires
        scheme.len() > 0,
        strings::is_letter(scheme[0]),
        forall|i: int|
            0 <= i < scheme.len() ==> strings::is_alnum(#[trigger] scheme[i]) || scheme[i] == '+'
                || scheme[i] == '.' || scheme[i] == '-',
    ensures
        prose::schemed(scheme.push(':') + rest),
        without(rest, ':') && (rest.len() > 0 ==> !strings::is_letter(rest[0]))
            ==> !prose::schemed(rest),
{
    let s = scheme.push(':') + rest;
    let k = scheme.len() as int;
    assert forall|j: int| 0 < j < k implies prose::is_scheme_char(#[trigger] s[j]) by {
        assert(s[j] == scheme[j]);
    }
    assert(prose::scheme_ends_at(s, k));
    if without(rest, ':') && prose::schemed(rest) {
        let j = choose|j: int| prose::scheme_ends_at(rest, j);
        assert(rest[j] == ':');
    }
}

/// Following a relative link to a markdown file loads that file, seen from the
/// directory of the document, and shows it from the fragment on.
pub proof fn relative_links_are_followed(
    p: PagerView,
    dir: Seq<char>,
    path: Seq<char>,
    fragment: Option<Seq<char>>,
)
    requires
        dir.len() > 0,
        path.len() > 0,
        path[0] != '/',
        without(dir, '#'),
        without(path, '#'),
        !prose::schemed(with_fragment(path, fragment)),
        paths::is_markdown_path(in_dir(dir, path)),
    ensures
        p.follow_link(prose::resolved(with_fragment(path, fragment), Some(dir), true)->0) == (
            p,
            ActionView::Load(in_dir(dir, path), fragment),
        ),
{
    relative_links_resolve(dir, path, fragment);
    let whole = in_dir(dir, path);
    assert(!whole.contains('#')) by {
        if whole.contains('#') {
            let i = choose|i: int| 0 <= i < whole.len() && whole[i] == '#';
            if i < dir.len() {
                assert(whole[i] == dir[i]);
            } else {
                let start = whole.len() - path.len();
                if i >= start {
                    assert(whole[i] == path[i - start]);
                }
            }
        }
    }
    let f = match fragment {
        Some(f) => f,
        None => seq![],
    };
    following::file_links_lead_to_files(p, whole, f);
    assert(following::file_url(whole.push('#') + f) =~= following::file_url(whole).push('#') + f);
}

// Paths.

proof fn last_part(dir: Seq<char>, name: Seq<char>, from: int)
    requires
        0 <= from <= dir.len() + 1,
        without(name, '/'),
    ensures
        ({
            let parts = strings::split_from(dir.push('/') + name, '/', from);
            parts.len() > 0 && parts.last() == name
        }),
    decreases dir.len() + 1 - from,
{
    let s = dir.push('/') + name;
    let n = dir.len() as int;
    strings::first_at_bounds(s, '/', from);
    let end = strings::first_at(s, '/', from);
    if from == n + 1 {
        assert forall|i: int| from <= i < s.len() implies #[trigger] s[i] != '/' by {
            assert(s[i] == name[i - n - 1]);
        }
        strings::first_is_there(s, '/', from, s.len() as int);
        assert(s.skip(from) =~= name);
    } else {
        assert(s[n] == '/');
        if end > n {
            assert(s[n] != '/');
        }
        last_part(dir, name, end + 1);
    }
}

/// The name of a file in a directory is its title, and tells whether it is markdown.
pub proof fn files_are_named(dir: Seq<char>, name: Seq<char>)
    requires
        without(name, '/'),
        name.len() > 0,
        name != seq!['.'],
        name != seq!['.', '.'],
    ensures
        paths::final_component(dir.push('/') + name) == Some(name),
        paths::title_text(dir.push('/') + name) == name,
        paths::is_markdown_path(dir.push('/') + name) == paths::markdown_name(name),
{
    last_part(dir, name, 0);
    reveal_strlit(".");
    reveal_strlit("..");
    assert("."@ =~= seq!['.']);
    assert(".."@ =~= seq!['.', '.']);
}

proof fn behind_is_there(a: Seq<char>, c: char, b: Seq<char>)
    requires
        without(b, c),
    ensures
        paths::behind_last(a.push(c) + b, c) == a.len() + 1,
        paths::behind_last(b, c) == 0,
    decreases b.len(),
{
    let s = a.push(c) + b;
    if b.len() == 0 {
        assert(s =~= a.push(c));
    } else {
        let d = b.drop_last();
        assert forall|i: int| 0 <= i < d.len() implies #[trigger] d[i] != c by {
            assert(d[i] == b[i]);
        }
        assert(b[b.len() - 1] != c);
        behind_is_there(a, c, d);
        assert(s.drop_last() =~= a.push(c) + d);
    }
}

/// A file is markdown by what follows the last dot of its name, in whatever case, as
/// long as something stands before the dot.
pub proof fn markdown_goes_by_extension(stem: Seq<char>, ext: Seq<char>)
    requires
        without(ext, '.'),
    ensures
        paths::markdown_name(stem.push('.') + ext) <==> stem.len() > 0 && (strings::lowered(ext)
            == seq!['m', 'd'] || strings::lowered(ext) == seq![
            'm',
            'a',
            'r',
            'k',
            'd',
            'o',
            'w',
            'n',
        ]),
        !paths::markdown_name(ext),
{
    behind_is_there(stem, '.', ext);
    let name = stem.push('.') + ext;
    let n = stem.len() + 1;
    assert(name.skip(n as int) =~= ext);
    reveal_strlit("md");
    reveal_strlit("markdown");
    assert(strings::lowered("md"@) =~= seq!['m', 'd']);
    assert(strings::lowered("markdown"@) =~= seq!['m', 'a', 'r', 'k', 'd', 'o', 'w', 'n']);
}

// Emoji.

proof fn first_at_shifts(a: Seq<char>, b: Seq<char>, c: char, i: int)
    requires
        0 <= i <= b.len(),
    ensures
        strings::first_at(a + b, c, a.len() + i) == a.len() + strings::first_at(b, c, i),
    decreases b.len() - i,
{
    if i < b.len() {
        assert((a + b)[a.len() + i] == b[i]);
        if b[i] != c {
            first_at_shifts(a, b, c, i + 1);
        }
    }
}

proof fn replacing_shifts(a: Seq<char>, b: Seq<char>, i: int)
    requires
        0 <= i <= b.len(),
    ensures
        prose::replaced_from(a + b, a.len() + i) == prose::replaced_from(b, i),
    decreases b.len() - i,
{
    let s = a + b;
    let n = a.len() as int;
    first_at_shifts(a, b, ':', i);
    strings::first_at_bounds(b, ':', i);
    let start = strings::first_at(b, ':', i);
    if start >= b.len() {
        assert(s.skip(n + i) =~= b.skip(i));
    } else {
        first_at_shifts(a, b, ':', start + 1);
        strings::first_at_bounds(b, ':', start + 1);
        let end = strings::first_at(b, ':', start + 1);
        assert(s.subrange(n + i, n + start) =~= b.subrange(i, start));
        if end < b.len() {
            assert(s.subrange(n + start + 1, n + end) =~= b.subrange(start + 1, end));
            replacing_shifts(a, b, end + 1);
        }
        replacing_shifts(a, b, start + 1);
        assert(prose::emoji_between(s, n + start, n + end) == prose::emoji_between(b, start, end));
    }
}

/// The name of an emoji between colons becomes the emoji, what comes before it stays,
/// and what follows is treated alike.
pub proof fn shortcodes_become_emoji(
    a: Seq<char>,
    name: Seq<char>,
    emoji: Seq<char>,
    b: Seq<char>,
)
    requires
        without(a, ':'),
        prose::is_code(name),
        prose::shortcode_emoji(name) == Some(emoji),
    ensures
        prose::replaced(a.push(':') + name.push(':') + b) == a + prose::presented(emoji)
            + prose::replaced(b),
{
    let s = a.push(':') + name.push(':') + b;
    let n = a.len() as int;
    let m = n + 1 + name.len();
    assert forall|i: int| 0 <= i < n implies #[trigger] s[i] != ':' by {
        assert(s[i] == a[i]);
    }
    strings::first_is_there(s, ':', 0, n);
    assert forall|i: int| n + 1 <= i < m implies #[trigger] s[i] != ':' by {
        assert(s[i] == name[i - n - 1]);
        assert(prose::is_code_char(name[i - n - 1]));
    }
    strings::first_is_there(s, ':', n + 1, m);
    assert(s.subrange(n + 1, m) =~= name);
    assert(s.subrange(0, n) =~= a);
    let head = a.push(':') + name.push(':');
    replacing_shifts(head, b, 0);
    assert(head.len() == m + 1);
}

/// A colon that opens no name stays, and what follows it is treated alike: a later
/// colon may open one.
pub proof fn other_colons_stay(a: Seq<char>, b: Seq<char>)
    requires
        without(a, ':'),
        ({
            let end = strings::first_at(b, ':', 0);
            end < b.len() ==> !prose::is_code(b.take(end)) || prose::shortcode_emoji(
                b.take(end),
            ) is None
        }),
    ensures
        prose::replaced(a.push(':') + b) == a.push(':') + prose::replaced(b),
{
    let s = a.push(':') + b;
    let n = a.len() as int;
    assert forall|i: int| 0 <= i < n implies #[trigger] s[i] != ':' by {
        assert(s[i] == a[i]);
    }
    strings::first_is_there(s, ':', 0, n);
    assert(s[n] == ':');
    first_at_shifts(a.push(':'), b, ':', 0);
    strings::first_at_bounds(b, ':', 0);
    let end = strings::first_at(b, ':', 0);
    assert(s.subrange(n + 1, n + 1 + end) =~= b.take(end));
    replacing_shifts(a.push(':'), b, 0);
    assert(s.subrange(0, n) =~= a);
}

/// Text is cleaned piece by piece: a tab becomes four spaces, a carriage return goes,
/// and any other character stays.
pub proof fn cleaning_joins(a: Seq<char>, b: Seq<char>, c: char)
    ensures
        prose::expanded(a + b) == prose::expanded(a) + prose::expanded(b),
        prose::expanded(seq!['\t']) == seq![' ', ' ', ' ', ' '],
        prose::expanded(seq!['\r']) == Seq::<char>::empty(),
        c != '\t' && c != '\r' ==> prose::expanded(seq![c]) == seq![c],
    decreases b.len(),
{
    let none = Seq::<char>::empty();
    assert(prose::expanded(none) == none);
    one_cleaned('\t');
    one_cleaned('\r');
    one_cleaned(c);
    if b.len() == 0 {
        assert(a + b =~= a);
        assert(prose::expanded(a) + prose::expanded(b) =~= prose::expanded(a));
    } else {
        cleaning_joins(a, b.drop_last(), c);
        assert((a + b).drop_last() =~= a + b.drop_last());
        assert(prose::expanded(a) + prose::expanded(b.drop_last()) + prose::expanded_char(
            b.last(),
        ) =~= prose::expanded(a) + (prose::expanded(b.drop_last()) + prose::expanded_char(
            b.last(),
        )));
    }
}

proof fn one_cleaned(c: char)
    ensures
        prose::expanded(seq![c]) == prose::expanded_char(c),
{
    let none = Seq::<char>::empty();
    assert(seq![c].drop_last() =~= none);
    assert(prose::expanded(none) == none);
    assert(none + prose::expanded_char(c) =~= prose::expanded_char(c));
}

/// The names of emoji are made of letters, digits, underscores, plus signs and hyphens;
/// a lone symbol that may be drawn as text is followed by the mark that asks for its
/// picture, and any other emoji stays as it is.
pub proof fn names_and_looks_of_emoji(s: Seq<char>, c: char)
    ensures
        prose::is_code(s) <==> s.len() > 0 && forall|i: int|
            0 <= i < s.len() ==> 'a' <= (#[trigger] s[i]) <= 'z' || 'A' <= s[i] <= 'Z' || '0' <= s[i]
                <= '9' || s[i] == '_' || s[i] == '+' || s[i] == '-',
        s.len() != 1 ==> prose::presented(s) == s,
        c < '\u{1F000}' && c != '\u{FE0F}' ==> prose::presented(seq![c]) == seq![c, '\u{FE0F}'],
        c >= '\u{1F000}' ==> prose::presented(seq![c]) == seq![c],
{
    assert(seq![c].push('\u{FE0F}') =~= seq![c, '\u{FE0F}']);
    if prose::is_code(s) {
        assert forall|i: int| 0 <= i < s.len() implies 'a' <= (#[trigger] s[i]) <= 'z' || 'A'
            <= s[i] <= 'Z' || '0' <= s[i] <= '9' || s[i] == '_' || s[i] == '+' || s[i] == '-' by {
            assert(prose::is_code_char(s[i]));
        }
    }
    if s.len() > 0 && forall|i: int|
        0 <= i < s.len() ==> 'a' <= (#[trigger] s[i]) <= 'z' || 'A' <= s[i] <= 'Z' || '0' <= s[i]
            <= '9' || s[i] == '_' || s[i] == '+' || s[i] == '-' {
        assert forall|i: int| 0 <= i < s.len() implies prose::is_code_char(#[trigger] s[i]) by {}
    }
}

} // verus!
