//! What is shown of code: every line of it, indented, with nothing of its text lost.

use vstd::prelude::*;
use crate::highlight;
use crate::highlight::Face;
use crate::strings;
use crate::text;
use crate::text::{Color, SpanView};

verus! {

/// Lines, each with a line ending.
pub open spec fn ended(ls: Seq<Seq<char>>) -> Seq<char>
    decreases ls.len(),
{
    if ls.len() == 0 {
        seq![]
    } else {
        ls[0].push('\n') + ended(ls.skip(1))
    }
}

/// Whether text is what one line can hold: no line ending, nor the first half of one
/// at its end.
pub open spec fn is_line(l: Seq<char>) -> bool {
    &&& forall|i: int| 0 <= i < l.len() ==> #[trigger] l[i] != '\n'
    &&& l.len() > 0 ==> l.last() != '\r'
}

proof fn lines_come_apart_from(s: Seq<char>, from: int, ls: Seq<Seq<char>>, last: Seq<char>)
    requires
        0 <= from <= s.len(),
        s.skip(from) == ended(ls) + last,
        forall|i: int| 0 <= i < ls.len() ==> is_line(#[trigger] ls[i]),
        is_line(last),
    ensures
        strings::lines_from(s, from) == (if last.len() > 0 {
            ls.push(last)
        } else {
            ls
        }),
    decreases ls.len(),
{
    let rest = ended(ls) + last;
    if ls.len() == 0 {
        assert(rest =~= last);
        if last.len() > 0 {
            assert forall|i: int| from <= i < s.len() implies #[trigger] s[i] != '\n' by {
                assert(s[i] == last[i - from]);
            }
            strings::first_is_there(s, '\n', from, s.len() as int);
            assert(s.subrange(from, s.len() as int) =~= last);
            assert(strings::lines_from(s, s.len() as int + 1) == Seq::<Seq<char>>::empty());
            assert(strings::lines_from(s, from) =~= seq![last]);
            assert(ls.push(last) =~= seq![last]);
        } else {
            assert(strings::lines_from(s, from) =~= ls);
        }
    } else {
        let l = ls[0];
        let tail = ls.skip(1);
        let end = from + l.len();
        assert(rest =~= l.push('\n') + (ended(tail) + last));
        assert(s.skip(from).len() == s.len() - from);
        assert forall|i: int| from <= i < end implies #[trigger] s[i] != '\n' by {
            assert(s.skip(from)[i - from] == l[i - from]);
        }
        assert(s[end] == '\n') by {
            assert(s.skip(from)[l.len() as int] == '\n');
        }
        strings::first_is_there(s, '\n', from, end);
        if end > from {
            assert(s[end - 1] == l[l.len() - 1]) by {
                assert(s.skip(from)[l.len() - 1] == l[l.len() - 1]);
            }
        }
        assert(s.subrange(from, end) =~= l) by {
            assert forall|i: int| 0 <= i < l.len() implies s.subrange(from, end)[i] == l[i] by {
                assert(s.skip(from)[i] == l[i]);
            }
        }
        assert(s.skip(end + 1) =~= ended(tail) + last) by {
            assert forall|i: int| 0 <= i < s.skip(end + 1).len() implies s.skip(end + 1)[i] == (
            ended(tail) + last)[i] by {
                assert(s.skip(from)[l.len() + 1 + i] == (ended(tail) + last)[i]);
            }
        }
        assert forall|i: int| 0 <= i < tail.len() implies is_line(#[trigger] tail[i]) by {
            assert(tail[i] == ls[i + 1]);
        }
        lines_come_apart_from(s, end + 1, tail, last);
        assert(seq![l] + tail =~= ls);
        assert(seq![l] + tail.push(last) =~= ls.push(last));
    }
}

/// Lines that were put together come apart again.
pub proof fn lines_come_apart(ls: Seq<Seq<char>>, last: Seq<char>)
    requires
        forall|i: int| 0 <= i < ls.len() ==> is_line(#[trigger] ls[i]),
        is_line(last),
    ensures
        strings::lines_of(ended(ls)) == ls,
        last.len() > 0 ==> strings::lines_of(ended(ls) + last) == ls.push(last),
{
    let none = Seq::<char>::empty();
    assert(ended(ls) + none =~= ended(ls));
    assert(ended(ls).skip(0) =~= ended(ls) + none);
    lines_come_apart_from(ended(ls), 0, ls, none);
    let s = ended(ls) + last;
    assert(s.skip(0) =~= s);
    lines_come_apart_from(s, 0, ls, last);
}

/// Tabs become four spaces each, and all else stays.
pub proof fn tabs_are_spaces(a: Seq<char>, b: Seq<char>)
    ensures
        strings::untabbed(a.push('\t') + b) == strings::untabbed(a) + seq![' ', ' ', ' ', ' ']
            + strings::untabbed(b),
        (forall|i: int| 0 <= i < a.len() ==> #[trigger] a[i] != '\t') ==> strings::untabbed(a) == a,
    decreases a.len(), b.len(),
{
    if b.len() == 0 {
        assert(a.push('\t') + b =~= a.push('\t'));
        assert(a.push('\t').drop_last() =~= a);
        assert(strings::copies(' ', 4) =~= seq![' ', ' ', ' ', ' ']);
        assert(strings::untabbed(a) + strings::copies(' ', 4) =~= strings::untabbed(a) + seq![
            ' ',
            ' ',
            ' ',
            ' ',
        ] + strings::untabbed(b));
        if a.len() > 0 {
            tabs_are_spaces(a.drop_last(), b);
            if forall|i: int| 0 <= i < a.len() ==> #[trigger] a[i] != '\t' {
                assert forall|i: int| 0 <= i < a.drop_last().len() implies #[trigger] a.drop_last()[i]
                    != '\t' by {
                    assert(a.drop_last()[i] == a[i]);
                }
                assert(a[a.len() - 1] != '\t');
                assert(a.drop_last().push(a.last()) =~= a);
            }
        } else {
            assert(strings::untabbed(a) =~= a);
        }
    } else {
        tabs_are_spaces(a, b.drop_last());
        let s = a.push('\t') + b;
        assert(s.drop_last() =~= a.push('\t') + b.drop_last());
        let head = strings::untabbed(a) + seq![' ', ' ', ' ', ' '];
        assert(head + strings::untabbed(b.drop_last()) + strings::copies(' ', 4) =~= head + (
        strings::untabbed(b.drop_last()) + strings::copies(' ', 4)));
        assert((head + strings::untabbed(b.drop_last())).push(b.last()) =~= head
            + strings::untabbed(b.drop_last()).push(b.last()));
    }
}

/// The text of the pieces of a line.
pub open spec fn piece_text(pieces: Seq<(Face, Seq<char>)>) -> Seq<char>
    decreases pieces.len(),
{
    if pieces.len() == 0 {
        seq![]
    } else {
        piece_text(pieces.drop_last()) + pieces.last().1
    }
}

spec fn unended(s: Seq<char>) -> bool {
    forall|i: int| 0 <= i < s.len() ==> #[trigger] s[i] != '\n'
}

proof fn unended_parts(a: Seq<char>, b: Seq<char>)
    requires
        unended(a + b),
    ensures
        unended(a),
        unended(b),
{
    assert forall|i: int| 0 <= i < a.len() implies #[trigger] a[i] != '\n' by {
        assert((a + b)[i] == a[i]);
    }
    assert forall|i: int| 0 <= i < b.len() implies #[trigger] b[i] != '\n' by {
        assert((a + b)[a.len() + i] == b[i]);
    }
}

proof fn pieces_are_shown(pieces: Seq<(Face, Seq<char>)>)
    requires
        unended(piece_text(pieces)),
    ensures
        text::line_text(highlight::piece_spans(pieces)) == piece_text(pieces),
    decreases pieces.len(),
{
    if pieces.len() > 0 {
        let d = pieces.drop_last();
        let t = pieces.last().1;
        unended_parts(piece_text(d), t);
        pieces_are_shown(d);
        let before = highlight::piece_spans(d);
        if t.len() > 0 {
            assert(t[t.len() - 1] != '\n');
            let s = SpanView { text: t, style: highlight::syn_style(pieces.last().0) };
            assert(before.push(s).drop_last() =~= before);
        } else {
            assert(piece_text(d) + t =~= piece_text(d));
        }
    }
}

proof fn ended_pieces_are_shown(pieces: Seq<(Face, Seq<char>)>, line: Seq<char>)
    requires
        unended(line),
        piece_text(pieces) == line.push('\n'),
    ensures
        text::line_text(highlight::piece_spans(pieces)) == line,
    decreases pieces.len(),
{
    let d = pieces.drop_last();
    let t = pieces.last().1;
    let all = piece_text(pieces);
    let before = highlight::piece_spans(d);
    if t.len() == 0 {
        assert(piece_text(d) + t =~= piece_text(d));
        ended_pieces_are_shown(d, line);
    } else {
        let x = t.drop_last();
        assert(t.last() == all.last());
        assert(piece_text(d) + x =~= line) by {
            assert(all.drop_last() =~= line);
            assert(all.drop_last() =~= piece_text(d) + x);
        }
        unended_parts(piece_text(d), x);
        pieces_are_shown(d);
        if x.len() > 0 {
            assert(x[x.len() - 1] != '\n');
            assert(strings::without_trailing(t, '\n') == strings::without_trailing(x, '\n'));
            assert(strings::without_trailing(x, '\n') == x);
            let s = SpanView { text: x, style: highlight::syn_style(pieces.last().0) };
            assert(before.push(s).drop_last() =~= before);
        } else {
            assert(strings::without_trailing(t, '\n') == strings::without_trailing(x, '\n'));
            assert(piece_text(d) + x =~= piece_text(d));
        }
    }
}

/// A line of code stands behind two spaces, with all of its text: as it is where it
/// cannot be highlighted, and otherwise in the pieces that make it up.
pub proof fn code_lines_keep_their_text(
    line: Seq<char>,
    pieces: Option<Seq<(Face, Seq<char>)>>,
)
    requires
        forall|i: int| 0 <= i < line.len() ==> #[trigger] line[i] != '\n',
        pieces matches Some(p) ==> piece_text(p) == line.push('\n'),
    ensures
        text::line_text(highlight::code_line(line, pieces)) == seq![' ', ' '] + line,
{
    reveal_strlit("  ");
    assert("  "@ =~= seq![' ', ' ']);
    let indent = SpanView { text: "  "@, style: text::plain_style() };
    let first = seq![indent];
    assert(first.drop_last() =~= seq![]);
    assert(text::line_text(first.drop_last()) =~= seq![]);
    assert(text::line_text(first) =~= seq![' ', ' ']);
    match pieces {
        Some(p) => {
            ended_pieces_are_shown(p, line);
            crate::words::text_of_sum(first, highlight::piece_spans(p));
        },
        None => {
            let s = SpanView { text: line, style: text::plain_style() };
            assert(first.push(s).drop_last() =~= first);
        },
    }
}

/// Code is shown line by line: as many lines as it has, each with the text of one of
/// them, tabs expanded, behind two spaces, as long as the highlighter keeps it.
pub proof fn code_is_shown_line_by_line(
    set: syntect::parsing::SyntaxSet,
    theme: syntect::highlighting::Theme,
    lang: Seq<char>,
    ls: Seq<Seq<char>>,
    i: int,
)
    requires
        forall|k: int| 0 <= k < ls.len() ==> is_line(#[trigger] ls[k]),
        0 <= i < ls.len(),
        ({
            let shown = highlight::shown_lines(ended(ls));
            highlight::highlighted(
                highlight::syntax_for(set, lang),
                theme,
                highlight::fed_lines(set, shown, i + 1),
            ) matches Some(p) ==> piece_text(p) == strings::untabbed(ls[i]).push('\n')
        }),
    ensures
        ({
            let lines = highlight::code_lines(set, theme, lang, ended(ls));
            &&& lines.len() == ls.len()
            &&& text::line_text(lines[i]) == seq![' ', ' '] + strings::untabbed(ls[i])
        }),
{
    lines_come_apart(ls, seq![]);
    let l = strings::untabbed(ls[i]);
    assert(is_line(ls[i]));
    untabbed_is_unended(ls[i]);
    let shown = highlight::shown_lines(ended(ls));
    assert(shown[i] == l);
    code_lines_keep_their_text(
        l,
        highlight::highlighted(
            highlight::syntax_for(set, lang),
            theme,
            highlight::fed_lines(set, shown, i + 1),
        ),
    );
}

proof fn untabbed_is_unended(s: Seq<char>)
    requires
        unended(s),
    ensures
        unended(strings::untabbed(s)),
    decreases s.len(),
{
    if s.len() > 0 {
        let d = s.drop_last();
        assert forall|i: int| 0 <= i < d.len() implies #[trigger] d[i] != '\n' by {
            assert(d[i] == s[i]);
        }
        untabbed_is_unended(d);
        assert(s[s.len() - 1] != '\n');
        let r = strings::untabbed(s);
        let u = strings::untabbed(d);
        assert forall|i: int| 0 <= i < r.len() implies #[trigger] r[i] != '\n' by {
            if i < u.len() {
                assert(r[i] == u[i]);
            }
        }
    }
}

/// Highlighted code has the color that the theme gives it, and is bold, underlined or
/// in italics where the theme says so.
pub proof fn faces_are_shown(f: Face)
    ensures
        ({
            let style = highlight::syn_style(f);
            &&& style.fg == Some(Color::Rgb { r: f.r, g: f.g, b: f.b })
            &&& f.font == 0 ==> !style.bold && !style.underline && !style.italic
            &&& f.font == 1 ==> style.bold && !style.underline && !style.italic
            &&& f.font == 2 ==> !style.bold && style.underline && !style.italic
            &&& f.font == 4 ==> !style.bold && !style.underline && style.italic
            &&& f.font == 7 ==> style.bold && style.underline && style.italic
            &&& !style.dim && !style.strikethrough && !style.reverse && style.link is None
        }),
{
    let x = f.font;
    assert(0u8 & 1 == 0 && 0u8 & 2 == 0 && 0u8 & 4 == 0) by (bit_vector);
    assert(1u8 & 1 == 1 && 1u8 & 2 == 0 && 1u8 & 4 == 0) by (bit_vector);
    assert(2u8 & 1 == 0 && 2u8 & 2 == 2 && 2u8 & 4 == 0) by (bit_vector);
    assert(4u8 & 1 == 0 && 4u8 & 2 == 0 && 4u8 & 4 == 4) by (bit_vector);
    assert(7u8 & 1 == 1 && 7u8 & 2 == 2 && 7u8 & 4 == 4) by (bit_vector);
}

} // verus!
