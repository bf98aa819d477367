//! What a terminal shows of a document that is dumped on it.

use vstd::prelude::*;
use crate::config;
use crate::dump;
use crate::numbers;
use crate::screen;
use crate::text;
use crate::text::{Color, SpanView, StyleView};

verus! {

/// How far a terminal has read: the text it has shown, and whether it is in an escape
/// sequence.
pub enum Reading {
    Text,
    Escape,
    /// A sequence that changes how text looks, up to its final letter.
    Look,
    /// A sequence that tells where text leads, up to its terminator.
    Link,
    LinkEnd,
}

/// What a terminal does with a character.
pub open spec fn reads_char(r: (Reading, Seq<char>), c: char) -> (Reading, Seq<char>) {
    match r.0 {
        Reading::Text => if c == '\u{1b}' {
            (Reading::Escape, r.1)
        } else {
            (Reading::Text, r.1.push(c))
        },
        Reading::Escape => if c == '[' {
            (Reading::Look, r.1)
        } else if c == ']' {
            (Reading::Link, r.1)
        } else {
            (Reading::Text, r.1)
        },
        Reading::Look => if c == 'm' {
            (Reading::Text, r.1)
        } else {
            r
        },
        Reading::Link => if c == '\u{1b}' {
            (Reading::LinkEnd, r.1)
        } else {
            r
        },
        Reading::LinkEnd => (Reading::Text, r.1),
    }
}

/// What a terminal does with text.
pub open spec fn reads(r: (Reading, Seq<char>), s: Seq<char>) -> (Reading, Seq<char>)
    decreases s.len(),
{
    if s.len() == 0 {
        r
    } else {
        reads_char(reads(r, s.drop_last()), s.last())
    }
}

/// What a terminal shows of text with escape sequences.
pub open spec fn seen(s: Seq<char>) -> Seq<char> {
    reads((Reading::Text, seq![]), s).1
}

proof fn reads_join(r: (Reading, Seq<char>), a: Seq<char>, b: Seq<char>)
    ensures
        reads(r, a + b) == reads(reads(r, a), b),
    decreases b.len(),
{
    if b.len() == 0 {
        assert(a + b =~= a);
    } else {
        assert((a + b).drop_last() =~= a + b.drop_last());
        reads_join(r, a, b.drop_last());
    }
}

proof fn text_is_read(out: Seq<char>, s: Seq<char>)
    requires
        !s.contains('\u{1b}'),
    ensures
        reads((Reading::Text, out), s) == (Reading::Text, out + s),
    decreases s.len(),
{
    if s.len() == 0 {
        assert(out + s =~= out);
    } else {
        let d = s.drop_last();
        fewer(s);
        text_is_read(out, d);
        assert(s.contains(s.last()));
        assert((out + d).push(s.last()) =~= out + s);
    }
}

proof fn fewer(s: Seq<char>)
    requires
        s.len() > 0,
    ensures
        forall|c: char| s.drop_last().contains(c) ==> s.contains(c),
{
    let d = s.drop_last();
    assert forall|c: char| d.contains(c) implies s.contains(c) by {
        let i = choose|i: int| 0 <= i < d.len() && d[i] == c;
        assert(s[i] == c);
    }
}

proof fn look_is_read(out: Seq<char>, s: Seq<char>)
    requires
        !s.contains('m'),
    ensures
        reads((Reading::Look, out), s) == (Reading::Look, out),
    decreases s.len(),
{
    if s.len() > 0 {
        fewer(s);
        look_is_read(out, s.drop_last());
        assert(s.contains(s.last()));
    }
}

proof fn link_is_read(out: Seq<char>, s: Seq<char>)
    requires
        !s.contains('\u{1b}'),
    ensures
        reads((Reading::Link, out), s) == (Reading::Link, out),
    decreases s.len(),
{
    if s.len() > 0 {
        fewer(s);
        link_is_read(out, s.drop_last());
        assert(s.contains(s.last()));
    }
}

proof fn one_is_read(r: (Reading, Seq<char>), c: char)
    ensures
        reads(r, seq![c]) == reads_char(r, c),
{
    assert(seq![c].drop_last() =~= Seq::<char>::empty());
    assert(reads(r, seq![c].drop_last()) == r);
}

proof fn two_are_read(r: (Reading, Seq<char>), a: char, b: char)
    ensures
        reads(r, seq![a, b]) == reads_char(reads_char(r, a), b),
{
    assert(seq![a, b] =~= seq![a] + seq![b]);
    reads_join(r, seq![a], seq![b]);
    one_is_read(r, a);
    one_is_read(reads_char(r, a), b);
}

// Codes.

proof fn has_sum(a: Seq<Seq<char>>, b: Seq<Seq<char>>, x: Seq<char>)
    ensures
        (a + b).contains(x) <==> a.contains(x) || b.contains(x),
{
    if a.contains(x) {
        let i = choose|i: int| 0 <= i < a.len() && a[i] == x;
        assert((a + b)[i] == x);
    }
    if b.contains(x) {
        let i = choose|i: int| 0 <= i < b.len() && b[i] == x;
        assert((a + b)[a.len() + i] == x);
    }
}

proof fn has_code(on: bool, code: Seq<char>, x: Seq<char>)
    ensures
        dump::code_if(on, code).contains(x) <==> on && code == x,
{
    if on {
        assert(seq![code][0] == code);
    }
}

proof fn code_strings()
    ensures
        "1"@ == seq!['1'],
        "2"@ == seq!['2'],
        "3"@ == seq!['3'],
        "4"@ == seq!['4'],
        "7"@ == seq!['7'],
        "9"@ == seq!['9'],
        ";"@ == seq![';'],
        "38;2;"@ == seq!['3', '8', ';', '2', ';'],
{
    reveal_strlit("1");
    reveal_strlit("2");
    reveal_strlit("3");
    reveal_strlit("4");
    reveal_strlit("7");
    reveal_strlit("9");
    reveal_strlit(";");
    reveal_strlit("38;2;");
    assert("1"@ =~= seq!['1']);
    assert("2"@ =~= seq!['2']);
    assert("3"@ =~= seq!['3']);
    assert("4"@ =~= seq!['4']);
    assert("7"@ =~= seq!['7']);
    assert("9"@ =~= seq!['9']);
    assert(";"@ =~= seq![';']);
    assert("38;2;"@ =~= seq!['3', '8', ';', '2', ';']);
}

/// The code of a named color: two digits.
pub open spec fn named_code(c: Color) -> Option<(char, char)> {
    match c {
        Color::Black => Some(('3', '0')),
        Color::DarkRed => Some(('3', '1')),
        Color::DarkGreen => Some(('3', '2')),
        Color::DarkYellow => Some(('3', '3')),
        Color::DarkBlue => Some(('3', '4')),
        Color::DarkMagenta => Some(('3', '5')),
        Color::DarkCyan => Some(('3', '6')),
        Color::Grey => Some(('3', '7')),
        Color::DarkGrey => Some(('9', '0')),
        Color::Red => Some(('9', '1')),
        Color::Green => Some(('9', '2')),
        Color::Yellow => Some(('9', '3')),
        Color::Blue => Some(('9', '4')),
        Color::Magenta => Some(('9', '5')),
        Color::Cyan => Some(('9', '6')),
        Color::White => Some(('9', '7')),
        _ => None,
    }
}

proof fn color_strings()
    ensures
        "30"@ == seq!['3', '0'] && "31"@ == seq!['3', '1'] && "32"@ == seq!['3', '2'],
        "33"@ == seq!['3', '3'] && "34"@ == seq!['3', '4'] && "35"@ == seq!['3', '5'],
        "36"@ == seq!['3', '6'] && "37"@ == seq!['3', '7'] && "90"@ == seq!['9', '0'],
        "91"@ == seq!['9', '1'] && "92"@ == seq!['9', '2'] && "93"@ == seq!['9', '3'],
        "94"@ == seq!['9', '4'] && "95"@ == seq!['9', '5'] && "96"@ == seq!['9', '6'],
        "97"@ == seq!['9', '7'],
{
    reveal_strlit("30");
    reveal_strlit("31");
    reveal_strlit("32");
    reveal_strlit("33");
    reveal_strlit("34");
    reveal_strlit("35");
    reveal_strlit("36");
    reveal_strlit("37");
    reveal_strlit("90");
    reveal_strlit("91");
    reveal_strlit("92");
    reveal_strlit("93");
    reveal_strlit("94");
    reveal_strlit("95");
    reveal_strlit("96");
    reveal_strlit("97");
    assert("30"@ =~= seq!['3', '0'] && "31"@ =~= seq!['3', '1'] && "32"@ =~= seq!['3', '2']);
    assert("33"@ =~= seq!['3', '3'] && "34"@ =~= seq!['3', '4'] && "35"@ =~= seq!['3', '5']);
    assert("36"@ =~= seq!['3', '6'] && "37"@ =~= seq!['3', '7'] && "90"@ =~= seq!['9', '0']);
    assert("91"@ =~= seq!['9', '1'] && "92"@ =~= seq!['9', '2'] && "93"@ =~= seq!['9', '3']);
    assert("94"@ =~= seq!['9', '4'] && "95"@ =~= seq!['9', '5'] && "96"@ =~= seq!['9', '6']);
    assert("97"@ =~= seq!['9', '7']);
}

/// Colors are told by their codes: a named one by two digits of its own, and any other
/// by its three channels.
pub proof fn colors_are_told(c: Color)
    ensures
        match named_code(c) {
            Some((a, b)) => dump::color_code(c) == Some(seq![a, b]),
            None => match c {
                Color::Rgb { r, g, b } => dump::color_code(c) == Some(
                    seq!['3', '8', ';', '2', ';'] + numbers::decimal_text(r as nat) + seq![';']
                        + numbers::decimal_text(g as nat) + seq![';'] + numbers::decimal_text(
                        b as nat,
                    ),
                ),
                _ => dump::color_code(c) is None,
            },
        },
{
    color_strings();
    code_strings();
}

/// The codes of a style are those of its traits and of its color, and no others.
pub proof fn codes_tell_the_style(style: StyleView, x: Seq<char>)
    ensures
        dump::codes(style).contains(x) <==> (style.bold && x == seq!['1']) || (style.dim && x
            == seq!['2']) || (style.italic && x == seq!['3']) || (style.underline && x == seq!['4'])
            || (style.reverse && x == seq!['7']) || (style.strikethrough && x == seq!['9']) || (
        style.fg is Some && dump::color_code(style.fg->0) == Some(x)),
{
    code_strings();
    let color: Seq<Seq<char>> = match style.fg {
        Some(c) => match dump::color_code(c) {
            Some(t) => seq![t],
            None => seq![],
        },
        None => seq![],
    };
    let a = dump::code_if(style.bold, "1"@);
    let b = dump::code_if(style.dim, "2"@);
    let c = dump::code_if(style.italic, "3"@);
    let d = dump::code_if(style.underline, "4"@);
    let e = dump::code_if(style.reverse, "7"@);
    let f = dump::code_if(style.strikethrough, "9"@);
    has_code(style.bold, "1"@, x);
    has_code(style.dim, "2"@, x);
    has_code(style.italic, "3"@, x);
    has_code(style.underline, "4"@, x);
    has_code(style.reverse, "7"@, x);
    has_code(style.strikethrough, "9"@, x);
    has_sum(a, b, x);
    has_sum(a + b, c, x);
    has_sum(a + b + c, d, x);
    has_sum(a + b + c + d, e, x);
    has_sum(a + b + c + d + e, f, x);
    has_sum(a + b + c + d + e + f, color, x);
    if style.fg is Some && dump::color_code(style.fg->0) is Some {
        assert(color[0] == dump::color_code(style.fg->0)->0);
    }
}

// Text.

spec fn plain_code(s: Seq<char>) -> bool {
    forall|i: int| 0 <= i < s.len() ==> '0' <= #[trigger] s[i] <= '9' || s[i] == ';'
}

proof fn plain_sum(a: Seq<char>, b: Seq<char>)
    requires
        plain_code(a),
        plain_code(b),
    ensures
        plain_code(a + b),
{
    assert forall|i: int| 0 <= i < (a + b).len() implies '0' <= #[trigger] (a + b)[i] <= '9' || (a
        + b)[i] == ';' by {
        if i < a.len() {
            assert((a + b)[i] == a[i]);
        } else {
            assert((a + b)[i] == b[i - a.len()]);
        }
    }
}

proof fn decimal_is_plain(n: nat)
    ensures
        plain_code(numbers::decimal_text(n)),
    decreases n,
{
    let s = numbers::decimal_text(n);
    if n >= 10 {
        decimal_is_plain(n / 10);
        let d = numbers::decimal_text(n / 10);
        assert forall|i: int| 0 <= i < s.len() implies '0' <= #[trigger] s[i] <= '9' || s[i]
            == ';' by {
            if i < d.len() {
                assert(s[i] == d[i]);
            }
        }
    }
}

proof fn codes_are_plain(style: StyleView, i: int)
    requires
        0 <= i < dump::codes(style).len(),
    ensures
        plain_code(dump::codes(style)[i]),
{
    let x = dump::codes(style)[i];
    assert(dump::codes(style).contains(x));
    codes_tell_the_style(style, x);
    if let Some(c) = style.fg {
        colors_are_told(c);
        if let Color::Rgb { r, g, b } = c {
            let head = seq!['3', '8', ';', '2', ';'];
            let semi = seq![';'];
            decimal_is_plain(r as nat);
            decimal_is_plain(g as nat);
            decimal_is_plain(b as nat);
            let rd = numbers::decimal_text(r as nat);
            let gd = numbers::decimal_text(g as nat);
            let bd = numbers::decimal_text(b as nat);
            plain_sum(head, rd);
            plain_sum(head + rd, semi);
            plain_sum(head + rd + semi, gd);
            plain_sum(head + rd + semi + gd, semi);
            plain_sum(head + rd + semi + gd + semi, bd);
        }
    }
}

proof fn lists_are_plain(names: Seq<Seq<char>>, sep: Seq<char>)
    requires
        plain_code(sep),
        forall|i: int| 0 <= i < names.len() ==> plain_code(#[trigger] names[i]),
    ensures
        plain_code(config::listed(names, sep)),
    decreases names.len(),
{
    if names.len() > 1 {
        let d = names.drop_last();
        assert forall|i: int| 0 <= i < d.len() implies plain_code(#[trigger] d[i]) by {
            assert(d[i] == names[i]);
        }
        lists_are_plain(d, sep);
        assert(plain_code(names[names.len() - 1]));
        plain_sum(config::listed(d, sep), sep);
        plain_sum(config::listed(d, sep) + sep, names.last());
    } else if names.len() == 1 {
        assert(plain_code(names[0]));
    }
}

proof fn body_is_read(out: Seq<char>, s: Seq<char>, style: StyleView)
    requires
        !s.contains('\u{1b}'),
    ensures
        ({
            let cs = dump::codes(style);
            let body = if cs.len() == 0 {
                s
            } else {
                "\x1b["@ + config::listed(cs, ";"@) + "m"@ + s + "\x1b[0m"@
            };
            reads((Reading::Text, out), body) == (Reading::Text, out + s)
        }),
{
    let cs = dump::codes(style);
    text_is_read(out, s);
    if cs.len() > 0 {
        let listed = config::listed(cs, ";"@);
        reveal_strlit("\x1b[");
        reveal_strlit("m");
        reveal_strlit("\x1b[0m");
        code_strings();
        assert("\x1b["@ =~= seq!['\u{1b}', '[']);
        assert("m"@ =~= seq!['m']);
        assert("\x1b[0m"@ =~= seq!['\u{1b}', '['] + seq!['0', 'm']);
        assert forall|i: int| 0 <= i < cs.len() implies plain_code(#[trigger] cs[i]) by {
            codes_are_plain(style, i);
        }
        lists_are_plain(cs, ";"@);
        assert(!listed.contains('m')) by {
            if listed.contains('m') {
                let i = choose|i: int| 0 <= i < listed.len() && listed[i] == 'm';
                assert('0' <= listed[i] <= '9' || listed[i] == ';');
            }
        }
        let r0 = (Reading::Text, out);
        two_are_read(r0, '\u{1b}', '[');
        reads_join(r0, "\x1b["@, listed);
        look_is_read(out, listed);
        reads_join(r0, "\x1b["@ + listed, "m"@);
        one_is_read((Reading::Look, out), 'm');
        reads_join(r0, "\x1b["@ + listed + "m"@, s);
        let r1 = (Reading::Text, out + s);
        reads_join(r0, "\x1b["@ + listed + "m"@ + s, "\x1b[0m"@);
        reads_join(r1, seq!['\u{1b}', '['], seq!['0', 'm']);
        two_are_read(r1, '\u{1b}', '[');
        two_are_read((Reading::Look, out + s), '0', 'm');
    }
}

proof fn span_is_read(out: Seq<char>, span: SpanView)
    requires
        !span.text.contains('\u{1b}'),
        span.style.link matches Some(url) ==> !url.contains('\u{1b}'),
    ensures
        reads((Reading::Text, out), dump::span_ansi(span)) == (Reading::Text, out + span.text),
{
    body_is_read(out, span.text, span.style);
    if let Some(url) = screen::told_link(span.style.link) {
        let cs = dump::codes(span.style);
        let body = if cs.len() == 0 {
            span.text
        } else {
            "\x1b["@ + config::listed(cs, ";"@) + "m"@ + span.text + "\x1b[0m"@
        };
        reveal_strlit("\x1b]8;;");
        reveal_strlit("\x1b\\");
        reveal_strlit("\x1b]8;;\x1b\\");
        let open = seq!['\u{1b}', ']'];
        let mark = seq!['8', ';', ';'];
        let close = seq!['\u{1b}', '\\'];
        assert("\x1b]8;;"@ =~= open + mark);
        assert("\x1b\\"@ =~= close);
        assert("\x1b]8;;\x1b\\"@ =~= open + mark + close);
        let r0 = (Reading::Text, out);
        two_are_read(r0, '\u{1b}', ']');
        reads_join(r0, open, mark);
        assert(!mark.contains('\u{1b}'));
        link_is_read(out, mark);
        reads_join(r0, open + mark, url);
        link_is_read(out, url);
        reads_join(r0, open + mark + url, close);
        two_are_read((Reading::Link, out), '\u{1b}', '\\');
        let head = open + mark + url + close;
        reads_join(r0, head, body);
        let r1 = (Reading::Text, out + span.text);
        reads_join(r0, head + body, open + mark + close);
        reads_join(r1, open + mark, close);
        reads_join(r1, open, mark);
        two_are_read(r1, '\u{1b}', ']');
        link_is_read(out + span.text, mark);
        two_are_read((Reading::Link, out + span.text), '\u{1b}', '\\');
    }
}

/// What a terminal shows of a line that is dumped on it is the text of the line.
pub proof fn dumps_show_the_text(spans: Seq<SpanView>)
    requires
        forall|i: int|
            0 <= i < spans.len() ==> !(#[trigger] spans[i]).text.contains('\u{1b}') && (
            spans[i].style.link matches Some(url) ==> !url.contains('\u{1b}')),
    ensures
        seen(dump::ansi(spans)) == text::line_text(spans),
        reads((Reading::Text, seq![]), dump::ansi(spans)).0 is Text,
    decreases spans.len(),
{
    if spans.len() > 0 {
        let d = spans.drop_last();
        assert forall|i: int| 0 <= i < d.len() implies !(#[trigger] d[i]).text.contains('\u{1b}')
            && (d[i].style.link matches Some(url) ==> !url.contains('\u{1b}')) by {
            assert(d[i] == spans[i]);
        }
        dumps_show_the_text(d);
        assert(spans[spans.len() - 1] == spans.last());
        reads_join((Reading::Text, seq![]), dump::ansi(d), dump::span_ansi(spans.last()));
        span_is_read(text::line_text(d), spans.last());
    }
}

/// A terminal is told where text that is dumped leads, around the text and its looks,
/// unless it leads to a place in the document.
pub proof fn dumped_links_are_told(span: SpanView)
    ensures
        ({
            let plain = SpanView {
                style: StyleView { link: None, ..span.style },
                text: span.text,
            };
            let end = seq!['\u{1b}', '\\'];
            let start = seq!['\u{1b}', ']', '8', ';', ';'];
            dump::span_ansi(span) == (match span.style.link {
                Some(url) => if url.len() > 0 && url[0] == '#' {
                    dump::span_ansi(plain)
                } else {
                    start + url + end + dump::span_ansi(plain) + (start + end)
                },
                None => dump::span_ansi(plain),
            })
        }),
{
    reveal_strlit("\x1b]8;;");
    reveal_strlit("\x1b\\");
    reveal_strlit("\x1b]8;;\x1b\\");
    let end = seq!['\u{1b}', '\\'];
    let start = seq!['\u{1b}', ']', '8', ';', ';'];
    assert("\x1b]8;;"@ =~= start);
    assert("\x1b\\"@ =~= end);
    assert("\x1b]8;;\x1b\\"@ =~= start + end);
    let plain = StyleView { link: None, ..span.style };
    assert(dump::codes(plain) == dump::codes(span.style));
}

} // verus!
