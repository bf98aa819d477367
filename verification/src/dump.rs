//! Rendered lines as text with ANSI escape sequences.

use vstd::prelude::*;
use crate::config;
use crate::config::{list, Config};
use crate::numbers;
use crate::numbers::decimal;
use crate::screen;
use crate::strings;
use crate::strings::{repeat, to_chars};
use crate::text;
use crate::text::{Color, Line, SpanView, Style, StyleView};

verus! {

broadcast use strings::group_views;

/// The code of a foreground color, where it has one.
pub open spec fn color_code(c: Color) -> Option<Seq<char>> {
    match c {
        Color::Black => Some("30"@),
        Color::DarkRed => Some("31"@),
        Color::DarkGreen => Some("32"@),
        Color::DarkYellow => Some("33"@),
        Color::DarkBlue => Some("34"@),
        Color::DarkMagenta => Some("35"@),
        Color::DarkCyan => Some("36"@),
        Color::Grey => Some("37"@),
        Color::DarkGrey => Some("90"@),
        Color::Red => Some("91"@),
        Color::Green => Some("92"@),
        Color::Yellow => Some("93"@),
        Color::Blue => Some("94"@),
        Color::Magenta => Some("95"@),
        Color::Cyan => Some("96"@),
        Color::White => Some("97"@),
        Color::Rgb { r, g, b } => Some(
            "38;2;"@ + numbers::decimal_text(r as nat) + ";"@ + numbers::decimal_text(g as nat)
                + ";"@ + numbers::decimal_text(b as nat),
        ),
        _ => None,
    }
}

/// One code, where it applies.
pub open spec fn code_if(on: bool, code: Seq<char>) -> Seq<Seq<char>> {
    if on {
        seq![code]
    } else {
        seq![]
    }
}

/// The codes of a style.
pub open spec fn codes(style: StyleView) -> Seq<Seq<char>> {
    let color = match style.fg {
        Some(c) => color_code(c),
        None => None,
    };
    code_if(style.bold, "1"@) + code_if(style.dim, "2"@) + code_if(style.italic, "3"@) + code_if(
        style.underline,
        "4"@,
    ) + code_if(style.reverse, "7"@) + code_if(style.strikethrough, "9"@) + (match color {
        Some(c) => seq![c],
        None => seq![],
    })
}

fn color_text(c: Color) -> (r: Option<String>)
    ensures
        text::opt_view(r) == color_code(c),
{
    let name = match c {
        Color::Black => "30",
        Color::DarkRed => "31",
        Color::DarkGreen => "32",
        Color::DarkYellow => "33",
        Color::DarkBlue => "34",
        Color::DarkMagenta => "35",
        Color::DarkCyan => "36",
        Color::Grey => "37",
        Color::DarkGrey => "90",
        Color::Red => "91",
        Color::Green => "92",
        Color::Yellow => "93",
        Color::Blue => "94",
        Color::Magenta => "95",
        Color::Cyan => "96",
        Color::White => "97",
        Color::Rgb { r, g, b } => {
            let mut s: String = "38;2;".to_owned();
            let red = decimal(r as u128);
            s.push_str(red.as_str());
            s.push_str(";");
            let green = decimal(g as u128);
            s.push_str(green.as_str());
            s.push_str(";");
            let blue = decimal(b as u128);
            s.push_str(blue.as_str());
            return Some(s);
        },
        _ => {
            return None;
        },
    };
    Some(name.to_owned())
}

fn push_code(out: &mut Vec<String>, on: bool, code: &str)
    ensures
        strings::views(final(out)@) == strings::views(old(out)@) + code_if(on, code@),
{
    if on {
        out.push(code.to_owned());
    }
    assert(strings::views(out@) =~= strings::views(old(out)@) + code_if(on, code@));
}

/// The codes that switch a style on.
pub fn style_codes(style: &Style) -> (r: Vec<String>)
    ensures
        strings::views(r@) == codes(style@),
{
    let mut out: Vec<String> = Vec::new();
    push_code(&mut out, style.bold, "1");
    assert(strings::views(out@) =~= code_if(style.bold, "1"@));
    push_code(&mut out, style.dim, "2");
    push_code(&mut out, style.italic, "3");
    push_code(&mut out, style.underline, "4");
    push_code(&mut out, style.reverse, "7");
    push_code(&mut out, style.strikethrough, "9");
    let ghost before = strings::views(out@);
    let color = match style.fg {
        Some(fg) => color_text(fg),
        None => None,
    };
    match color {
        Some(c) => {
            out.push(c);
            assert(before.push(c@) =~= before + seq![c@]);
        },
        None => {
            assert(before + Seq::<Seq<char>>::empty() =~= before);
        },
    }
    out
}

/// A span as ANSI text. Internal #fragments aren't openable by the terminal, so
/// they are not told.
pub open spec fn span_ansi(span: SpanView) -> Seq<char> {
    let cs = codes(span.style);
    let body = if cs.len() == 0 {
        span.text
    } else {
        "\x1b["@ + config::listed(cs, ";"@) + "m"@ + span.text + "\x1b[0m"@
    };
    match screen::told_link(span.style.link) {
        Some(url) => "\x1b]8;;"@ + url + "\x1b\\"@ + body + "\x1b]8;;\x1b\\"@,
        None => body,
    }
}

/// A line as ANSI text.
pub open spec fn ansi(spans: Seq<SpanView>) -> Seq<char>
    decreases spans.len(),
{
    if spans.len() == 0 {
        seq![]
    } else {
        ansi(spans.drop_last()) + span_ansi(spans.last())
    }
}

fn body_ansi(s: &str, style: &Style) -> (r: String)
    ensures
        r@ == (if codes(style@).len() == 0 {
            s@
        } else {
            "\x1b["@ + config::listed(codes(style@), ";"@) + "m"@ + s@ + "\x1b[0m"@
        }),
{
    let cs = style_codes(style);
    if cs.len() == 0 {
        return s.to_owned();
    }
    let mut out: String = "\x1b[".to_owned();
    let joined = list(&cs, ";");
    out.push_str(joined.as_str());
    out.push_str("m");
    out.push_str(s);
    out.push_str("\x1b[0m");
    out
}

/// Renders a line as an ANSI string for --dump mode.
pub fn line_ansi(line: &Line) -> (r: String)
    ensures
        r@ == ansi(line@),
{
    let ghost vs = line@;
    let mut out = String::new();
    let mut i: usize = 0;
    assert(vs.take(0) =~= seq![]);
    while i < line.spans.len()
        invariant
            i <= line.spans@.len(),
            vs == line@,
            out@ == ansi(vs.take(i as int)),
        decreases line.spans@.len() - i,
    {
        assert(vs.take(i + 1).drop_last() =~= vs.take(i as int));
        let span = &line.spans[i];
        let ghost before = out@;
        let body = body_ansi(span.text.as_str(), &span.style);
        let url = match &span.style.link {
            Some(u) => {
                let chars = to_chars(u.as_str());
                if chars.len() > 0 && chars[0] == '#' {
                    None
                } else {
                    Some(u)
                }
            },
            None => None,
        };
        let mut shown = String::new();
        match url {
            Some(u) => {
                shown.push_str("\x1b]8;;");
                assert(shown@ =~= "\x1b]8;;"@);
                shown.push_str(u.as_str());
                shown.push_str("\x1b\\");
                shown.push_str(body.as_str());
                shown.push_str("\x1b]8;;\x1b\\");
            },
            None => {
                shown.push_str(body.as_str());
                assert(shown@ =~= body@);
            },
        }
        assert(shown@ == span_ansi(vs[i as int]));
        out.push_str(shown.as_str());
        i = i + 1;
    }
    assert(vs.take(i as int) =~= vs);
    out
}

/// A line as --dump prints it: behind the margin unless it is empty.
pub fn dump_line(line: &Line, cfg: &Config) -> (r: String)
    ensures
        r@ == (if line@.len() == 0 {
            ansi(line@)
        } else {
            strings::copies(' ', config::dump_margin(cfg@)) + ansi(line@)
        }),
{
    let body = line_ansi(line);
    if line.spans.len() == 0 {
        return body;
    }
    let margin: usize = if cfg.left_margin < 16 {
        cfg.left_margin
    } else {
        16
    };
    let mut out = repeat(' ', margin);
    out.push_str(body.as_str());
    out
}

/// A line without any styling is dumped as its text.
pub proof fn plain_lines_dump_as_text(spans: Seq<SpanView>)
    requires
        forall|i: int| 0 <= i < spans.len() ==> (#[trigger] spans[i]).style == text::plain_style(),
    ensures
        ansi(spans) == text::line_text(spans),
    decreases spans.len(),
{
    if spans.len() > 0 {
        let rest = spans.drop_last();
        assert forall|i: int| 0 <= i < rest.len() implies (#[trigger] rest[i]).style
            == text::plain_style() by {
            assert(rest[i] == spans[i]);
        }
        plain_lines_dump_as_text(rest);
        assert(spans[spans.len() - 1].style == text::plain_style());
        assert(codes(text::plain_style()) =~= seq![]);
    }
}

} // verus!
