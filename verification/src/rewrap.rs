//! How printable ASCII wraps, a column for each character, and that its lines stay
//! as they are when they are wrapped again.

use vstd::prelude::*;
use crate::strings;
use crate::text;
use crate::text::{SpanView, StyleView};
use crate::width;
use crate::wrap;
use crate::wrap::{TokView, Wrap};

verus! {

/// One character of a word too long for any line, where a character takes one
/// column.
pub open spec fn ascii_hard_char(w: Wrap, style: StyleView, c: char, width: nat) -> Wrap {
    let w1 = if w.used > 0 && w.used + 1 > width {
        wrap::finished(w)
    } else {
        w
    };
    Wrap {
        out: w1.out,
        cur: text::push_span(w1.cur, SpanView { text: seq![c], style }),
        used: w1.used + 1,
    }
}

pub open spec fn ascii_hard_chars(w: Wrap, style: StyleView, chars: Seq<char>, width: nat) -> Wrap
    decreases chars.len(),
{
    if chars.len() == 0 {
        w
    } else {
        ascii_hard_char(
            ascii_hard_chars(w, style, chars.drop_last(), width),
            style,
            chars.last(),
            width,
        )
    }
}

/// A word too long for any line, where a character takes one column.
pub open spec fn ascii_hard_word(w: Wrap, frags: Seq<SpanView>, width: nat) -> Wrap
    decreases frags.len(),
{
    if frags.len() == 0 {
        w
    } else {
        ascii_hard_chars(
            ascii_hard_word(w, frags.drop_last(), width),
            frags.last().style,
            frags.last().text,
            width,
        )
    }
}

/// One more token laid out, where a character takes one column.
pub open spec fn ascii_wrap_tok(w: Wrap, tok: TokView, width: nat) -> Wrap {
    match tok {
        TokView::Break => wrap::finished(w),
        TokView::Space(style) => if 0 < w.used < width {
            Wrap {
                out: w.out,
                cur: w.cur.push(SpanView { text: seq![' '], style }),
                used: w.used + 1,
            }
        } else {
            w
        },
        TokView::Word(frags) => {
            let cols = text::line_len(frags);
            let w1 = if w.used > 0 && w.used + cols > width {
                wrap::finished(w)
            } else {
                w
            };
            if cols > width {
                ascii_hard_word(w1, frags, width)
            } else {
                Wrap { out: w1.out, cur: w1.cur + frags, used: w1.used + cols }
            }
        },
    }
}

pub open spec fn ascii_wrap_toks(toks: Seq<TokView>, width: nat) -> Wrap
    decreases toks.len(),
{
    if toks.len() == 0 {
        Wrap { out: seq![], cur: seq![], used: 0 }
    } else {
        ascii_wrap_tok(ascii_wrap_toks(toks.drop_last(), width), toks.last(), width)
    }
}

/// The lines of printable ASCII, word-wrapped at `width` columns (at least one):
/// a character takes one column. There is always at least one line.
pub open spec fn ascii_wrapped(spans: Seq<SpanView>, width: nat) -> Seq<Seq<SpanView>> {
    let w = ascii_wrap_toks(wrap::tokens(spans), wrap::at_least_one(width));
    let out = if w.cur.len() > 0 {
        wrap::finished(w).out
    } else {
        w.out
    };
    if out.len() == 0 {
        seq![seq![]]
    } else {
        out
    }
}

/// Whether every line holds at most `width` characters.
pub open spec fn lines_fit(lines: Seq<Seq<SpanView>>, width: nat) -> bool {
    forall|i: int| 0 <= i < lines.len() ==> text::line_len(#[trigger] lines[i]) <= width
}

/// Whether a character is visible printable ASCII.
pub open spec fn visible(c: char) -> bool {
    '!' <= c <= '~'
}

/// Whether a span is a piece of a word.
pub open spec fn is_piece(s: SpanView) -> bool {
    s.text.len() > 0 && forall|i: int| 0 <= i < s.text.len() ==> visible(#[trigger] s.text[i])
}

/// Whether a span is a space.
pub open spec fn is_space(s: SpanView) -> bool {
    s.text == seq![' ']
}

/// Whether spans are pieces of words and lone spaces between them, the last
/// perhaps a space.
pub open spec fn laid(line: Seq<SpanView>) -> bool {
    &&& forall|i: int| 0 <= i < line.len() ==> is_piece(#[trigger] line[i]) || is_space(line[i])
    &&& forall|i: int|
        0 <= i < line.len() && is_space(#[trigger] line[i]) ==> i > 0 && is_piece(line[i - 1])
}

/// Whether a line is laid out within a width and does not end in a space.
pub open spec fn settled(line: Seq<SpanView>, width: nat) -> bool {
    laid(line) && !wrap::ends_in_space(line) && text::line_len(line) <= width
}

proof fn kinds_differ(s: SpanView)
    ensures
        !(is_piece(s) && is_space(s)),
{
    if is_space(s) {
        assert(s.text[0] == ' ');
    }
}

proof fn len_of_push(line: Seq<SpanView>, s: SpanView)
    ensures
        text::line_len(line.push(s)) == text::line_len(line) + s.text.len(),
{
    assert(line.push(s).drop_last() =~= line);
}

proof fn laid_prefix(line: Seq<SpanView>, n: int)
    requires
        laid(line),
        0 <= n <= line.len(),
    ensures
        laid(line.take(n)),
{
    let p = line.take(n);
    assert forall|i: int| 0 <= i < p.len() implies is_piece(#[trigger] p[i]) || is_space(p[i]) by {
        assert(p[i] == line[i]);
    }
    assert forall|i: int| 0 <= i < p.len() && is_space(#[trigger] p[i]) implies i > 0 && is_piece(
        p[i - 1],
    ) by {
        assert(p[i] == line[i]);
    }
}

proof fn laid_is_wide(line: Seq<SpanView>)
    requires
        laid(line),
    ensures
        text::line_len(line) >= line.len(),
    decreases line.len(),
{
    if line.len() > 0 {
        laid_prefix(line, line.len() - 1);
        assert(line.take(line.len() - 1) =~= line.drop_last());
        laid_is_wide(line.drop_last());
        assert(is_piece(line[line.len() - 1]) || is_space(line[line.len() - 1]));
    }
}

proof fn prefix_is_narrower(line: Seq<SpanView>, n: int)
    requires
        0 <= n <= line.len(),
    ensures
        text::line_len(line.take(n)) <= text::line_len(line),
{
    assert(line =~= line.take(n) + line.skip(n));
    text::line_len_add(line.take(n), line.skip(n));
}

// The tokens of a line that is laid out.

proof fn piece_tokens(toks: Seq<TokView>, s: SpanView, n: int)
    requires
        is_piece(s),
        0 <= n <= s.text.len(),
    ensures
        wrap::tok_chars(toks, s.style, s.text.take(n)) == (toks, s.text.take(n)),
    decreases n,
{
    let t = s.text.take(n);
    if n > 0 {
        piece_tokens(toks, s, n - 1);
        assert(t.drop_last() =~= s.text.take(n - 1));
        assert(visible(s.text[n - 1]));
        assert(t.last() == s.text[n - 1]);
        assert(s.text.take(n - 1).push(s.text[n - 1]) =~= t);
    } else {
        assert(t =~= seq![]);
    }
}

proof fn space_tokens(toks: Seq<TokView>, style: StyleView)
    ensures
        ({
            let (t, b) = wrap::tok_chars(toks, style, seq![' ']);
            b.len() == 0 && t == (if toks.len() > 0 && toks.last() is Word {
                toks.push(TokView::Space(style))
            } else {
                toks
            })
        }),
{
    assert(seq![' '].drop_last() =~= seq![]);
    assert(wrap::tok_chars(toks, style, seq![' '].drop_last()) == (toks, Seq::<char>::empty()));
}

/// What wrapping has come to after the first `k` spans of a line that is laid out
/// within the width: all of them stand on the current line. Where they end in a
/// word, what came before the word is there too.
spec fn rewraps(line: Seq<SpanView>, width: nat, k: int) -> bool {
    let toks = wrap::tokens(line.take(k));
    &&& ascii_wrap_toks(toks, width) == on_line(line, k)
    &&& k == 0 <==> toks.len() == 0
    &&& k > 0 && is_space(line[k - 1]) ==> toks.last() is Space
    &&& k > 0 && is_piece(line[k - 1]) ==> {
        &&& toks.last() is Word
        &&& 0 < toks.last()->Word_0.len() <= k
        &&& toks.last()->Word_0 == line.subrange(k - toks.last()->Word_0.len(), k)
        &&& ascii_wrap_toks(toks.drop_last(), width) == on_line(
            line,
            k - toks.last()->Word_0.len(),
        )
    }
}

/// The first `k` spans of a line, on the current line.
spec fn on_line(line: Seq<SpanView>, k: int) -> Wrap {
    Wrap { out: seq![], cur: line.take(k), used: text::line_len(line.take(k)) }
}

proof fn word_goes_on_line(line: Seq<SpanView>, width: nat, a: int, b: int, w: Wrap)
    requires
        0 <= a < b <= line.len(),
        text::line_len(line) <= width,
        w == on_line(line, a),
    ensures
        ascii_wrap_tok(w, TokView::Word(line.subrange(a, b)), width) == on_line(line, b),
{
    let frags = line.subrange(a, b);
    assert(line.take(b) =~= line.take(a) + frags);
    text::line_len_add(line.take(a), frags);
    prefix_is_narrower(line, b);
}

proof fn rewrap_upto(line: Seq<SpanView>, width: nat, k: int)
    requires
        laid(line),
        text::line_len(line) <= width,
        0 <= k <= line.len(),
    ensures
        rewraps(line, width, k),
    decreases k,
{
    if k == 0 {
        assert(line.take(0) =~= seq![]);
    } else {
        rewrap_upto(line, width, k - 1);
        let s = line[k - 1];
        let before = wrap::tokens(line.take(k - 1));
        assert(line.take(k).drop_last() =~= line.take(k - 1));
        assert(line.take(k).last() == s);
        kinds_differ(s);
        assert(is_piece(s) || is_space(s));
        let toks = wrap::tokens(line.take(k));
        if is_space(s) {
            space_tokens(before, s.style);
            assert(is_piece(line[k - 2]));
            assert(toks == before.push(TokView::Space(s.style)));
            assert(toks.drop_last() =~= before);
            laid_prefix(line, k - 1);
            laid_is_wide(line.take(k - 1));
            len_of_push(line.take(k - 1), s);
            assert(line.take(k - 1).push(s) =~= line.take(k));
            prefix_is_narrower(line, k);
            assert(s == (SpanView { text: seq![' '], style: s.style }));
        } else {
            assert(s.text.take(s.text.len() as int) =~= s.text);
            piece_tokens(before, s, s.text.len() as int);
            assert(s == (SpanView { text: s.text, style: s.style }));
            if k > 1 && is_piece(line[k - 2]) {
                let frags = before.last()->Word_0;
                let a = k - 1 - frags.len();
                assert(toks.drop_last() =~= before.drop_last());
                assert(frags.push(s) =~= line.subrange(a, k));
                word_goes_on_line(
                    line,
                    width,
                    a,
                    k,
                    ascii_wrap_toks(before.drop_last(), width),
                );
            } else {
                if k > 1 {
                    assert(is_piece(line[k - 2]) || is_space(line[k - 2]));
                }
                assert(toks == before.push(TokView::Word(seq![s])));
                assert(toks.drop_last() =~= before);
                assert(seq![s] =~= line.subrange(k - 1, k));
                word_goes_on_line(line, width, k - 1, k, ascii_wrap_toks(before, width));
            }
        }
    }
}

/// A line that is laid out within the width and does not end in a space wraps to
/// itself.
pub proof fn settled_lines_stay(line: Seq<SpanView>, width: nat)
    requires
        settled(line, wrap::at_least_one(width)),
    ensures
        ascii_wrapped(line, width) == seq![line],
{
    let w = wrap::at_least_one(width);
    let n = line.len() as int;
    rewrap_upto(line, w, n);
    assert(line.take(n) =~= line);
    if line.len() > 0 {
        assert(wrap::trim_spaces(line) == line);
        assert(Seq::<Seq<SpanView>>::empty().push(line) =~= seq![line]);
    } else {
        assert(ascii_wrapped(line, width) =~= seq![line]);
    }
}

// The lines that wrapping gives are laid out within the width.

/// Whether a token is a word of visible pieces, a space or a break.
spec fn good_tok(t: TokView) -> bool {
    match t {
        TokView::Word(frags) => frags.len() > 0 && forall|i: int|
            0 <= i < frags.len() ==> is_piece(#[trigger] frags[i]),
        _ => true,
    }
}

/// Whether tokens are good, and every space follows a word.
spec fn good_toks(toks: Seq<TokView>) -> bool {
    &&& forall|i: int| 0 <= i < toks.len() ==> good_tok(#[trigger] toks[i])
    &&& forall|i: int|
        0 <= i < toks.len() && (#[trigger] toks[i]) is Space ==> i > 0 && toks[i - 1] is Word
}

/// Whether spans hold only printable ASCII and line breaks.
pub open spec fn plain_ascii(spans: Seq<SpanView>) -> bool {
    forall|i: int, j: int|
        0 <= i < spans.len() && 0 <= j < spans[i].text.len() ==> (width::printable(
            #[trigger] spans[i].text[j],
        ) || spans[i].text[j] == '\n')
}

spec fn all_visible(s: Seq<char>) -> bool {
    forall|i: int| 0 <= i < s.len() ==> visible(#[trigger] s[i])
}

proof fn good_push(toks: Seq<TokView>, t: TokView)
    requires
        good_toks(toks),
        good_tok(t),
        t is Space ==> toks.len() > 0 && toks.last() is Word,
    ensures
        good_toks(toks.push(t)),
{
    let r = toks.push(t);
    assert forall|i: int| 0 <= i < r.len() implies good_tok(#[trigger] r[i]) by {
        if i < toks.len() {
            assert(r[i] == toks[i]);
        }
    }
    assert forall|i: int| 0 <= i < r.len() && (#[trigger] r[i]) is Space implies i > 0 && r[i - 1]
        is Word by {
        if i < toks.len() {
            assert(r[i] == toks[i]);
        }
    }
}

proof fn good_flush(toks: Seq<TokView>, buf: Seq<char>, style: StyleView)
    requires
        good_toks(toks),
        all_visible(buf),
    ensures
        good_toks(wrap::flushed(toks, buf, style)),
{
    let frag = SpanView { text: buf, style };
    if buf.len() == 0 {
    } else if toks.len() > 0 && toks.last() is Word {
        assert(good_tok(toks[toks.len() - 1]));
        let frags = toks.last()->Word_0;
        let grown = frags.push(frag);
        assert forall|i: int| 0 <= i < grown.len() implies is_piece(#[trigger] grown[i]) by {
            if i < frags.len() {
                assert(grown[i] == frags[i]);
            }
        }
        let rest = toks.drop_last();
        assert forall|i: int| 0 <= i < rest.len() implies good_tok(#[trigger] rest[i]) by {
            assert(rest[i] == toks[i]);
        }
        assert forall|i: int| 0 <= i < rest.len() && (#[trigger] rest[i]) is Space implies i > 0
            && rest[i - 1] is Word by {
            assert(rest[i] == toks[i]);
        }
        good_push(rest, TokView::Word(grown));
    } else {
        let frags = seq![frag];
        assert forall|i: int| 0 <= i < frags.len() implies is_piece(#[trigger] frags[i]) by {}
        good_push(toks, TokView::Word(frags));
    }
}

proof fn good_chars(toks: Seq<TokView>, style: StyleView, chars: Seq<char>)
    requires
        good_toks(toks),
        forall|j: int|
            0 <= j < chars.len() ==> width::printable(#[trigger] chars[j]) || chars[j] == '\n',
    ensures
        good_toks(wrap::tok_chars(toks, style, chars).0),
        all_visible(wrap::tok_chars(toks, style, chars).1),
    decreases chars.len(),
{
    if chars.len() > 0 {
        let d = chars.drop_last();
        assert forall|j: int| 0 <= j < d.len() implies width::printable(#[trigger] d[j]) || d[j]
            == '\n' by {
            assert(d[j] == chars[j]);
        }
        good_chars(toks, style, d);
        let (t, b) = wrap::tok_chars(toks, style, d);
        let c = chars.last();
        assert(width::printable(chars[chars.len() - 1]) || c == '\n');
        good_flush(t, b, style);
        let f = wrap::flushed(t, b, style);
        if c == '\n' {
            good_push(f, TokView::Break);
        } else if strings::is_white(c) {
            if f.len() > 0 && f.last() is Word {
                good_push(f, TokView::Space(style));
            }
        } else {
            assert(c != ' ');
            assert(visible(c));
            let r = b.push(c);
            assert forall|i: int| 0 <= i < r.len() implies visible(#[trigger] r[i]) by {
                if i < b.len() {
                    assert(r[i] == b[i]);
                }
            }
        }
    }
}

proof fn good_tokens(spans: Seq<SpanView>)
    requires
        plain_ascii(spans),
    ensures
        good_toks(wrap::tokens(spans)),
    decreases spans.len(),
{
    if spans.len() > 0 {
        let d = spans.drop_last();
        assert forall|i: int, j: int| 0 <= i < d.len() && 0 <= j < d[i].text.len() implies (
        width::printable(#[trigger] d[i].text[j]) || d[i].text[j] == '\n') by {
            assert(width::printable(spans[i].text[j]) || spans[i].text[j] == '\n');
        }
        good_tokens(d);
        let s = spans.last();
        assert forall|j: int| 0 <= j < s.text.len() implies width::printable(#[trigger] s.text[j])
            || s.text[j] == '\n' by {
            assert(width::printable(spans[spans.len() - 1].text[j])
                || spans[spans.len() - 1].text[j] == '\n');
        }
        good_chars(wrap::tokens(d), s.style, s.text);
        let (t, b) = wrap::tok_chars(wrap::tokens(d), s.style, s.text);
        good_flush(t, b, s.style);
    }
}

/// What holds while tokens are wrapped: finished lines are settled, and the
/// current line is laid out within the width.
spec fn wraps_well(w: Wrap, width: nat) -> bool {
    &&& forall|i: int| 0 <= i < w.out.len() ==> settled(#[trigger] w.out[i], width)
    &&& laid(w.cur)
    &&& w.used == text::line_len(w.cur) <= width
}

proof fn trimmed_is_settled(line: Seq<SpanView>, width: nat)
    requires
        laid(line),
        text::line_len(line) <= width,
    ensures
        settled(wrap::trim_spaces(line), width),
    decreases line.len(),
{
    if line.len() > 0 && line.last().text == seq![' '] {
        laid_prefix(line, line.len() - 1);
        assert(line.take(line.len() - 1) =~= line.drop_last());
        trimmed_is_settled(line.drop_last(), width);
    }
}

proof fn finishing_is_well(w: Wrap, width: nat)
    requires
        wraps_well(w, width),
    ensures
        wraps_well(wrap::finished(w), width),
        wrap::finished(w).cur.len() == 0,
        wrap::finished(w).used == 0,
{
    trimmed_is_settled(w.cur, width);
    let f = wrap::finished(w);
    assert forall|i: int| 0 <= i < f.out.len() implies settled(#[trigger] f.out[i], width) by {
        if i < w.out.len() {
            assert(f.out[i] == w.out[i]);
        }
    }
}

proof fn piece_is_laid(line: Seq<SpanView>, s: SpanView)
    requires
        laid(line),
        is_piece(s),
    ensures
        laid(line.push(s)),
{
    let r = line.push(s);
    kinds_differ(s);
    assert forall|i: int| 0 <= i < r.len() implies is_piece(#[trigger] r[i]) || is_space(r[i]) by {
        if i < line.len() {
            assert(r[i] == line[i]);
        }
    }
    assert forall|i: int| 0 <= i < r.len() && is_space(#[trigger] r[i]) implies i > 0 && is_piece(
        r[i - 1],
    ) by {
        if i < line.len() {
            assert(r[i] == line[i]);
        }
    }
}

proof fn pieces_are_laid(line: Seq<SpanView>, frags: Seq<SpanView>)
    requires
        laid(line),
        forall|i: int| 0 <= i < frags.len() ==> is_piece(#[trigger] frags[i]),
    ensures
        laid(line + frags),
    decreases frags.len(),
{
    if frags.len() == 0 {
        assert(line + frags =~= line);
    } else {
        let d = frags.drop_last();
        assert forall|i: int| 0 <= i < d.len() implies is_piece(#[trigger] d[i]) by {
            assert(d[i] == frags[i]);
        }
        pieces_are_laid(line, d);
        assert(is_piece(frags[frags.len() - 1]));
        piece_is_laid(line + d, frags.last());
        assert(line + frags =~= (line + d).push(frags.last()));
    }
}

/// Whether a line holds pieces of words only.
spec fn unspaced(line: Seq<SpanView>) -> bool {
    forall|i: int| 0 <= i < line.len() ==> is_piece(#[trigger] line[i])
}

proof fn unspaced_is_laid(line: Seq<SpanView>)
    requires
        unspaced(line),
    ensures
        laid(line),
{
    assert forall|i: int| 0 <= i < line.len() && is_space(#[trigger] line[i]) implies i > 0
        && is_piece(line[i - 1]) by {
        kinds_differ(line[i]);
    }
}

proof fn pushing_a_char(line: Seq<SpanView>, c: char, style: StyleView)
    requires
        unspaced(line),
        visible(c),
    ensures
        unspaced(text::push_span(line, SpanView { text: seq![c], style })),
        text::line_len(text::push_span(line, SpanView { text: seq![c], style }))
            == text::line_len(line) + 1,
{
    let s = SpanView { text: seq![c], style };
    assert(is_piece(s)) by {
        assert(seq![c][0] == c);
    }
    let r = text::push_span(line, s);
    if line.len() > 0 && line.last().style == style {
        let last = line[line.len() - 1];
        assert(is_piece(last));
        let grown = SpanView { text: last.text + seq![c], style };
        assert forall|i: int| 0 <= i < grown.text.len() implies visible(
            #[trigger] grown.text[i],
        ) by {
            if i < last.text.len() {
                assert(grown.text[i] == last.text[i]);
            }
        }
        assert(is_piece(grown));
        assert(r == line.drop_last().push(grown));
        len_of_push(line.drop_last(), grown);
        assert forall|i: int| 0 <= i < r.len() implies is_piece(#[trigger] r[i]) by {
            if i < line.len() - 1 {
                assert(r[i] == line[i]);
            }
        }
    } else {
        assert(r == line.push(s));
        len_of_push(line, s);
        assert forall|i: int| 0 <= i < r.len() implies is_piece(#[trigger] r[i]) by {
            if i < line.len() {
                assert(r[i] == line[i]);
            }
        }
    }
}

proof fn hard_chars_are_well(w: Wrap, style: StyleView, chars: Seq<char>, width: nat)
    requires
        width >= 1,
        wraps_well(w, width),
        unspaced(w.cur),
        all_visible(chars),
    ensures
        wraps_well(ascii_hard_chars(w, style, chars, width), width),
        unspaced(ascii_hard_chars(w, style, chars, width).cur),
    decreases chars.len(),
{
    if chars.len() > 0 {
        let d = chars.drop_last();
        assert forall|i: int| 0 <= i < d.len() implies visible(#[trigger] d[i]) by {
            assert(d[i] == chars[i]);
        }
        hard_chars_are_well(w, style, d, width);
        let v = ascii_hard_chars(w, style, d, width);
        let c = chars.last();
        assert(visible(chars[chars.len() - 1]));
        let w1 = if v.used > 0 && v.used + 1 > width {
            wrap::finished(v)
        } else {
            v
        };
        finishing_is_well(v, width);
        assert(unspaced(w1.cur));
        pushing_a_char(w1.cur, c, style);
        let r = ascii_hard_chars(w, style, chars, width);
        assert(r.cur == text::push_span(w1.cur, SpanView { text: seq![c], style }));
        unspaced_is_laid(r.cur);
    }
}

proof fn hard_words_are_well(w: Wrap, frags: Seq<SpanView>, width: nat)
    requires
        width >= 1,
        wraps_well(w, width),
        unspaced(w.cur),
        forall|i: int| 0 <= i < frags.len() ==> is_piece(#[trigger] frags[i]),
    ensures
        wraps_well(ascii_hard_word(w, frags, width), width),
        unspaced(ascii_hard_word(w, frags, width).cur),
    decreases frags.len(),
{
    if frags.len() > 0 {
        let d = frags.drop_last();
        assert forall|i: int| 0 <= i < d.len() implies is_piece(#[trigger] d[i]) by {
            assert(d[i] == frags[i]);
        }
        hard_words_are_well(w, d, width);
        assert(is_piece(frags[frags.len() - 1]));
        let last = frags.last();
        hard_chars_are_well(ascii_hard_word(w, d, width), last.style, last.text, width);
    }
}

proof fn wrapping_is_well(toks: Seq<TokView>, width: nat)
    requires
        width >= 1,
        good_toks(toks),
    ensures
        wraps_well(ascii_wrap_toks(toks, width), width),
        toks.len() > 0 && !(toks.last() is Space) ==> !wrap::ends_in_space(
            ascii_wrap_toks(toks, width).cur,
        ),
    decreases toks.len(),
{
    if toks.len() > 0 {
        let d = toks.drop_last();
        assert forall|i: int| 0 <= i < d.len() implies good_tok(#[trigger] d[i]) by {
            assert(d[i] == toks[i]);
        }
        assert forall|i: int| 0 <= i < d.len() && (#[trigger] d[i]) is Space implies i > 0
            && d[i - 1] is Word by {
            assert(d[i] == toks[i]);
        }
        wrapping_is_well(d, width);
        let w = ascii_wrap_toks(d, width);
        let tok = toks[toks.len() - 1];
        assert(good_tok(tok));
        finishing_is_well(w, width);
        laid_is_wide(w.cur);
        match tok {
            TokView::Break => {},
            TokView::Space(style) => {
                assert(toks[toks.len() - 2] is Word);
                assert(d.last() is Word);
                if 0 < w.used < width {
                    let s = SpanView { text: seq![' '], style };
                    space_is_laid(w.cur, s);
                    len_of_push(w.cur, s);
                }
            },
            TokView::Word(frags) => {
                let cols = text::line_len(frags);
                let w1 = if w.used > 0 && w.used + cols > width {
                    wrap::finished(w)
                } else {
                    w
                };
                if cols > width {
                    laid_is_wide(w1.cur);
                    assert(w1.cur.len() == 0);
                    hard_words_are_well(w1, frags, width);
                    let r = ascii_hard_word(w1, frags, width);
                    if r.cur.len() > 0 {
                        assert(is_piece(r.cur[r.cur.len() - 1]));
                        kinds_differ(r.cur.last());
                    }
                } else {
                    pieces_are_laid(w1.cur, frags);
                    text::line_len_add(w1.cur, frags);
                    assert(is_piece(frags[frags.len() - 1]));
                    kinds_differ(frags.last());
                    assert((w1.cur + frags).last() == frags.last());
                }
            },
        }
    }
}

proof fn space_is_laid(line: Seq<SpanView>, s: SpanView)
    requires
        laid(line),
        line.len() > 0,
        !wrap::ends_in_space(line),
        is_space(s),
    ensures
        laid(line.push(s)),
{
    let r = line.push(s);
    assert(is_piece(line[line.len() - 1]) || is_space(line[line.len() - 1]));
    assert forall|i: int| 0 <= i < r.len() implies is_piece(#[trigger] r[i]) || is_space(r[i]) by {
        if i < line.len() {
            assert(r[i] == line[i]);
        }
    }
    assert forall|i: int| 0 <= i < r.len() && is_space(#[trigger] r[i]) implies i > 0 && is_piece(
        r[i - 1],
    ) by {
        if i < line.len() {
            assert(r[i] == line[i]);
        } else {
            assert(r[i - 1] == line[i - 1]);
        }
    }
}

/// Whether a line starts with a space.
pub open spec fn starts_in_space(line: Seq<SpanView>) -> bool {
    line.len() > 0 && line[0].text.len() > 0 && line[0].text[0] == ' '
}

/// The words of printable ASCII are printable.
pub proof fn ascii_words(spans: Seq<SpanView>)
    requires
        plain_ascii(spans),
    ensures
        forall|i: int|
            0 <= i < wrap::tokens(spans).len() ==> match #[trigger] wrap::tokens(spans)[i] {
                TokView::Word(frags) => text::all_printable(frags),
                _ => true,
            },
{
    good_tokens(spans);
    let toks = wrap::tokens(spans);
    assert forall|i: int| 0 <= i < toks.len() implies match #[trigger] toks[i] {
        TokView::Word(frags) => text::all_printable(frags),
        _ => true,
    } by {
        assert(good_tok(toks[i]));
        if let TokView::Word(frags) = toks[i] {
            assert forall|k: int| 0 <= k < frags.len() implies width::printable_text(
                (#[trigger] frags[k]).text,
            ) by {
                assert(is_piece(frags[k]));
                assert forall|j: int| 0 <= j < frags[k].text.len() implies width::printable(
                    #[trigger] frags[k].text[j],
                ) by {
                    assert(visible(frags[k].text[j]));
                }
            }
        }
    }
}

/// The line that printable ASCII is being laid out on has its characters counted,
/// and does not end in a space behind a word.
pub proof fn ascii_lines_are_counted(spans: Seq<SpanView>, width: nat)
    requires
        plain_ascii(spans),
        width >= 1,
    ensures
        ({
            let toks = wrap::tokens(spans);
            let w = ascii_wrap_toks(toks, width);
            &&& w.used == text::line_len(w.cur)
            &&& toks.len() > 0 && toks.last() is Word ==> !wrap::ends_in_space(w.cur)
        }),
{
    good_tokens(spans);
    wrapping_is_well(wrap::tokens(spans), width);
}

/// Printable ASCII wraps for good: there is a line at least, no line holds more
/// characters than asked for, starts or ends in a space, and every line is
/// printable ASCII that wraps to itself.
pub proof fn ascii_wraps_for_good(spans: Seq<SpanView>, width: nat)
    requires
        plain_ascii(spans),
    ensures
        ascii_wrapped(spans, width).len() >= 1,
        lines_fit(ascii_wrapped(spans, width), wrap::at_least_one(width)),
        forall|i: int|
            #![trigger ascii_wrapped(spans, width)[i]]
            0 <= i < ascii_wrapped(spans, width).len() ==> {
                let line = ascii_wrapped(spans, width)[i];
                &&& !starts_in_space(line)
                &&& !wrap::ends_in_space(line)
                &&& text::all_printable(line)
                &&& plain_ascii(line)
                &&& ascii_wrapped(line, width) == seq![line]
            },
{
    let n = wrap::at_least_one(width);
    let toks = wrap::tokens(spans);
    good_tokens(spans);
    wrapping_is_well(toks, n);
    let w = ascii_wrap_toks(toks, n);
    finishing_is_well(w, n);
    let all = ascii_wrapped(spans, width);
    assert forall|i: int| 0 <= i < all.len() implies settled(#[trigger] all[i], n) by {
        if w.cur.len() > 0 {
            assert(all == wrap::finished(w).out);
        } else if w.out.len() > 0 {
            assert(all == w.out);
        } else {
            assert(all[i].len() == 0);
        }
    }
    assert forall|i: int| #![trigger all[i]] 0 <= i < all.len() implies {
        let line = all[i];
        &&& !starts_in_space(line)
        &&& !wrap::ends_in_space(line)
        &&& text::all_printable(line)
        &&& plain_ascii(line)
        &&& ascii_wrapped(line, width) == seq![line]
    } by {
        let line = all[i];
        assert(settled(line, n));
        settled_lines_stay(line, width);
        assert forall|k: int| 0 <= k < line.len() implies width::printable_text(
            (#[trigger] line[k]).text,
        ) by {
            assert(is_piece(line[k]) || is_space(line[k]));
            assert forall|j: int| 0 <= j < line[k].text.len() implies width::printable(
                #[trigger] line[k].text[j],
            ) by {
                if is_piece(line[k]) {
                    assert(visible(line[k].text[j]));
                }
            }
        }
        assert forall|k: int, j: int|
            0 <= k < line.len() && 0 <= j < line[k].text.len() implies (width::printable(
            #[trigger] line[k].text[j],
        ) || line[k].text[j] == '\n') by {
            assert(width::printable_text(line[k].text));
        }
        if line.len() > 0 {
            assert(is_piece(line[0]) || is_space(line[0]));
            if is_piece(line[0]) {
                assert(visible(line[0].text[0]));
            }
        }
    }
}

} // verus!
