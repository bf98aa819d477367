//! Layout of styled spans: greedy word wrapping, and truncation to a column
//! budget.

use vstd::prelude::*;
use crate::rewrap;
use crate::strings;
use crate::strings::to_chars;
use crate::text;
use crate::text::{Span, SpanView, Style, StyleView, total_width};
use crate::width;
use crate::width::{char_cols, measure};

verus! {

broadcast use strings::group_views;

/// A unit of wrapping: a word (possibly in several styles), the space between
/// two words, or a forced line break.
pub enum Tok {
    Word(Vec<Span>),
    Space(Style),
    Break,
}

pub enum TokView {
    Word(Seq<SpanView>),
    Space(StyleView),
    Break,
}

impl View for Tok {
    type V = TokView;

    open spec fn view(&self) -> TokView {
        match self {
            Tok::Word(frags) => TokView::Word(strings::views(frags@)),
            Tok::Space(style) => TokView::Space(style@),
            Tok::Break => TokView::Break,
        }
    }
}

/// The tokens after the pending text `buf` was added to the word at their end,
/// or began a new one.
pub open spec fn flushed(toks: Seq<TokView>, buf: Seq<char>, style: StyleView) -> Seq<TokView> {
    let frag = SpanView { text: buf, style };
    if buf.len() == 0 {
        toks
    } else if toks.len() > 0 && toks.last() is Word {
        toks.drop_last().push(TokView::Word(toks.last()->Word_0.push(frag)))
    } else {
        toks.push(TokView::Word(seq![frag]))
    }
}

/// Tokens and pending text after one more character.
pub open spec fn tok_char(
    toks: Seq<TokView>,
    buf: Seq<char>,
    style: StyleView,
    c: char,
) -> (Seq<TokView>, Seq<char>) {
    if c == '\n' {
        (flushed(toks, buf, style).push(TokView::Break), seq![])
    } else if strings::is_white(c) {
        let t = flushed(toks, buf, style);
        if t.len() > 0 && t.last() is Word {
            (t.push(TokView::Space(style)), seq![])
        } else {
            (t, seq![])
        }
    } else {
        (toks, buf.push(c))
    }
}

/// Tokens and pending text after the characters of one span.
pub open spec fn tok_chars(toks: Seq<TokView>, style: StyleView, chars: Seq<char>) -> (
    Seq<TokView>,
    Seq<char>,
)
    decreases chars.len(),
{
    if chars.len() == 0 {
        (toks, seq![])
    } else {
        let (t, b) = tok_chars(toks, style, chars.drop_last());
        tok_char(t, b, style, chars.last())
    }
}

/// The tokens of a run of spans. Runs of whitespace become one space, which
/// stands only after a word; text on both sides of a style boundary, with no
/// whitespace between, is one word.
pub open spec fn tokens(spans: Seq<SpanView>) -> Seq<TokView>
    decreases spans.len(),
{
    if spans.len() == 0 {
        seq![]
    } else {
        let s = spans.last();
        let (t, b) = tok_chars(tokens(spans.drop_last()), s.style, s.text);
        flushed(t, b, s.style)
    }
}

/// Moves the pending text `buf` into the tokens.
pub fn flush_frag(toks: &mut Vec<Tok>, buf: &mut String, style: &Style)
    ensures
        strings::views(final(toks)@) == flushed(strings::views(old(toks)@), old(buf)@, style@),
        final(buf)@ == Seq::<char>::empty(),
{
    if buf.as_str().is_empty() {
        assert(buf@ =~= Seq::<char>::empty());
        return ;
    }
    let frag = Span { text: buf.clone(), style: style.clone() };
    *buf = String::new();
    let ghost before = toks@;
    let last = toks.pop();
    match last {
        Some(Tok::Word(frags)) => {
            assert(strings::views(before).last() == before.last()@);
            assert(strings::views(toks@) =~= strings::views(before).drop_last());
            let ghost old_frags = frags@;
            let mut frags = frags;
            frags.push(frag);
            assert(strings::views(frags@) =~= strings::views(old_frags).push(frag@));
            toks.push(Tok::Word(frags));
        },
        Some(other) => {
            assert(strings::views(before).last() == before.last()@);
            toks.push(other);
            assert(toks@ =~= before);
            let word = strings::one(frag);
            assert(strings::views(word@) =~= seq![frag@]);
            toks.push(Tok::Word(word));
        },
        None => {
            let word = strings::one(frag);
            assert(strings::views(word@) =~= seq![frag@]);
            toks.push(Tok::Word(word));
        },
    }
}

/// Splits spans into words, spaces and line breaks.
pub fn tokenize(spans: &[Span]) -> (r: Vec<Tok>)
    ensures
        strings::views(r@) == tokens(strings::views(spans@)),
{
    let mut toks: Vec<Tok> = Vec::new();
    let ghost vs = strings::views(spans@);
    let mut i: usize = 0;
    assert(vs.take(0) =~= seq![]);
    while i < spans.len()
        invariant
            i <= spans@.len(),
            vs == strings::views(spans@),
            strings::views(toks@) == tokens(vs.take(i as int)),
        decreases spans@.len() - i,
    {
        let span: &Span = &spans[i];
        let chars = to_chars(span.text.as_str());
        let ghost start = strings::views(toks@);
        let mut buf = String::new();
        let mut j: usize = 0;
        assert(chars@.take(0) =~= seq![]);
        while j < chars.len()
            invariant
                j <= chars@.len(),
                (strings::views(toks@), buf@) == tok_chars(start, span.style@, chars@.take(j as int)),
            decreases chars@.len() - j,
        {
            let c = chars[j];
            assert(chars@.take(j + 1).drop_last() =~= chars@.take(j as int));
            if c == '\n' {
                flush_frag(&mut toks, &mut buf, &span.style);
                toks.push(Tok::Break);
            } else if c.is_whitespace() {
                flush_frag(&mut toks, &mut buf, &span.style);
                let n: usize = toks.len();
                let after_word = n > 0 && matches!(toks[n - 1], Tok::Word(_));
                assert(n > 0 ==> strings::views(toks@).last() == toks@[n - 1]@);
                if after_word {
                    toks.push(Tok::Space(span.style.clone()));
                }
            } else {
                buf.push(c);
            }
            j = j + 1;
        }
        assert(chars@.take(j as int) =~= chars@);
        flush_frag(&mut toks, &mut buf, &span.style);
        assert(vs.take(i + 1).drop_last() =~= vs.take(i as int));
        assert(vs.take(i + 1).last() == span@);
        i = i + 1;
    }
    assert(vs.take(i as int) =~= vs);
    toks
}

/// A wrap in progress: the finished lines, the line being filled, and the
/// columns counted on it.
#[verifier::ext_equal]
pub struct Wrap {
    pub out: Seq<Seq<SpanView>>,
    pub cur: Seq<SpanView>,
    pub used: nat,
}

/// A line without the space spans at its end.
pub open spec fn trim_spaces(line: Seq<SpanView>) -> Seq<SpanView>
    decreases line.len(),
{
    if line.len() > 0 && line.last().text == seq![' '] {
        trim_spaces(line.drop_last())
    } else {
        line
    }
}

/// The current line is finished and a new one begins.
pub open spec fn finished(w: Wrap) -> Wrap {
    Wrap { out: w.out.push(trim_spaces(w.cur)), cur: seq![], used: 0 }
}

/// One character of a word too long for any line.
pub open spec fn hard_char(w: Wrap, style: StyleView, c: char, width: nat) -> Wrap {
    let w1 = if w.used > 0 && w.used + width::cols(c) > width {
        finished(w)
    } else {
        w
    };
    Wrap {
        out: w1.out,
        cur: text::push_span(w1.cur, SpanView { text: seq![c], style }),
        used: w1.used + width::cols(c),
    }
}

pub open spec fn hard_chars(w: Wrap, style: StyleView, chars: Seq<char>, width: nat) -> Wrap
    decreases chars.len(),
{
    if chars.len() == 0 {
        w
    } else {
        hard_char(hard_chars(w, style, chars.drop_last(), width), style, chars.last(), width)
    }
}

/// A word too long for any line, broken wherever the line is full.
pub open spec fn hard_word(w: Wrap, frags: Seq<SpanView>, width: nat) -> Wrap
    decreases frags.len(),
{
    if frags.len() == 0 {
        w
    } else {
        hard_chars(
            hard_word(w, frags.drop_last(), width),
            frags.last().style,
            frags.last().text,
            width,
        )
    }
}

/// One more token laid out. A word that does not fit behind what is already on
/// the line goes to the next line; a space is kept only inside a line.
pub open spec fn wrap_tok(w: Wrap, tok: TokView, width: nat) -> Wrap {
    match tok {
        TokView::Break => finished(w),
        TokView::Space(style) => if 0 < w.used < width {
            Wrap {
                out: w.out,
                cur: w.cur.push(SpanView { text: seq![' '], style }),
                used: w.used + 1,
            }
        } else {
            w
        },
        TokView::Word(frags) => {
            let cols = text::line_width(frags);
            let w1 = if w.used > 0 && w.used + cols > width {
                finished(w)
            } else {
                w
            };
            if cols > width {
                hard_word(w1, frags, width)
            } else {
                Wrap { out: w1.out, cur: w1.cur + frags, used: w1.used + cols }
            }
        },
    }
}

pub open spec fn wrap_toks(toks: Seq<TokView>, width: nat) -> Wrap
    decreases toks.len(),
{
    if toks.len() == 0 {
        Wrap { out: seq![], cur: seq![], used: 0 }
    } else {
        wrap_tok(wrap_toks(toks.drop_last(), width), toks.last(), width)
    }
}

/// The width that text is wrapped at when `width` is asked for.
pub open spec fn at_least_one(width: nat) -> nat {
    if width < 1 {
        1
    } else {
        width
    }
}

/// The lines of `spans`, word-wrapped at `width` columns (at least one). There
/// is always at least one line.
pub open spec fn wrapped(spans: Seq<SpanView>, width: nat) -> Seq<Seq<SpanView>> {
    let w = wrap_toks(tokens(spans), at_least_one(width));
    let out = if w.cur.len() > 0 {
        finished(w).out
    } else {
        w.out
    };
    if out.len() == 0 {
        seq![seq![]]
    } else {
        out
    }
}

/// Ends the line being filled.
fn finish(out: &mut Vec<Vec<Span>>, cur: &mut Vec<Span>)
    ensures
        strings::views2(final(out)@) == strings::views2(old(out)@).push(
            trim_spaces(strings::views(old(cur)@)),
        ),
        final(cur)@ == Seq::<Span>::empty(),
{
    let mut line: Vec<Span> = Vec::new();
    std::mem::swap(&mut line, cur);
    let ghost start = strings::views(line@);
    let mut more = true;
    while more
        invariant
            trim_spaces(strings::views(line@)) == trim_spaces(start),
            !more ==> strings::views(line@) == trim_spaces(start),
        decreases line@.len(), more as int,
    {
        let n: usize = line.len();
        proof {
            reveal_strlit(" ");
            assert(" "@ =~= seq![' ']);
            assert(n > 0 ==> strings::views(line@).last() == line@[n - 1]@);
        }
        if n > 0 && strings::str_eq(line[n - 1].text.as_str(), " ") {
            line.pop();
        } else {
            more = false;
        }
    }
    out.push(line);
}

/// Lays out a word too long for any line.
fn hard_break(
    out: &mut Vec<Vec<Span>>,
    cur: &mut Vec<Span>,
    used: usize,
    frags: &Vec<Span>,
    width: usize,
) -> (r: usize)
    ensures
        ({
            let w = hard_word(
                Wrap {
                    out: strings::views2(old(out)@),
                    cur: strings::views(old(cur)@),
                    used: used as nat,
                },
                strings::views(frags@),
                width as nat,
            );
            &&& strings::views2(final(out)@) == w.out
            &&& strings::views(final(cur)@) == w.cur
            &&& r == w.used
            &&& text::all_printable(strings::views(frags@)) ==> w == rewrap::ascii_hard_word(
                Wrap {
                    out: strings::views2(old(out)@),
                    cur: strings::views(old(cur)@),
                    used: used as nat,
                },
                strings::views(frags@),
                width as nat,
            )
        }),
{
    let ghost w0 = Wrap {
        out: strings::views2(out@),
        cur: strings::views(cur@),
        used: used as nat,
    };
    let ghost vs = strings::views(frags@);
    let mut used: usize = used;
    let mut i: usize = 0;
    assert(vs.take(0) =~= seq![]);
    while i < frags.len()
        invariant
            i <= frags@.len(),
            vs == strings::views(frags@),
            (Wrap { out: strings::views2(out@), cur: strings::views(cur@), used: used as nat })
                == hard_word(w0, vs.take(i as int), width as nat),
            text::all_printable(vs) ==> hard_word(w0, vs.take(i as int), width as nat)
                == rewrap::ascii_hard_word(w0, vs.take(i as int), width as nat),
        decreases frags@.len() - i,
    {
        let frag: &Span = &frags[i];
        let chars = to_chars(frag.text.as_str());
        let ghost w1 = Wrap {
            out: strings::views2(out@),
            cur: strings::views(cur@),
            used: used as nat,
        };
        let mut j: usize = 0;
        assert(chars@.take(0) =~= seq![]);
        while j < chars.len()
            invariant
                j <= chars@.len(),
                (Wrap { out: strings::views2(out@), cur: strings::views(cur@), used: used as nat })
                    == hard_chars(w1, frag.style@, chars@.take(j as int), width as nat),
                width::printable_text(chars@) ==> hard_chars(
                    w1,
                    frag.style@,
                    chars@.take(j as int),
                    width as nat,
                ) == rewrap::ascii_hard_chars(
                    w1,
                    frag.style@,
                    chars@.take(j as int),
                    width as nat,
                ),
            decreases chars@.len() - j,
        {
            let c = chars[j];
            assert(chars@.take(j + 1).drop_last() =~= chars@.take(j as int));
            let cw: usize = char_cols(c);
            if used > 0 && (used > width || cw > width - used) {
                finish(out, cur);
                used = 0;
            }
            push_char(cur, c, &frag.style);
            used = used + cw;
            j = j + 1;
        }
        assert(chars@.take(j as int) =~= chars@);
        assert(vs.take(i + 1).drop_last() =~= vs.take(i as int));
        assert(vs.take(i + 1).last() == frag@);
        i = i + 1;
    }
    assert(vs.take(i as int) =~= vs);
    used
}

/// Adds one character to the end of a line.
fn push_char(cur: &mut Vec<Span>, c: char, style: &Style)
    ensures
        strings::views(final(cur)@) == text::push_span(
            strings::views(old(cur)@),
            SpanView { text: seq![c], style: style@ },
        ),
{
    let n: usize = cur.len();
    if n > 0 && cur[n - 1].style.same(style) {
        let ghost before = cur@;
        let mut last = cur.pop().unwrap();
        last.text.push(c);
        cur.push(last);
        assert(strings::views(before).last() == before.last()@);
        assert(before.last()@.text.push(c) =~= before.last()@.text + seq![c]);
    } else {
        let mut t = String::new();
        t.push(c);
        assert(t@ =~= seq![c]);
        assert(n > 0 ==> strings::views(cur@).last() == cur@[n - 1]@);
        cur.push(Span { text: t, style: style.clone() });
    }
}

/// Greedy word-wrap over styled spans. Words split across style boundaries
/// stay glued together; words longer than the width are hard-broken.
pub fn wrap_spans(spans: &[Span], width: usize) -> (r: Vec<Vec<Span>>)
    ensures
        strings::views2(r@) == wrapped(strings::views(spans@), width as nat),
        words_fit(strings::views(spans@), at_least_one(width as nat)) ==> lines_fit(
            strings::views2(r@),
            at_least_one(width as nat),
        ),
        rewrap::plain_ascii(strings::views(spans@)) ==> strings::views2(r@)
            == rewrap::ascii_wrapped(strings::views(spans@), width as nat),
{
    let ghost asked = width as nat;
    let width: usize = if width < 1 {
        1
    } else {
        width
    };
    let space: usize = measure(" ");
    proof {
        reveal_strlit(" ");
        assert(" "@ =~= seq![' ']);
    }
    let mut out: Vec<Vec<Span>> = Vec::new();
    let mut cur: Vec<Span> = Vec::new();
    let mut used: usize = 0;
    let toks = tokenize(spans);
    let ghost ts = strings::views(toks@);
    let ghost ascii = rewrap::plain_ascii(strings::views(spans@));
    proof {
        if ascii {
            rewrap::ascii_words(strings::views(spans@));
        }
    }
    let mut i: usize = 0;
    assert(ts.take(0) =~= seq![]);
    while i < toks.len()
        invariant
            i <= toks@.len(),
            space == 1,
            ts == strings::views(toks@),
            (Wrap { out: strings::views2(out@), cur: strings::views(cur@), used: used as nat })
                == wrap_toks(ts.take(i as int), width as nat),
            ascii ==> forall|k: int|
                0 <= k < ts.len() ==> match #[trigger] ts[k] {
                    TokView::Word(frags) => text::all_printable(frags),
                    _ => true,
                },
            ascii ==> wrap_toks(ts.take(i as int), width as nat) == rewrap::ascii_wrap_toks(
                ts.take(i as int),
                width as nat,
            ),
        decreases toks@.len() - i,
    {
        assert(ts.take(i + 1).drop_last() =~= ts.take(i as int));
        assert(ts.take(i + 1).last() == toks@[i as int]@);
        assert(ts[i as int] == toks@[i as int]@);
        match &toks[i] {
            Tok::Break => {
                finish(&mut out, &mut cur);
                used = 0;
            },
            Tok::Space(style) => {
                if used > 0 && used < width {
                    proof {
                        reveal_strlit(" ");
                        assert(" "@ =~= seq![' ']);
                    }
                    cur.push(Span::new(" ", style.clone()));
                    used = used + space;
                }
            },
            Tok::Word(frags) => {
                let w: u128 = total_width(frags);
                assert(frags.len() <= usize::MAX);
                if used > 0 && used as u128 + w > width as u128 {
                    finish(&mut out, &mut cur);
                    used = 0;
                }
                if w > width as u128 {
                    used = hard_break(&mut out, &mut cur, used, frags, width);
                } else {
                    let mut word = text::clone_spans(frags);
                    cur.append(&mut word);
                    used = used + w as usize;
                }
            },
        }
        i = i + 1;
    }
    assert(ts.take(i as int) =~= ts);
    if cur.len() > 0 {
        finish(&mut out, &mut cur);
    }
    if out.len() == 0 {
        out.push(Vec::new());
    }
    assert(strings::views2(out@).len() == out@.len());
    proof {
        if words_fit(strings::views(spans@), at_least_one(asked)) {
            wrapping_fits(strings::views(spans@), asked);
        }
    }
    out
}

/// Whether every word of `spans` takes at most `width` columns.
pub open spec fn words_fit(spans: Seq<SpanView>, width: nat) -> bool {
    forall|i: int|
        0 <= i < tokens(spans).len() ==> match #[trigger] tokens(spans)[i] {
            TokView::Word(frags) => text::line_width(frags) <= width,
            _ => true,
        }
}

/// Whether every line takes at most `width` columns.
pub open spec fn lines_fit(lines: Seq<Seq<SpanView>>, width: nat) -> bool {
    forall|i: int| 0 <= i < lines.len() ==> text::line_width(#[trigger] lines[i]) <= width
}

proof fn width_of_sum(a: Seq<SpanView>, b: Seq<SpanView>)
    ensures
        text::line_width(a + b) == text::line_width(a) + text::line_width(b),
    decreases b.len(),
{
    if b.len() == 0 {
        assert(a + b =~= a);
    } else {
        assert((a + b).drop_last() =~= a + b.drop_last());
        width_of_sum(a, b.drop_last());
    }
}

proof fn trimming_narrows(line: Seq<SpanView>)
    ensures
        text::line_width(trim_spaces(line)) <= text::line_width(line),
    decreases line.len(),
{
    if line.len() > 0 && line.last().text == seq![' '] {
        trimming_narrows(line.drop_last());
    }
}

proof fn wrapping_toks_fits(toks: Seq<TokView>, width: nat)
    requires
        width >= 1,
        width::str_width(seq![' ']) == 1,
        forall|i: int|
            0 <= i < toks.len() ==> match #[trigger] toks[i] {
                TokView::Word(frags) => text::line_width(frags) <= width,
                _ => true,
            },
    ensures
        lines_fit(wrap_toks(toks, width).out, width),
        wrap_toks(toks, width).used == text::line_width(wrap_toks(toks, width).cur),
        wrap_toks(toks, width).used <= width,
    decreases toks.len(),
{
    if toks.len() > 0 {
        wrapping_toks_fits(toks.drop_last(), width);
        let w = wrap_toks(toks.drop_last(), width);
        assert(toks.last() == toks[toks.len() - 1]);
        trimming_narrows(w.cur);
        match toks.last() {
            TokView::Break => {},
            TokView::Space(style) => {
                let s = SpanView { text: seq![' '], style };
                assert(w.cur.push(s).drop_last() =~= w.cur);
            },
            TokView::Word(frags) => {
                width_of_sum(w.cur, frags);
                width_of_sum(seq![], frags);
            },
        }
    }
}

/// Where a space takes one column and every word fits the width, every line of
/// the wrapped text fits the width too.
pub proof fn wrapping_fits(spans: Seq<SpanView>, width: nat)
    requires
        width::str_width(seq![' ']) == 1,
        words_fit(spans, at_least_one(width)),
    ensures
        lines_fit(wrapped(spans, width), at_least_one(width)),
{
    wrapping_toks_fits(tokens(spans), at_least_one(width));
    trimming_narrows(wrap_toks(tokens(spans), at_least_one(width)).cur);
}

/// The columns of a line when each of its characters is laid out on its own.
pub open spec fn line_cols(line: Seq<SpanView>) -> nat
    decreases line.len(),
{
    if line.len() == 0 {
        0
    } else {
        line_cols(line.drop_last()) + width::run_cols(line.last().text)
    }
}

proof fn trimming_narrows_cols(line: Seq<SpanView>)
    ensures
        line_cols(trim_spaces(line)) <= line_cols(line),
    decreases line.len(),
{
    if line.len() > 0 && line.last().text == seq![' '] {
        trimming_narrows_cols(line.drop_last());
    }
}

proof fn pushing_adds_cols(line: Seq<SpanView>, span: SpanView)
    ensures
        line_cols(text::push_span(line, span)) == line_cols(line) + width::run_cols(span.text),
{
    let r = text::push_span(line, span);
    if span.text.len() == 0 {
    } else if line.len() > 0 && line.last().style == span.style {
        assert(r.drop_last() =~= line.drop_last());
        width::run_cols_add(line.last().text, span.text);
    } else {
        assert(r.drop_last() =~= line);
    }
}

/// Whether every line takes at most `width` columns, counted by character.
pub open spec fn lines_fit_cols(lines: Seq<Seq<SpanView>>, width: nat) -> bool {
    forall|i: int| 0 <= i < lines.len() ==> line_cols(#[trigger] lines[i]) <= width
}

/// Whether no single character is wider than `width`.
pub open spec fn chars_fit(spans: Seq<SpanView>, width: nat) -> bool {
    forall|i: int, j: int|
        0 <= i < spans.len() && 0 <= j < spans[i].text.len() ==> width::cols(
            #[trigger] spans[i].text[j],
        ) <= width
}

proof fn hard_chars_fit(w: Wrap, style: StyleView, chars: Seq<char>, width: nat)
    requires
        lines_fit_cols(w.out, width),
        w.used == line_cols(w.cur) <= width,
        forall|j: int| 0 <= j < chars.len() ==> width::cols(#[trigger] chars[j]) <= width,
    ensures
        lines_fit_cols(hard_chars(w, style, chars, width).out, width),
        hard_chars(w, style, chars, width).used == line_cols(
            hard_chars(w, style, chars, width).cur,
        ) <= width,
    decreases chars.len(),
{
    if chars.len() > 0 {
        hard_chars_fit(w, style, chars.drop_last(), width);
        let v = hard_chars(w, style, chars.drop_last(), width);
        let c = chars.last();
        assert(c == chars[chars.len() - 1]);
        trimming_narrows_cols(v.cur);
        let s = SpanView { text: seq![c], style };
        assert(seq![c].drop_last() =~= seq![]);
        assert(width::run_cols(seq![c]) == width::cols(c)) by {
            assert(width::run_cols(seq![c].drop_last()) == 0);
        }
        pushing_adds_cols(v.cur, s);
        pushing_adds_cols(seq![], s);
        assert(line_cols(seq![]) == 0);
    }
}

/// Where no single character is wider than the width, no line of a hard-broken
/// word is, counted by character.
pub proof fn hard_breaking_fits(w: Wrap, frags: Seq<SpanView>, width: nat)
    requires
        lines_fit_cols(w.out, width),
        w.used == line_cols(w.cur) <= width,
        chars_fit(frags, width),
    ensures
        lines_fit_cols(hard_word(w, frags, width).out, width),
        hard_word(w, frags, width).used == line_cols(hard_word(w, frags, width).cur) <= width,
    decreases frags.len(),
{
    if frags.len() > 0 {
        let rest = frags.drop_last();
        assert forall|i: int, j: int|
            0 <= i < rest.len() && 0 <= j < rest[i].text.len() implies width::cols(
            #[trigger] rest[i].text[j],
        ) <= width by {
            assert(rest[i] == frags[i]);
            assert(width::cols(frags[i].text[j]) <= width);
        }
        hard_breaking_fits(w, rest, width);
        let last = frags.last();
        assert forall|j: int| 0 <= j < last.text.len() implies width::cols(
            #[trigger] last.text[j],
        ) <= width by {
            assert(width::cols(frags[frags.len() - 1].text[j]) <= width);
        }
        hard_chars_fit(hard_word(w, rest, width), last.style, last.text, width);
    }
}

/// The visible characters of a run of text, each with its style.
pub open spec fn ink_chars(chars: Seq<char>, style: StyleView) -> Seq<(char, StyleView)>
    decreases chars.len(),
{
    if chars.len() == 0 {
        seq![]
    } else if strings::is_white(chars.last()) {
        ink_chars(chars.drop_last(), style)
    } else {
        ink_chars(chars.drop_last(), style).push((chars.last(), style))
    }
}

/// The visible characters of a run of spans, each with its style.
pub open spec fn ink(spans: Seq<SpanView>) -> Seq<(char, StyleView)>
    decreases spans.len(),
{
    if spans.len() == 0 {
        seq![]
    } else {
        ink(spans.drop_last()) + ink_chars(spans.last().text, spans.last().style)
    }
}

/// The visible characters of lines, each with its style.
pub open spec fn ink_lines(lines: Seq<Seq<SpanView>>) -> Seq<(char, StyleView)>
    decreases lines.len(),
{
    if lines.len() == 0 {
        seq![]
    } else {
        ink_lines(lines.drop_last()) + ink(lines.last())
    }
}

spec fn ink_toks(toks: Seq<TokView>) -> Seq<(char, StyleView)>
    decreases toks.len(),
{
    if toks.len() == 0 {
        seq![]
    } else {
        ink_toks(toks.drop_last()) + match toks.last() {
            TokView::Word(frags) => ink(frags),
            _ => seq![],
        }
    }
}

/// The visible characters of two runs of spans add up.
pub proof fn ink_of_sum(a: Seq<SpanView>, b: Seq<SpanView>)
    ensures
        ink(a + b) == ink(a) + ink(b),
    decreases b.len(),
{
    if b.len() == 0 {
        assert(a + b =~= a);
        assert(ink(a) + ink(b) =~= ink(a));
    } else {
        assert((a + b).drop_last() =~= a + b.drop_last());
        ink_of_sum(a, b.drop_last());
        let last = ink_chars(b.last().text, b.last().style);
        assert(ink(a) + ink(b.drop_last()) + last =~= ink(a) + (ink(b.drop_last()) + last));
    }
}

proof fn ink_of_char_sum(a: Seq<char>, b: Seq<char>, style: StyleView)
    ensures
        ink_chars(a + b, style) == ink_chars(a, style) + ink_chars(b, style),
    decreases b.len(),
{
    if b.len() == 0 {
        assert(a + b =~= a);
        assert(ink_chars(a, style) + ink_chars(b, style) =~= ink_chars(a, style));
    } else {
        assert((a + b).drop_last() =~= a + b.drop_last());
        ink_of_char_sum(a, b.drop_last(), style);
        assert(ink_chars(a + b, style) =~= ink_chars(a, style) + ink_chars(b, style));
    }
}

/// The visible characters of one span.
pub proof fn ink_of_one(s: SpanView)
    ensures
        ink(seq![s]) == ink_chars(s.text, s.style),
{
    assert(seq![s].drop_last() =~= seq![]);
    assert(ink(seq![s].drop_last()) =~= seq![]);
    assert(seq![] + ink_chars(s.text, s.style) =~= ink_chars(s.text, s.style));
}

proof fn ink_of_flushed(toks: Seq<TokView>, buf: Seq<char>, style: StyleView)
    ensures
        ink_toks(flushed(toks, buf, style)) == ink_toks(toks) + ink_chars(buf, style),
{
    let frag = SpanView { text: buf, style };
    let r = flushed(toks, buf, style);
    ink_of_one(frag);
    if buf.len() == 0 {
        assert(ink_toks(toks) + ink_chars(buf, style) =~= ink_toks(toks));
    } else if toks.len() > 0 && toks.last() is Word {
        let frags = toks.last()->Word_0;
        assert(r.drop_last() =~= toks.drop_last());
        assert(frags.push(frag) =~= frags + seq![frag]);
        ink_of_sum(frags, seq![frag]);
        assert(ink_toks(toks.drop_last()) + (ink(frags) + ink_chars(buf, style)) =~= ink_toks(
            toks.drop_last(),
        ) + ink(frags) + ink_chars(buf, style));
    } else {
        assert(r.drop_last() =~= toks);
    }
}

proof fn ink_of_tok_chars(toks: Seq<TokView>, style: StyleView, chars: Seq<char>)
    ensures
        ({
            let (t, b) = tok_chars(toks, style, chars);
            ink_toks(t) + ink_chars(b, style) == ink_toks(toks) + ink_chars(chars, style)
        }),
    decreases chars.len(),
{
    if chars.len() == 0 {
    } else {
        ink_of_tok_chars(toks, style, chars.drop_last());
        let (t, b) = tok_chars(toks, style, chars.drop_last());
        let c = chars.last();
        let before = ink_toks(toks) + ink_chars(chars.drop_last(), style);
        assert(ink_toks(t) + ink_chars(b, style) == before);
        let f = flushed(t, b, style);
        ink_of_flushed(t, b, style);
        if c == '\n' {
            assert(f.push(TokView::Break).drop_last() =~= f);
            assert(ink_toks(f.push(TokView::Break)) =~= ink_toks(f));
            assert(ink_toks(f) + seq![] =~= ink_toks(f));
        } else if strings::is_white(c) {
            if f.len() > 0 && f.last() is Word {
                assert(f.push(TokView::Space(style)).drop_last() =~= f);
                assert(ink_toks(f.push(TokView::Space(style))) =~= ink_toks(f));
            }
            assert(ink_toks(f) + seq![] =~= ink_toks(f));
        } else {
            assert(b.push(c).drop_last() =~= b);
            assert(ink_toks(t) + ink_chars(b, style).push((c, style)) =~= before.push((c, style)));
            assert(before.push((c, style)) =~= ink_toks(toks) + ink_chars(
                chars.drop_last(),
                style,
            ).push((c, style)));
        }
    }
}

proof fn ink_of_tokens(spans: Seq<SpanView>)
    ensures
        ink_toks(tokens(spans)) == ink(spans),
    decreases spans.len(),
{
    if spans.len() > 0 {
        let s = spans.last();
        ink_of_tokens(spans.drop_last());
        ink_of_tok_chars(tokens(spans.drop_last()), s.style, s.text);
        let (t, b) = tok_chars(tokens(spans.drop_last()), s.style, s.text);
        ink_of_flushed(t, b, s.style);
    }
}

/// Pushing a span adds its visible characters.
pub proof fn ink_of_pushed(line: Seq<SpanView>, s: SpanView)
    ensures
        ink(text::push_span(line, s)) == ink(line) + ink_chars(s.text, s.style),
{
    let r = text::push_span(line, s);
    if s.text.len() == 0 {
        assert(ink(line) + ink_chars(s.text, s.style) =~= ink(line));
    } else if line.len() > 0 && line.last().style == s.style {
        assert(r.drop_last() =~= line.drop_last());
        ink_of_char_sum(line.last().text, s.text, s.style);
        let a = ink(line.drop_last());
        let b = ink_chars(line.last().text, s.style);
        let c = ink_chars(s.text, s.style);
        assert(a + (b + c) =~= a + b + c);
    } else {
        assert(r.drop_last() =~= line);
    }
}

proof fn ink_of_trimmed(line: Seq<SpanView>)
    ensures
        ink(trim_spaces(line)) == ink(line),
    decreases line.len(),
{
    if line.len() > 0 && line.last().text == seq![' '] {
        ink_of_trimmed(line.drop_last());
        let st = line.last().style;
        assert(seq![' '].drop_last() =~= seq![]);
        assert(ink_chars(seq![' '], st) =~= ink_chars(seq![' '].drop_last(), st));
        assert(ink_chars(seq![' '], st) =~= seq![]);
        assert(ink(line.drop_last()) + seq![] =~= ink(line.drop_last()));
    }
}

spec fn ink_wrap(w: Wrap) -> Seq<(char, StyleView)> {
    ink_lines(w.out) + ink(w.cur)
}

proof fn ink_of_finished(w: Wrap)
    ensures
        ink_wrap(finished(w)) == ink_wrap(w),
        ink_lines(finished(w).out) == ink_wrap(w),
{
    ink_of_trimmed(w.cur);
    assert(finished(w).out.drop_last() =~= w.out);
    assert(ink_wrap(finished(w)) =~= ink_lines(finished(w).out));
}

proof fn ink_of_hard_chars(w: Wrap, style: StyleView, chars: Seq<char>, width: nat)
    ensures
        ink_wrap(hard_chars(w, style, chars, width)) == ink_wrap(w) + ink_chars(chars, style),
    decreases chars.len(),
{
    if chars.len() == 0 {
        assert(ink_wrap(w) + ink_chars(chars, style) =~= ink_wrap(w));
    } else {
        ink_of_hard_chars(w, style, chars.drop_last(), width);
        let v = hard_chars(w, style, chars.drop_last(), width);
        let c = chars.last();
        ink_of_finished(v);
        let s = SpanView { text: seq![c], style };
        ink_of_pushed(v.cur, s);
        ink_of_pushed(seq![], s);
        assert(chars =~= chars.drop_last() + seq![c]);
        ink_of_char_sum(chars.drop_last(), seq![c], style);
        let i = ink_chars(seq![c], style);
        let d = ink_chars(chars.drop_last(), style);
        assert(ink_wrap(w) + d + i =~= ink_wrap(w) + (d + i));
        assert(ink_lines(v.out) + (ink(v.cur) + i) =~= ink_lines(v.out) + ink(v.cur) + i);
        let f = finished(v);
        assert(ink_lines(f.out) + (ink(f.cur) + i) =~= ink_lines(f.out) + ink(f.cur) + i);
    }
}

proof fn ink_of_hard_word(w: Wrap, frags: Seq<SpanView>, width: nat)
    ensures
        ink_wrap(hard_word(w, frags, width)) == ink_wrap(w) + ink(frags),
    decreases frags.len(),
{
    if frags.len() == 0 {
        assert(ink_wrap(w) + ink(frags) =~= ink_wrap(w));
    } else {
        ink_of_hard_word(w, frags.drop_last(), width);
        let v = hard_word(w, frags.drop_last(), width);
        ink_of_hard_chars(v, frags.last().style, frags.last().text, width);
        let d = ink(frags.drop_last());
        let i = ink_chars(frags.last().text, frags.last().style);
        assert(ink_wrap(w) + d + i =~= ink_wrap(w) + (d + i));
    }
}

proof fn ink_of_wrap_toks(toks: Seq<TokView>, width: nat)
    ensures
        ink_wrap(wrap_toks(toks, width)) == ink_toks(toks),
    decreases toks.len(),
{
    if toks.len() == 0 {
        assert(ink_wrap(wrap_toks(toks, width)) =~= seq![]);
    } else {
        ink_of_wrap_toks(toks.drop_last(), width);
        let w = wrap_toks(toks.drop_last(), width);
        ink_of_finished(w);
        let before = ink_toks(toks.drop_last());
        assert(before + seq![] =~= before);
        match toks.last() {
            TokView::Break => {},
            TokView::Space(style) => {
                let s = SpanView { text: seq![' '], style };
                assert(w.cur.push(s).drop_last() =~= w.cur);
                assert(seq![' '].drop_last() =~= seq![]);
                assert(ink_chars(seq![' '], style) =~= ink_chars(seq![' '].drop_last(), style));
                assert(ink_chars(seq![' '], style) =~= seq![]);
                assert(ink(w.cur.push(s)) =~= ink(w.cur));
            },
            TokView::Word(frags) => {
                let w1 = if w.used > 0 && w.used + text::line_width(frags) > width {
                    finished(w)
                } else {
                    w
                };
                ink_of_hard_word(w1, frags, width);
                ink_of_sum(w1.cur, frags);
                assert(ink_lines(w1.out) + (ink(w1.cur) + ink(frags)) =~= ink_lines(w1.out)
                    + ink(w1.cur) + ink(frags));
            },
        }
    }
}

/// Wrapping loses and restyles nothing: the visible characters of the lines,
/// with their styles, are those of the spans, in order.
pub proof fn wrapping_keeps_ink(spans: Seq<SpanView>, width: nat)
    ensures
        ink_lines(wrapped(spans, width)) == ink(spans),
{
    let w = wrap_toks(tokens(spans), at_least_one(width));
    ink_of_wrap_toks(tokens(spans), at_least_one(width));
    ink_of_tokens(spans);
    ink_of_finished(w);
    if w.cur.len() == 0 {
        assert(ink_lines(w.out) + ink(w.cur) =~= ink_lines(w.out));
        if w.out.len() == 0 {
            let none: Seq<Seq<SpanView>> = seq![seq![]];
            assert(none.drop_last() =~= seq![]);
            assert(ink_lines(none.drop_last()) =~= seq![]);
            assert(ink(none.last()) =~= seq![]);
            assert(ink_lines(none) =~= seq![]);
        }
    }
}

/// Whether a line ends in a space span.
pub open spec fn ends_in_space(line: Seq<SpanView>) -> bool {
    line.len() > 0 && line.last().text == seq![' ']
}

proof fn trimmed_ends_in_no_space(line: Seq<SpanView>)
    ensures
        !ends_in_space(trim_spaces(line)),
    decreases line.len(),
{
    if line.len() > 0 && line.last().text == seq![' '] {
        trimmed_ends_in_no_space(line.drop_last());
    }
}

spec fn out_trimmed(w: Wrap) -> bool {
    forall|i: int| 0 <= i < w.out.len() ==> !ends_in_space(#[trigger] w.out[i])
}

proof fn hard_word_trims(w: Wrap, frags: Seq<SpanView>, width: nat)
    requires
        out_trimmed(w),
    ensures
        out_trimmed(hard_word(w, frags, width)),
    decreases frags.len(),
{
    if frags.len() > 0 {
        hard_word_trims(w, frags.drop_last(), width);
        hard_chars_trim(
            hard_word(w, frags.drop_last(), width),
            frags.last().style,
            frags.last().text,
            width,
        );
    }
}

proof fn hard_chars_trim(w: Wrap, style: StyleView, chars: Seq<char>, width: nat)
    requires
        out_trimmed(w),
    ensures
        out_trimmed(hard_chars(w, style, chars, width)),
    decreases chars.len(),
{
    if chars.len() > 0 {
        hard_chars_trim(w, style, chars.drop_last(), width);
        trimmed_ends_in_no_space(hard_chars(w, style, chars.drop_last(), width).cur);
    }
}

proof fn wrap_toks_trims(toks: Seq<TokView>, width: nat)
    ensures
        out_trimmed(wrap_toks(toks, width)),
    decreases toks.len(),
{
    if toks.len() > 0 {
        wrap_toks_trims(toks.drop_last(), width);
        let w = wrap_toks(toks.drop_last(), width);
        trimmed_ends_in_no_space(w.cur);
        if let TokView::Word(frags) = toks.last() {
            let w1 = if w.used > 0 && w.used + text::line_width(frags) > width {
                finished(w)
            } else {
                w
            };
            hard_word_trims(w1, frags, width);
        }
    }
}

/// No wrapped line ends in a space, and there is always at least one line.
pub proof fn wrapped_lines_are_trimmed(spans: Seq<SpanView>, width: nat)
    ensures
        wrapped(spans, width).len() >= 1,
        forall|i: int|
            0 <= i < wrapped(spans, width).len() ==> !ends_in_space(
                #[trigger] wrapped(spans, width)[i],
            ),
{
    let w = wrap_toks(tokens(spans), at_least_one(width));
    wrap_toks_trims(tokens(spans), at_least_one(width));
    trimmed_ends_in_no_space(w.cur);
}

} // verus!
