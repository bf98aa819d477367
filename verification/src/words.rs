//! What wrapping does to words: they stay whole and in order, a space apart on one
//! line, and a line is begun only where the next word does not fit.

use vstd::prelude::*;
use crate::rewrap;
use crate::strings;
use crate::text;
use crate::text::{SpanView, StyleView};
use crate::wrap;
use crate::wrap::{TokView, Wrap};

verus! {

/// The words of a text that are complete, and the one that its end is part of.
pub open spec fn read(s: Seq<char>) -> (Seq<Seq<char>>, Seq<char>)
    decreases s.len(),
{
    if s.len() == 0 {
        (seq![], seq![])
    } else {
        let (done, open) = read(s.drop_last());
        if !strings::is_white(s.last()) {
            (done, open.push(s.last()))
        } else if open.len() > 0 {
            (done.push(open), seq![])
        } else {
            (done, seq![])
        }
    }
}

/// The words of a text: its longest runs of characters that are no whitespace.
pub open spec fn words(s: Seq<char>) -> Seq<Seq<char>> {
    let (done, open) = read(s);
    if open.len() > 0 {
        done.push(open)
    } else {
        done
    }
}

/// Words with one space between each two.
pub open spec fn spaced(ws: Seq<Seq<char>>) -> Seq<char>
    decreases ws.len(),
{
    if ws.len() == 0 {
        seq![]
    } else if ws.len() == 1 {
        ws[0]
    } else {
        spaced(ws.drop_last()).push(' ') + ws.last()
    }
}

/// The text of lines, each with a line ending.
pub open spec fn page(lines: Seq<Seq<SpanView>>) -> Seq<char>
    decreases lines.len(),
{
    if lines.len() == 0 {
        seq![]
    } else {
        (page(lines.drop_last()) + text::line_text(lines.last())).push('\n')
    }
}

proof fn read_push(s: Seq<char>, c: char)
    ensures
        read(s.push(c)) == ({
            let (done, open) = read(s);
            if !strings::is_white(c) {
                (done, open.push(c))
            } else if open.len() > 0 {
                (done.push(open), Seq::<char>::empty())
            } else {
                (done, Seq::<char>::empty())
            }
        }),
        strings::is_white(c) ==> read(s.push(c)) == (words(s), Seq::<char>::empty()),
{
    assert(s.push(c).drop_last() =~= s);
}

/// Reading on, where no word is open.
proof fn read_on(a: Seq<char>, b: Seq<char>)
    requires
        read(a).1.len() == 0,
    ensures
        read(a + b) == (read(a).0 + read(b).0, read(b).1),
    decreases b.len(),
{
    if b.len() == 0 {
        assert(a + b =~= a);
        assert(read(a).0 + read(b).0 =~= read(a).0);
        assert(read(a).1 =~= read(b).1);
    } else {
        let d = b.drop_last();
        read_on(a, d);
        assert((a + b).drop_last() =~= a + d);
        let (done, open) = read(d);
        if strings::is_white(b.last()) && open.len() > 0 {
            assert((read(a).0 + done).push(open) =~= read(a).0 + done.push(open));
        }
    }
}

/// The words of two texts with whitespace between them are the words of the one
/// and then those of the other.
pub proof fn words_stay_apart(a: Seq<char>, c: char, b: Seq<char>)
    requires
        strings::is_white(c),
    ensures
        words(a.push(c) + b) == words(a) + words(b),
{
    read_push(a, c);
    read_on(a.push(c), b);
    if read(b).1.len() > 0 {
        assert((words(a) + read(b).0).push(read(b).1) =~= words(a) + read(b).0.push(read(b).1));
    }
}

proof fn read_visible(s: Seq<char>)
    requires
        forall|i: int| 0 <= i < s.len() ==> !strings::is_white(#[trigger] s[i]),
    ensures
        read(s) == (Seq::<Seq<char>>::empty(), s),
    decreases s.len(),
{
    if s.len() > 0 {
        read_visible(s.drop_last());
        assert(s.drop_last().push(s.last()) =~= s);
    }
}

/// Text without whitespace is one word.
pub proof fn runs_are_words(s: Seq<char>)
    requires
        is_word(s),
    ensures
        words(s) == seq![s],
{
    read_visible(s);
    assert(Seq::<Seq<char>>::empty().push(s) =~= seq![s]);
}

// The tokens that wrapping goes by are the words of the text.

/// The words among tokens.
pub open spec fn tok_words(toks: Seq<TokView>) -> Seq<Seq<char>>
    decreases toks.len(),
{
    if toks.len() == 0 {
        seq![]
    } else {
        match toks.last() {
            TokView::Word(frags) => tok_words(toks.drop_last()).push(text::line_text(frags)),
            _ => tok_words(toks.drop_last()),
        }
    }
}

/// The words among tokens, with text that is still to become one, where the last
/// is open.
spec fn open_words(toks: Seq<TokView>, buf: Seq<char>) -> (Seq<Seq<char>>, Seq<char>) {
    if toks.len() > 0 && toks.last() is Word {
        (tok_words(toks.drop_last()), text::line_text(toks.last()->Word_0) + buf)
    } else {
        (tok_words(toks), buf)
    }
}

/// Whether text is a word: characters that are no whitespace, one at least.
pub open spec fn is_word(s: Seq<char>) -> bool {
    s.len() > 0 && forall|i: int| 0 <= i < s.len() ==> !strings::is_white(#[trigger] s[i])
}

/// Whether tokens are words of visible characters with a space or a break between
/// any two, a space only behind a word.
spec fn parted(toks: Seq<TokView>) -> bool {
    &&& forall|i: int|
        0 <= i < toks.len() ==> match #[trigger] toks[i] {
            TokView::Word(frags) => is_word(text::line_text(frags)) && runs(frags),
            TokView::Space(_) => i > 0 && toks[i - 1] is Word,
            TokView::Break => true,
        }
    &&& forall|i: int|
        0 < i < toks.len() && (#[trigger] toks[i]) is Word ==> !(toks[i - 1] is Word)
}

/// Whether spans hold visible characters only, one at least each.
spec fn runs(spans: Seq<SpanView>) -> bool {
    forall|i: int| 0 <= i < spans.len() ==> is_word((#[trigger] spans[i]).text)
}

proof fn run_push(a: Seq<char>, b: Seq<char>)
    requires
        a.len() == 0 || is_word(a),
        b.len() == 0 || is_word(b),
        a.len() + b.len() > 0,
    ensures
        is_word(a + b),
{
    let r = a + b;
    assert forall|i: int| 0 <= i < r.len() implies !strings::is_white(#[trigger] r[i]) by {
        if i < a.len() {
            assert(r[i] == a[i]);
        } else {
            assert(r[i] == b[i - a.len()]);
        }
    }
}

proof fn flushing(toks: Seq<TokView>, buf: Seq<char>, style: StyleView)
    requires
        parted(toks),
        buf.len() == 0 || is_word(buf),
    ensures
        parted(wrap::flushed(toks, buf, style)),
        open_words(wrap::flushed(toks, buf, style), seq![]) == open_words(toks, buf),
        ({
            let (done, open) = open_words(toks, buf);
            let f = wrap::flushed(toks, buf, style);
            &&& open.len() > 0 <==> f.len() > 0 && f.last() is Word
            &&& tok_words(f) == (if open.len() > 0 {
                done.push(open)
            } else {
                done
            })
        }),
{
    let f = wrap::flushed(toks, buf, style);
    let frag = SpanView { text: buf, style };
    if toks.len() > 0 {
        assert(toks.last() == toks[toks.len() - 1]);
    }
    if buf.len() == 0 {
        if toks.len() > 0 && toks.last() is Word {
            let t = text::line_text(toks.last()->Word_0);
            assert(t + buf =~= t);
            assert(t + seq![] =~= t);
        }
        assert(buf =~= seq![]);
    } else if toks.len() > 0 && toks.last() is Word {
        let frags = toks.last()->Word_0;
        assert(f.drop_last() =~= toks.drop_last());
        assert(frags.push(frag).drop_last() =~= frags);
        let t = text::line_text(frags);
        run_push(t, buf);
        assert(t + buf + seq![] =~= t + buf);
        assert forall|i: int| 0 <= i < f.len() implies match #[trigger] f[i] {
            TokView::Word(fr) => is_word(text::line_text(fr)) && runs(fr),
            TokView::Space(_) => i > 0 && f[i - 1] is Word,
            TokView::Break => true,
        } by {
            if i < f.len() - 1 {
                assert(f[i] == toks[i]);
                if i > 0 {
                    assert(f[i - 1] == toks[i - 1]);
                }
            }
        }
        assert forall|i: int| 0 < i < f.len() && (#[trigger] f[i]) is Word implies !(f[i
            - 1] is Word) by {
            assert(toks[i] is Word);
            assert(f[i - 1] == toks[i - 1]);
        }
    } else {
        assert(f.drop_last() =~= toks);
        assert(seq![frag].drop_last() =~= seq![]);
        assert(text::line_text(seq![frag].drop_last()) =~= seq![]);
        assert(text::line_text(seq![frag]) =~= buf);
        assert(buf + seq![] =~= buf);
        assert forall|i: int| 0 <= i < f.len() implies match #[trigger] f[i] {
            TokView::Word(fr) => is_word(text::line_text(fr)) && runs(fr),
            TokView::Space(_) => i > 0 && f[i - 1] is Word,
            TokView::Break => true,
        } by {
            if i < toks.len() {
                assert(f[i] == toks[i]);
                if i > 0 {
                    assert(f[i - 1] == toks[i - 1]);
                }
            }
        }
        assert forall|i: int| 0 < i < f.len() && (#[trigger] f[i]) is Word implies !(f[i
            - 1] is Word) by {
            assert(f[i - 1] == toks[i - 1]);
            if i < toks.len() {
                assert(toks[i] is Word);
            }
        }
    }
}

proof fn parted_push(toks: Seq<TokView>, t: TokView)
    requires
        parted(toks),
        !(t is Word),
        t is Space ==> toks.len() > 0 && toks.last() is Word,
    ensures
        parted(toks.push(t)),
        tok_words(toks.push(t)) == tok_words(toks),
{
    let f = toks.push(t);
    assert(f.drop_last() =~= toks);
    assert forall|i: int| 0 <= i < f.len() implies match #[trigger] f[i] {
        TokView::Word(fr) => is_word(text::line_text(fr)) && runs(fr),
        TokView::Space(_) => i > 0 && f[i - 1] is Word,
        TokView::Break => true,
    } by {
        if i < toks.len() {
            assert(f[i] == toks[i]);
            if i > 0 {
                assert(f[i - 1] == toks[i - 1]);
            }
        }
    }
    assert forall|i: int| 0 < i < f.len() && (#[trigger] f[i]) is Word implies !(f[i
        - 1] is Word) by {
        assert(toks[i] is Word);
        assert(f[i - 1] == toks[i - 1]);
    }
}

proof fn reading_chars(before: Seq<char>, toks: Seq<TokView>, style: StyleView, chars: Seq<char>)
    requires
        parted(toks),
        read(before) == open_words(toks, seq![]),
    ensures
        ({
            let (t, b) = wrap::tok_chars(toks, style, chars);
            &&& parted(t)
            &&& b.len() == 0 || is_word(b)
            &&& read(before + chars) == open_words(t, b)
        }),
    decreases chars.len(),
{
    if chars.len() == 0 {
        assert(before + chars =~= before);
    } else {
        let c = chars.last();
        reading_chars(before, toks, style, chars.drop_last());
        let (t, b) = wrap::tok_chars(toks, style, chars.drop_last());
        assert(before + chars =~= (before + chars.drop_last()).push(c));
        read_push(before + chars.drop_last(), c);
        let (done, open) = open_words(t, b);
        let f = wrap::flushed(t, b, style);
        flushing(t, b, style);
        if c == '\n' {
            parted_push(f, TokView::Break);
        } else if strings::is_white(c) {
            if f.len() > 0 && f.last() is Word {
                parted_push(f, TokView::Space(style));
            }
        } else {
            run_push(b, seq![c]);
            assert(b + seq![c] =~= b.push(c));
            if t.len() > 0 && t.last() is Word {
                let l = text::line_text(t.last()->Word_0);
                assert((l + b).push(c) =~= l + b.push(c));
            }
        }
    }
}

proof fn reading_spans(spans: Seq<SpanView>)
    ensures
        parted(wrap::tokens(spans)),
        read(text::line_text(spans)) == open_words(wrap::tokens(spans), seq![]),
        words(text::line_text(spans)) == tok_words(wrap::tokens(spans)),
    decreases spans.len(),
{
    if spans.len() > 0 {
        let s = spans.last();
        reading_spans(spans.drop_last());
        reading_chars(
            text::line_text(spans.drop_last()),
            wrap::tokens(spans.drop_last()),
            s.style,
            s.text,
        );
        let (t, b) = wrap::tok_chars(wrap::tokens(spans.drop_last()), s.style, s.text);
        flushing(t, b, s.style);
    }
    let toks = wrap::tokens(spans);
    flushing(toks, seq![], text::plain_style());
}

// The layout of words that all fit on a line, with any measure of them.

/// One more token laid out, where no word is too long.
spec fn soft_tok(
    w: Wrap,
    tok: TokView,
    width: nat,
    measure: spec_fn(Seq<SpanView>) -> nat,
) -> Wrap {
    match tok {
        TokView::Break => wrap::finished(w),
        TokView::Space(style) => if 0 < w.used < width {
            Wrap {
                out: w.out,
                cur: w.cur.push(SpanView { text: seq![' '], style }),
                used: w.used + 1,
            }
        } else {
            w
        },
        TokView::Word(frags) => {
            let cols = measure(frags);
            let w1 = if w.used > 0 && w.used + cols > width {
                wrap::finished(w)
            } else {
                w
            };
            Wrap { out: w1.out, cur: w1.cur + frags, used: w1.used + cols }
        },
    }
}

spec fn soft_toks(
    toks: Seq<TokView>,
    width: nat,
    measure: spec_fn(Seq<SpanView>) -> nat,
) -> Wrap
    decreases toks.len(),
{
    if toks.len() == 0 {
        Wrap { out: seq![], cur: seq![], used: 0 }
    } else {
        soft_tok(soft_toks(toks.drop_last(), width, measure), toks.last(), width, measure)
    }
}

/// Whether every word takes at least one column and at most `width`.
spec fn measured(toks: Seq<TokView>, width: nat, measure: spec_fn(Seq<SpanView>) -> nat) -> bool {
    forall|i: int|
        0 <= i < toks.len() ==> match #[trigger] toks[i] {
            TokView::Word(frags) => 1 <= measure(frags) <= width,
            _ => true,
        }
}

proof fn parted_prefix(toks: Seq<TokView>)
    requires
        parted(toks),
        toks.len() > 0,
    ensures
        parted(toks.drop_last()),
{
    let d = toks.drop_last();
    assert forall|i: int| 0 <= i < d.len() implies match #[trigger] d[i] {
        TokView::Word(frags) => is_word(text::line_text(frags)) && runs(frags),
        TokView::Space(_) => i > 0 && d[i - 1] is Word,
        TokView::Break => true,
    } by {
        assert(d[i] == toks[i]);
        if i > 0 {
            assert(d[i - 1] == toks[i - 1]);
        }
    }
    assert forall|i: int| 0 < i < d.len() && (#[trigger] d[i]) is Word implies !(d[i
        - 1] is Word) by {
        assert(toks[i] is Word);
        assert(d[i - 1] == toks[i - 1]);
    }
}

proof fn measured_prefix(toks: Seq<TokView>, width: nat, measure: spec_fn(Seq<SpanView>) -> nat)
    requires
        parted(toks),
        measured(toks, width, measure),
        toks.len() > 0,
    ensures
        parted(toks.drop_last()),
        measured(toks.drop_last(), width, measure),
{
    let d = toks.drop_last();
    parted_prefix(toks);
    assert forall|i: int| 0 <= i < d.len() implies match #[trigger] d[i] {
        TokView::Word(frags) => 1 <= measure(frags) <= width,
        _ => true,
    } by {
        assert(d[i] == toks[i]);
    }
}

proof fn wrapping_is_soft(toks: Seq<TokView>, width: nat)
    requires
        parted(toks),
        measured(toks, width, |f: Seq<SpanView>| text::line_width(f)),
    ensures
        wrap::wrap_toks(toks, width) == soft_toks(
            toks,
            width,
            |f: Seq<SpanView>| text::line_width(f),
        ),
    decreases toks.len(),
{
    if toks.len() > 0 {
        measured_prefix(toks, width, |f: Seq<SpanView>| text::line_width(f));
        wrapping_is_soft(toks.drop_last(), width);
        assert(toks.last() == toks[toks.len() - 1]);
    }
}

proof fn ascii_wrapping_is_soft(toks: Seq<TokView>, width: nat)
    requires
        parted(toks),
        measured(toks, width, |f: Seq<SpanView>| text::line_len(f)),
    ensures
        rewrap::ascii_wrap_toks(toks, width) == soft_toks(
            toks,
            width,
            |f: Seq<SpanView>| text::line_len(f),
        ),
    decreases toks.len(),
{
    if toks.len() > 0 {
        measured_prefix(toks, width, |f: Seq<SpanView>| text::line_len(f));
        ascii_wrapping_is_soft(toks.drop_last(), width);
        assert(toks.last() == toks[toks.len() - 1]);
    }
}

/// The text of two runs of spans is that of the one and then that of the other.
pub proof fn text_of_sum(a: Seq<SpanView>, b: Seq<SpanView>)
    ensures
        text::line_text(a + b) == text::line_text(a) + text::line_text(b),
    decreases b.len(),
{
    if b.len() == 0 {
        assert(a + b =~= a);
        assert(text::line_text(a) + text::line_text(b) =~= text::line_text(a));
    } else {
        assert((a + b).drop_last() =~= a + b.drop_last());
        text_of_sum(a, b.drop_last());
        assert(text::line_text(a) + text::line_text(b.drop_last()) + b.last().text
            =~= text::line_text(a) + (text::line_text(b.drop_last()) + b.last().text));
    }
}

/// The text laid out so far.
spec fn laid_text(w: Wrap) -> Seq<char> {
    page(w.out) + text::line_text(w.cur)
}

proof fn page_is_read(lines: Seq<Seq<SpanView>>)
    ensures
        read(page(lines)) == (words(page(lines)), Seq::<char>::empty()),
{
    if lines.len() > 0 {
        read_push(page(lines.drop_last()) + text::line_text(lines.last()), '\n');
    }
}

proof fn trimming_keeps_words(before: Seq<char>, line: Seq<SpanView>)
    ensures
        words(before + text::line_text(wrap::trim_spaces(line))) == words(
            before + text::line_text(line),
        ),
    decreases line.len(),
{
    if line.len() > 0 && line.last().text == seq![' '] {
        trimming_keeps_words(before, line.drop_last());
        let t = before + text::line_text(line.drop_last());
        assert(before + text::line_text(line) =~= t.push(' '));
        read_push(t, ' ');
    }
}

proof fn finishing_keeps_words(w: Wrap)
    ensures
        words(page(wrap::finished(w).out)) == words(laid_text(w)),
        laid_text(wrap::finished(w)) == page(wrap::finished(w).out),
        read(page(wrap::finished(w).out)) == (words(laid_text(w)), Seq::<char>::empty()),
{
    let f = wrap::finished(w);
    assert(f.out.drop_last() =~= w.out);
    trimming_keeps_words(page(w.out), w.cur);
    read_push(page(w.out) + text::line_text(wrap::trim_spaces(w.cur)), '\n');
    assert(laid_text(f) =~= page(f.out));
}

proof fn soft_wrapping_keeps_words(
    toks: Seq<TokView>,
    width: nat,
    measure: spec_fn(Seq<SpanView>) -> nat,
)
    requires
        parted(toks),
        measured(toks, width, measure),
    ensures
        ({
            let w = soft_toks(toks, width, measure);
            &&& w.used == 0 <==> w.cur.len() == 0
            &&& words(laid_text(w)) == tok_words(toks)
            &&& toks.len() == 0 || toks.last() is Break ==> w.cur.len() == 0
            &&& toks.len() > 0 && toks.last() is Space ==> w.cur.len() == 0 || w.used >= width
                || read(laid_text(w)).1.len() == 0
        }),
    decreases toks.len(),
{
    if toks.len() > 0 {
        let d = toks.drop_last();
        measured_prefix(toks, width, measure);
        soft_wrapping_keeps_words(d, width, measure);
        let v = soft_toks(d, width, measure);
        assert(toks.last() == toks[toks.len() - 1]);
        finishing_keeps_words(v);
        match toks.last() {
            TokView::Break => {},
            TokView::Space(style) => {
                if 0 < v.used < width {
                    let s = SpanView { text: seq![' '], style };
                    assert(v.cur.push(s).drop_last() =~= v.cur);
                    let w = soft_toks(toks, width, measure);
                    assert(laid_text(w) =~= laid_text(v).push(' '));
                    read_push(laid_text(v), ' ');
                }
            },
            TokView::Word(frags) => {
                let cols = measure(frags);
                let ends = v.used > 0 && v.used + cols > width;
                let v1 = if ends {
                    wrap::finished(v)
                } else {
                    v
                };
                if !ends {
                    if v.used == 0 {
                        assert(laid_text(v) =~= page(v.out));
                        page_is_read(v.out);
                    } else {
                        assert(d.len() > 0);
                        assert(d.last() == toks[toks.len() - 2]);
                        assert(d.last() is Space);
                    }
                }
                assert(read(laid_text(v1)).1.len() == 0);
                let t = text::line_text(frags);
                text_of_sum(v1.cur, frags);
                let w = soft_toks(toks, width, measure);
                assert(laid_text(w) =~= laid_text(v1) + t);
                read_visible(t);
                read_on(laid_text(v1), t);
                assert(read(laid_text(v1)).0 + Seq::<Seq<char>>::empty() =~= read(
                    laid_text(v1),
                ).0);
                assert(words(laid_text(v1)) == tok_words(d));
                assert(frags.len() > 0) by {
                    if frags.len() == 0 {
                        assert(t.len() == 0);
                    }
                }
            },
        }
    } else {
        assert(laid_text(soft_toks(toks, width, measure)) =~= seq![]);
    }
}

spec fn soft_lines(w: Wrap) -> Seq<Seq<SpanView>> {
    let out = if w.cur.len() > 0 {
        wrap::finished(w).out
    } else {
        w.out
    };
    if out.len() == 0 {
        seq![seq![]]
    } else {
        out
    }
}

proof fn soft_lines_keep_words(w: Wrap)
    ensures
        words(page(soft_lines(w))) == words(laid_text(w)),
{
    finishing_keeps_words(w);
    if w.cur.len() == 0 {
        assert(laid_text(w) =~= page(w.out));
        if w.out.len() == 0 {
            let none: Seq<Seq<SpanView>> = seq![seq![]];
            assert(none.drop_last() =~= seq![]);
            assert(page(none.drop_last()) =~= seq![]);
            assert(page(none) =~= Seq::<char>::empty().push('\n'));
            read_push(seq![], '\n');
            assert(page(w.out) =~= seq![]);
        }
    }
}

/// Whether every word of spans takes at least one column and at most `width`.
pub open spec fn words_have_room(spans: Seq<SpanView>, width: nat) -> bool {
    forall|i: int|
        0 <= i < wrap::tokens(spans).len() ==> match #[trigger] wrap::tokens(spans)[i] {
            TokView::Word(frags) => 1 <= text::line_width(frags) <= width,
            _ => true,
        }
}

/// Wrapping keeps words whole, apart and in order: where every word has room on a
/// line, the words of the lines are the words of the text.
pub proof fn wrapping_keeps_words(spans: Seq<SpanView>, width: nat)
    requires
        words_have_room(spans, wrap::at_least_one(width)),
    ensures
        words(page(wrap::wrapped(spans, width))) == words(text::line_text(spans)),
{
    let toks = wrap::tokens(spans);
    let n = wrap::at_least_one(width);
    let m = |f: Seq<SpanView>| text::line_width(f);
    reading_spans(spans);
    assert(measured(toks, n, m));
    wrapping_is_soft(toks, n);
    soft_wrapping_keeps_words(toks, n, m);
    soft_lines_keep_words(wrap::wrap_toks(toks, n));
}

proof fn len_is_counted(spans: Seq<SpanView>)
    ensures
        text::line_len(spans) == text::line_text(spans).len(),
    decreases spans.len(),
{
    if spans.len() > 0 {
        len_is_counted(spans.drop_last());
    }
}

/// Whether no word of some has more than `width` characters.
pub open spec fn no_longer(ws: Seq<Seq<char>>, width: nat) -> bool {
    forall|i: int| 0 <= i < ws.len() ==> (#[trigger] ws[i]).len() <= width
}

proof fn short_words_are_measured(toks: Seq<TokView>, width: nat)
    requires
        parted(toks),
        no_longer(tok_words(toks), width),
    ensures
        measured(toks, width, |f: Seq<SpanView>| text::line_len(f)),
    decreases toks.len(),
{
    if toks.len() > 0 {
        let d = toks.drop_last();
        let ws = tok_words(toks);
        parted_prefix(toks);
        assert(toks.last() == toks[toks.len() - 1]);
        assert(no_longer(tok_words(d), width)) by {
            assert forall|i: int| 0 <= i < tok_words(d).len() implies (#[trigger] tok_words(
                d,
            )[i]).len() <= width by {
                assert(ws[i] == tok_words(d)[i]);
            }
        }
        short_words_are_measured(d, width);
        let m = |f: Seq<SpanView>| text::line_len(f);
        assert forall|i: int| 0 <= i < toks.len() implies match #[trigger] toks[i] {
            TokView::Word(frags) => 1 <= m(frags) <= width,
            _ => true,
        } by {
            if i < d.len() {
                assert(d[i] == toks[i]);
            } else if let TokView::Word(frags) = toks[i] {
                len_is_counted(frags);
                assert(ws[ws.len() - 1] == text::line_text(frags));
            }
        }
    }
}

/// Wrapping keeps words whole, apart and in order: where no word of printable ASCII
/// is longer than a line, the words of the lines are the words of the text.
pub proof fn ascii_wrapping_keeps_words(spans: Seq<SpanView>, width: nat)
    requires
        no_longer(words(text::line_text(spans)), wrap::at_least_one(width)),
    ensures
        words(page(rewrap::ascii_wrapped(spans, width))) == words(text::line_text(spans)),
{
    let toks = wrap::tokens(spans);
    let n = wrap::at_least_one(width);
    let m = |f: Seq<SpanView>| text::line_len(f);
    reading_spans(spans);
    short_words_are_measured(toks, n);
    ascii_wrapping_is_soft(toks, n);
    soft_wrapping_keeps_words(toks, n, m);
    soft_lines_keep_words(rewrap::ascii_wrap_toks(toks, n));
}

// What fits on one line stands on one line.

/// The columns that words take with a space between each two.
pub open spec fn need(toks: Seq<TokView>, measure: spec_fn(Seq<SpanView>) -> nat) -> nat
    decreases toks.len(),
{
    if toks.len() == 0 {
        0
    } else {
        let before = need(toks.drop_last(), measure);
        match toks.last() {
            TokView::Word(frags) => if tok_words(toks.drop_last()).len() == 0 {
                measure(frags)
            } else {
                before + 1 + measure(frags)
            },
            _ => before,
        }
    }
}

spec fn ends_in_run(line: Seq<SpanView>) -> bool {
    line.len() > 0 && is_word(line.last().text)
}

/// Whether a line being filled holds words a space apart, with a space at its end
/// where there is room for one and a word is to come.
spec fn one_line(
    w: Wrap,
    toks: Seq<TokView>,
    width: nat,
    measure: spec_fn(Seq<SpanView>) -> nat,
) -> bool {
    let ws = tok_words(toks);
    &&& w.out.len() == 0
    &&& toks.len() == 0 ==> w.cur.len() == 0 && w.used == 0
    &&& toks.len() > 0 ==> ws.len() > 0
    &&& toks.len() > 0 && toks.last() is Word ==> {
        &&& w.used == need(toks, measure)
        &&& text::line_text(w.cur) == spaced(ws)
        &&& ends_in_run(w.cur)
    }
    &&& toks.len() > 0 && toks.last() is Space ==> {
        if w.used >= width && w.used == need(toks, measure) {
            text::line_text(w.cur) == spaced(ws) && ends_in_run(w.cur)
        } else {
            &&& w.used == need(toks, measure) + 1
            &&& w.cur.len() > 0
            &&& w.cur.last().text == seq![' ']
            &&& text::line_text(w.cur.drop_last()) == spaced(ws)
            &&& ends_in_run(w.cur.drop_last())
        }
    }
}

proof fn one_line_goes_on(
    toks: Seq<TokView>,
    width: nat,
    measure: spec_fn(Seq<SpanView>) -> nat,
)
    requires
        parted(toks),
        measured(toks, width, measure),
        forall|i: int| 0 <= i < toks.len() ==> !((#[trigger] toks[i]) is Break),
        need(toks, measure) <= width,
    ensures
        one_line(soft_toks(toks, width, measure), toks, width, measure),
    decreases toks.len(),
{
    if toks.len() > 0 {
        let d = toks.drop_last();
        measured_prefix(toks, width, measure);
        assert(toks.last() == toks[toks.len() - 1]);
        assert forall|i: int| 0 <= i < d.len() implies !((#[trigger] d[i]) is Break) by {
            assert(d[i] == toks[i]);
        }
        if tok_words(d).len() == 0 {
            no_words_need_nothing(d, measure);
        }
        one_line_goes_on(d, width, measure);
        let v = soft_toks(d, width, measure);
        let w = soft_toks(toks, width, measure);
        if d.len() > 0 {
            assert(d.last() == toks[toks.len() - 2]);
        }
        match toks.last() {
            TokView::Break => {},
            TokView::Space(style) => {
                assert(d.last() is Word);
                need_something(d, width, measure);
                if v.used < width {
                    let s = SpanView { text: seq![' '], style };
                    assert(w.cur.drop_last() =~= v.cur);
                }
            },
            TokView::Word(frags) => {
                let t = text::line_text(frags);
                text_of_sum(v.cur, frags);
                assert(frags.len() > 0) by {
                    if frags.len() == 0 {
                        assert(t.len() == 0);
                    }
                }
                assert(w.cur.last() == frags[frags.len() - 1]);
                if d.len() == 0 {
                    assert(v.cur + frags =~= frags);
                    assert(tok_words(toks) =~= seq![t]);
                } else {
                    assert(d.last() is Space);
                    let ws = tok_words(toks);
                    assert(ws.drop_last() =~= tok_words(d));
                    assert(v.used == need(d, measure) + 1);
                    assert(text::line_text(v.cur) =~= spaced(tok_words(d)).push(' '));
                }
            },
        }
    }
}

proof fn no_words_need_nothing(toks: Seq<TokView>, measure: spec_fn(Seq<SpanView>) -> nat)
    requires
        tok_words(toks).len() == 0,
    ensures
        need(toks, measure) == 0,
    decreases toks.len(),
{
    if toks.len() > 0 {
        no_words_need_nothing(toks.drop_last(), measure);
    }
}

proof fn need_something(toks: Seq<TokView>, width: nat, measure: spec_fn(Seq<SpanView>) -> nat)
    requires
        measured(toks, width, measure),
        toks.len() > 0,
        toks.last() is Word,
    ensures
        need(toks, measure) >= 1,
{
    assert(toks.last() == toks[toks.len() - 1]);
}

proof fn one_line_is_laid(
    toks: Seq<TokView>,
    width: nat,
    measure: spec_fn(Seq<SpanView>) -> nat,
)
    requires
        parted(toks),
        measured(toks, width, measure),
        forall|i: int| 0 <= i < toks.len() ==> !((#[trigger] toks[i]) is Break),
        need(toks, measure) <= width,
    ensures
        ({
            let lines = soft_lines(soft_toks(toks, width, measure));
            lines.len() == 1 && text::line_text(lines[0]) == spaced(tok_words(toks))
        }),
{
    one_line_goes_on(toks, width, measure);
    let w = soft_toks(toks, width, measure);
    let lines = soft_lines(w);
    if toks.len() > 0 {
        assert(toks.last() == toks[toks.len() - 1]);
        assert(w.cur.len() > 0);
        run_is_no_space(w.cur);
        run_is_no_space(w.cur.drop_last());
        assert(lines[0] == wrap::trim_spaces(w.cur));
        if w.cur.last().text == seq![' '] {
            assert(wrap::trim_spaces(w.cur) == wrap::trim_spaces(w.cur.drop_last()));
            assert(wrap::trim_spaces(w.cur.drop_last()) == w.cur.drop_last());
        }
    } else {
        assert(lines[0] =~= seq![]);
    }
}

proof fn run_is_no_space(line: Seq<SpanView>)
    ensures
        ends_in_run(line) ==> line.last().text != seq![' '],
{
    if ends_in_run(line) && line.last().text == seq![' '] {
        assert(strings::is_white(line.last().text[0]));
    }
}

proof fn need_is_spaced(toks: Seq<TokView>)
    ensures
        need(toks, |f: Seq<SpanView>| text::line_len(f)) == spaced(tok_words(toks)).len(),
    decreases toks.len(),
{
    if toks.len() > 0 {
        let d = toks.drop_last();
        need_is_spaced(d);
        if let TokView::Word(frags) = toks.last() {
            len_is_counted(frags);
            assert(tok_words(toks).drop_last() =~= tok_words(d));
        }
    }
}

proof fn spaced_is_long(ws: Seq<Seq<char>>, i: int)
    requires
        0 <= i < ws.len(),
    ensures
        ws[i].len() <= spaced(ws).len(),
    decreases ws.len(),
{
    if ws.len() > 1 && i < ws.len() - 1 {
        spaced_is_long(ws.drop_last(), i);
        assert(ws.drop_last()[i] == ws[i]);
    }
}

proof fn no_breaks_in_chars(toks: Seq<TokView>, style: StyleView, chars: Seq<char>)
    requires
        forall|i: int| 0 <= i < toks.len() ==> !((#[trigger] toks[i]) is Break),
        !chars.contains('\n'),
    ensures
        ({
            let (t, b) = wrap::tok_chars(toks, style, chars);
            let f = wrap::flushed(t, b, style);
            &&& forall|i: int| 0 <= i < t.len() ==> !((#[trigger] t[i]) is Break)
            &&& forall|i: int| 0 <= i < f.len() ==> !((#[trigger] f[i]) is Break)
        }),
    decreases chars.len(),
{
    if chars.len() > 0 {
        let d = chars.drop_last();
        assert forall|c: char| d.contains(c) implies chars.contains(c) by {
            let i = choose|i: int| 0 <= i < d.len() && d[i] == c;
            assert(chars[i] == c);
        }
        assert(chars.contains(chars.last()));
        no_breaks_in_chars(toks, style, d);
    }
}

/// Whether spans hold no line ending.
pub open spec fn unbroken(spans: Seq<SpanView>) -> bool {
    forall|i: int| 0 <= i < spans.len() ==> !(#[trigger] spans[i]).text.contains('\n')
}

proof fn no_breaks(spans: Seq<SpanView>)
    requires
        unbroken(spans),
    ensures
        forall|i: int|
            0 <= i < wrap::tokens(spans).len() ==> !((#[trigger] wrap::tokens(
                spans,
            )[i]) is Break),
    decreases spans.len(),
{
    if spans.len() > 0 {
        let d = spans.drop_last();
        assert forall|i: int| 0 <= i < d.len() implies !(#[trigger] d[i]).text.contains('\n') by {
            assert(d[i] == spans[i]);
        }
        no_breaks(d);
        assert(spans.last() == spans[spans.len() - 1]);
        no_breaks_in_chars(wrap::tokens(d), spans.last().style, spans.last().text);
    }
}

/// Text that fits on a line when there is one space between each two words, and
/// that holds no line ending, is one line: its words, a space apart.
pub proof fn short_ascii_is_one_line(spans: Seq<SpanView>, width: nat)
    requires
        unbroken(spans),
        spaced(words(text::line_text(spans))).len() <= wrap::at_least_one(width),
    ensures
        rewrap::ascii_wrapped(spans, width).len() == 1,
        text::line_text(rewrap::ascii_wrapped(spans, width)[0]) == spaced(
            words(text::line_text(spans)),
        ),
{
    let toks = wrap::tokens(spans);
    let n = wrap::at_least_one(width);
    let m = |f: Seq<SpanView>| text::line_len(f);
    reading_spans(spans);
    no_breaks(spans);
    assert forall|i: int| 0 <= i < tok_words(toks).len() implies (#[trigger] tok_words(
        toks,
    )[i]).len() <= n by {
        spaced_is_long(tok_words(toks), i);
    }
    short_words_are_measured(toks, n);
    need_is_spaced(toks);
    ascii_wrapping_is_soft(toks, n);
    one_line_is_laid(toks, n, m);
}

/// Text that fits on a line when there is one space between each two words, and
/// that holds no line ending, is one line: its words, a space apart.
pub proof fn short_text_is_one_line(spans: Seq<SpanView>, width: nat)
    requires
        unbroken(spans),
        words_have_room(spans, wrap::at_least_one(width)),
        need(wrap::tokens(spans), |f: Seq<SpanView>| text::line_width(f)) <= wrap::at_least_one(
            width,
        ),
    ensures
        wrap::wrapped(spans, width).len() == 1,
        text::line_text(wrap::wrapped(spans, width)[0]) == spaced(words(text::line_text(spans))),
{
    let toks = wrap::tokens(spans);
    let n = wrap::at_least_one(width);
    let m = |f: Seq<SpanView>| text::line_width(f);
    reading_spans(spans);
    no_breaks(spans);
    assert(measured(toks, n, m));
    wrapping_is_soft(toks, n);
    one_line_is_laid(toks, n, m);
}

// Lines in front of a layout stay in front of it.

/// A layout with lines in front of it.
spec fn led(a: Seq<Seq<SpanView>>, w: Wrap) -> Wrap {
    Wrap { out: a + w.out, ..w }
}

proof fn led_finished(a: Seq<Seq<SpanView>>, w: Wrap)
    ensures
        wrap::finished(led(a, w)) == led(a, wrap::finished(w)),
{
    let l = wrap::trim_spaces(w.cur);
    assert((a + w.out).push(l) =~= a + w.out.push(l));
}

proof fn ascii_led_hard_chars(
    a: Seq<Seq<SpanView>>,
    w: Wrap,
    style: StyleView,
    chars: Seq<char>,
    width: nat,
)
    ensures
        rewrap::ascii_hard_chars(led(a, w), style, chars, width) == led(
            a,
            rewrap::ascii_hard_chars(w, style, chars, width),
        ),
    decreases chars.len(),
{
    if chars.len() > 0 {
        ascii_led_hard_chars(a, w, style, chars.drop_last(), width);
        led_finished(a, rewrap::ascii_hard_chars(w, style, chars.drop_last(), width));
    }
}

proof fn ascii_led_hard_word(a: Seq<Seq<SpanView>>, w: Wrap, frags: Seq<SpanView>, width: nat)
    ensures
        rewrap::ascii_hard_word(led(a, w), frags, width) == led(a, rewrap::ascii_hard_word(w, frags, width)),
    decreases frags.len(),
{
    if frags.len() > 0 {
        ascii_led_hard_word(a, w, frags.drop_last(), width);
        ascii_led_hard_chars(
            a,
            rewrap::ascii_hard_word(w, frags.drop_last(), width),
            frags.last().style,
            frags.last().text,
            width,
        );
    }
}

proof fn ascii_hard_chars_show(w: Wrap, style: StyleView, chars: Seq<char>, width: nat)
    requires
        chars.len() > 0,
    ensures
        rewrap::ascii_hard_chars(w, style, chars, width).cur.len() > 0,
{
}

proof fn ascii_words_show(toks: Seq<TokView>, width: nat)
    requires
        parted(toks),
        toks.len() > 0,
        !(toks.last() is Break),
    ensures
        rewrap::ascii_wrap_toks(toks, width).cur.len() > 0,
    decreases toks.len(),
{
    let d = toks.drop_last();
    assert(toks.last() == toks[toks.len() - 1]);
    parted_prefix(toks);
    match toks.last() {
        TokView::Space(_) => {
            assert(d.last() == toks[toks.len() - 2]);
            ascii_words_show(d, width);
        },
        TokView::Word(frags) => {
            if frags.len() == 0 {
                assert(text::line_text(frags).len() == 0);
            }
            let v = rewrap::ascii_wrap_toks(d, width);
            let cols = text::line_len(frags);
            let v1 = if v.used > 0 && v.used + cols > width {
                wrap::finished(v)
            } else {
                v
            };
            if cols > width {
                let rest = frags.drop_last();
                assert(is_word(frags[frags.len() - 1].text));
                ascii_hard_chars_show(
                    rewrap::ascii_hard_word(v1, rest, width),
                    frags.last().style,
                    frags.last().text,
                    width,
                );
            }
        },
        TokView::Break => {},
    }
}

proof fn led_hard_chars(
    a: Seq<Seq<SpanView>>,
    w: Wrap,
    style: StyleView,
    chars: Seq<char>,
    width: nat,
)
    ensures
        wrap::hard_chars(led(a, w), style, chars, width) == led(
            a,
            wrap::hard_chars(w, style, chars, width),
        ),
    decreases chars.len(),
{
    if chars.len() > 0 {
        led_hard_chars(a, w, style, chars.drop_last(), width);
        led_finished(a, wrap::hard_chars(w, style, chars.drop_last(), width));
    }
}

proof fn led_hard_word(a: Seq<Seq<SpanView>>, w: Wrap, frags: Seq<SpanView>, width: nat)
    ensures
        wrap::hard_word(led(a, w), frags, width) == led(a, wrap::hard_word(w, frags, width)),
    decreases frags.len(),
{
    if frags.len() > 0 {
        led_hard_word(a, w, frags.drop_last(), width);
        led_hard_chars(
            a,
            wrap::hard_word(w, frags.drop_last(), width),
            frags.last().style,
            frags.last().text,
            width,
        );
    }
}

proof fn led_tok(a: Seq<Seq<SpanView>>, w: Wrap, tok: TokView, width: nat)
    ensures
        wrap::wrap_tok(led(a, w), tok, width) == led(a, wrap::wrap_tok(w, tok, width)),
{
    led_finished(a, w);
    if let TokView::Word(frags) = tok {
        led_hard_word(a, w, frags, width);
        led_hard_word(a, wrap::finished(w), frags, width);
    }
}

proof fn led_toks(before: Seq<TokView>, toks: Seq<TokView>, width: nat)
    requires
        wrap::wrap_toks(before, width).cur.len() == 0,
        wrap::wrap_toks(before, width).used == 0,
    ensures
        wrap::wrap_toks(before + toks, width) == led(
            wrap::wrap_toks(before, width).out,
            wrap::wrap_toks(toks, width),
        ),
    decreases toks.len(),
{
    let a = wrap::wrap_toks(before, width).out;
    if toks.len() == 0 {
        assert(before + toks =~= before);
        assert(a + Seq::<Seq<SpanView>>::empty() =~= a);
        assert(wrap::wrap_toks(before, width).cur =~= seq![]);
    } else {
        assert((before + toks).drop_last() =~= before + toks.drop_last());
        led_toks(before, toks.drop_last(), width);
        led_tok(a, wrap::wrap_toks(toks.drop_last(), width), toks.last(), width);
    }
}

proof fn hard_chars_show(w: Wrap, style: StyleView, chars: Seq<char>, width: nat)
    requires
        chars.len() > 0,
    ensures
        wrap::hard_chars(w, style, chars, width).cur.len() > 0,
{
}

proof fn words_show(toks: Seq<TokView>, width: nat)
    requires
        parted(toks),
        toks.len() > 0,
        !(toks.last() is Break),
    ensures
        wrap::wrap_toks(toks, width).cur.len() > 0,
    decreases toks.len(),
{
    let d = toks.drop_last();
    assert(toks.last() == toks[toks.len() - 1]);
    parted_prefix(toks);
    match toks.last() {
        TokView::Space(_) => {
            assert(d.last() == toks[toks.len() - 2]);
            words_show(d, width);
        },
        TokView::Word(frags) => {
            if frags.len() == 0 {
                assert(text::line_text(frags).len() == 0);
            }
            let v = wrap::wrap_toks(d, width);
            let cols = text::line_width(frags);
            let v1 = if v.used > 0 && v.used + cols > width {
                wrap::finished(v)
            } else {
                v
            };
            if cols > width {
                let rest = frags.drop_last();
                assert(is_word(frags[frags.len() - 1].text));
                hard_chars_show(
                    wrap::hard_word(v1, rest, width),
                    frags.last().style,
                    frags.last().text,
                    width,
                );
            }
        },
        TokView::Break => {},
    }
}

// A line ending ends a line.

proof fn tok_chars_go_on(
    before: Seq<TokView>,
    toks: Seq<TokView>,
    style: StyleView,
    chars: Seq<char>,
)
    requires
        before.len() > 0,
        before.last() is Break,
    ensures
        ({
            let (t, b) = wrap::tok_chars(toks, style, chars);
            wrap::tok_chars(before + toks, style, chars) == (before + t, b)
        }),
    decreases chars.len(),
{
    if chars.len() > 0 {
        tok_chars_go_on(before, toks, style, chars.drop_last());
        let (t, b) = wrap::tok_chars(toks, style, chars.drop_last());
        flushing_goes_on(before, t, b, style);
        let f = wrap::flushed(t, b, style);
        if f.len() == 0 {
            assert(before + f =~= before);
        } else {
            assert((before + f).last() == f.last());
        }
        assert((before + f).push(TokView::Break) =~= before + f.push(TokView::Break));
        assert((before + f).push(TokView::Space(style)) =~= before + f.push(
            TokView::Space(style),
        ));
    }
}

proof fn flushing_goes_on(
    before: Seq<TokView>,
    toks: Seq<TokView>,
    buf: Seq<char>,
    style: StyleView,
)
    requires
        before.len() > 0,
        before.last() is Break,
    ensures
        wrap::flushed(before + toks, buf, style) == before + wrap::flushed(toks, buf, style),
{
    let frag = SpanView { text: buf, style };
    if toks.len() == 0 {
        assert(before + toks =~= before);
        assert(before.push(TokView::Word(seq![frag])) =~= before + toks.push(
            TokView::Word(seq![frag]),
        ));
    } else {
        assert((before + toks).last() == toks.last());
        assert((before + toks).drop_last() =~= before + toks.drop_last());
        assert((before + toks).push(TokView::Word(seq![frag])) =~= before + toks.push(
            TokView::Word(seq![frag]),
        ));
        if toks.last() is Word {
            let wd = TokView::Word(toks.last()->Word_0.push(frag));
            assert((before + toks.drop_last()).push(wd) =~= before + toks.drop_last().push(wd));
        }
    }
}

proof fn tokens_go_on(a: Seq<SpanView>, b: Seq<SpanView>)
    requires
        wrap::tokens(a).len() > 0,
        wrap::tokens(a).last() is Break,
    ensures
        wrap::tokens(a + b) == wrap::tokens(a) + wrap::tokens(b),
    decreases b.len(),
{
    if b.len() == 0 {
        assert(a + b =~= a);
        assert(wrap::tokens(a) + wrap::tokens(b) =~= wrap::tokens(a));
    } else {
        assert((a + b).drop_last() =~= a + b.drop_last());
        tokens_go_on(a, b.drop_last());
        let s = b.last();
        let t0 = wrap::tokens(b.drop_last());
        tok_chars_go_on(wrap::tokens(a), t0, s.style, s.text);
        let (t, u) = wrap::tok_chars(t0, s.style, s.text);
        flushing_goes_on(wrap::tokens(a), t, u, s.style);
    }
}

/// Whether text ends in a character that is no whitespace.
pub open spec fn ends_visibly(s: Seq<char>) -> bool {
    s.len() > 0 && !strings::is_white(s.last())
}

proof fn last_token_is_word(spans: Seq<SpanView>)
    requires
        ends_visibly(text::line_text(spans)),
    ensures
        wrap::tokens(spans).len() > 0,
        wrap::tokens(spans).last() is Word,
{
    reading_spans(spans);
    let t = text::line_text(spans);
    assert(read(t).1.len() > 0);
}

proof fn break_token(spans: Seq<SpanView>, style: StyleView)
    ensures
        wrap::tokens(spans.push(SpanView { text: seq!['\n'], style })) == wrap::tokens(spans).push(
            TokView::Break,
        ),
{
    let s = SpanView { text: seq!['\n'], style };
    let all = spans.push(s);
    assert(all.drop_last() =~= spans);
    assert(seq!['\n'].drop_last() =~= seq![]);
    let t = wrap::tokens(spans);
    assert(wrap::tok_chars(t, style, seq!['\n'].drop_last()) == (t, Seq::<char>::empty()));
    assert(wrap::tok_chars(t, style, seq!['\n']) == (t.push(TokView::Break), Seq::<char>::empty()));
}

/// A line ending parts lines: text that ends visibly, a line ending and more text
/// wrap to the lines of the one and then those of the other.
pub proof fn breaks_end_lines(
    a: Seq<SpanView>,
    style: StyleView,
    b: Seq<SpanView>,
    width: nat,
)
    requires
        ends_visibly(text::line_text(a)),
        ends_visibly(text::line_text(b)),
    ensures
        wrap::wrapped(a.push(SpanView { text: seq!['\n'], style }) + b, width) == wrap::wrapped(
            a,
            width,
        ) + wrap::wrapped(b, width),
{
    let n = wrap::at_least_one(width);
    let ab = a.push(SpanView { text: seq!['\n'], style });
    let ta = wrap::tokens(a);
    let tb = wrap::tokens(b);
    reading_spans(a);
    reading_spans(b);
    last_token_is_word(a);
    last_token_is_word(b);
    break_token(a, style);
    tokens_go_on(ab, b);
    words_show(ta, n);
    words_show(tb, n);
    let t1 = ta.push(TokView::Break);
    assert(t1.drop_last() =~= ta);
    led_toks(t1, tb, n);
    let wa = wrap::wrap_toks(ta, n);
    let wb = wrap::wrap_toks(tb, n);
    led_finished(wrap::wrapped(a, width), wb);
}

// Lines are filled.

proof fn spaced_word_tokens(a: Seq<SpanView>, style: StyleView, b: SpanView)
    requires
        ends_visibly(text::line_text(a)),
        is_word(b.text),
    ensures
        wrap::tokens(a.push(SpanView { text: seq![' '], style }).push(b)) == wrap::tokens(a).push(
            TokView::Space(style),
        ).push(TokView::Word(seq![b])),
{
    let s = SpanView { text: seq![' '], style };
    let t = wrap::tokens(a);
    last_token_is_word(a);
    assert(a.push(s).drop_last() =~= a);
    assert(seq![' '].drop_last() =~= seq![]);
    assert(wrap::tok_chars(t, style, seq![' '].drop_last()) == (t, Seq::<char>::empty()));
    let ts = t.push(TokView::Space(style));
    assert(wrap::tokens(a.push(s)) == ts);
    assert(a.push(s).push(b).drop_last() =~= a.push(s));
    run_chars(ts, b.style, b.text);
    assert(b == (SpanView { text: b.text, style: b.style }));
}

proof fn run_chars(toks: Seq<TokView>, style: StyleView, chars: Seq<char>)
    requires
        forall|i: int| 0 <= i < chars.len() ==> !strings::is_white(#[trigger] chars[i]),
    ensures
        wrap::tok_chars(toks, style, chars) == (toks, chars),
    decreases chars.len(),
{
    if chars.len() > 0 {
        run_chars(toks, style, chars.drop_last());
        assert(chars.drop_last().push(chars.last()) =~= chars);
    }
}

/// Lines are filled: the next word of printable ASCII goes behind a space on the
/// last line exactly where it fits there, and on a line of its own otherwise.
pub proof fn lines_are_filled(a: Seq<SpanView>, style: StyleView, b: SpanView, width: nat)
    requires
        rewrap::plain_ascii(a),
        ends_visibly(text::line_text(a)),
        is_word(b.text),
        b.text.len() <= width,
    ensures
        ({
            let space = SpanView { text: seq![' '], style };
            let lines = rewrap::ascii_wrapped(a, width);
            let last = lines.last();
            lines.len() > 0 && rewrap::ascii_wrapped(a.push(space).push(b), width) == (if
            text::line_text(last).len() + 1 + b.text.len() <= width {
                lines.drop_last().push(last.push(space).push(b))
            } else {
                lines.push(seq![b])
            })
        }),
{
    let space = SpanView { text: seq![' '], style };
    let lines = rewrap::ascii_wrapped(a, width);
    let toks = wrap::tokens(a);
    let w = rewrap::ascii_wrap_toks(toks, width);
    reading_spans(a);
    last_token_is_word(a);
    ascii_words_show(toks, width);
    rewrap::ascii_lines_are_counted(a, width);
    assert(wrap::trim_spaces(w.cur) == w.cur);
    len_is_counted(w.cur);
    assert(lines == w.out.push(w.cur));
    assert(lines.drop_last() =~= w.out);
    spaced_word_tokens(a, style, b);
    let t1 = toks.push(TokView::Space(style));
    let t2 = t1.push(TokView::Word(seq![b]));
    assert(t1.drop_last() =~= toks);
    assert(t2.drop_last() =~= t1);
    text::line_len_of_one(b);
    let w1 = rewrap::ascii_wrap_toks(t1, width);
    let w2 = rewrap::ascii_wrap_toks(t2, width);
    run_is_no_space(seq![b]);
    assert(wrap::trim_spaces(seq![b]) == seq![b]);
    assert(w.cur.push(space).drop_last() =~= w.cur);
    if w.used + 1 + b.text.len() <= width {
        assert(w1.cur == w.cur.push(space));
        assert(w2.cur =~= w.cur.push(space).push(b));
        run_is_no_space(w2.cur);
        assert(wrap::trim_spaces(w2.cur) == w2.cur);
    } else {
        assert(wrap::trim_spaces(w1.cur) == w.cur);
        assert(w2.out == w.out.push(w.cur));
        assert(w2.cur =~= seq![b]);
    }
}

/// A word of printable ASCII that is too long for any line starts on a line of its own.
pub proof fn long_words_start_lines(a: Seq<SpanView>, style: StyleView, b: SpanView, width: nat)
    requires
        rewrap::plain_ascii(a),
        ends_visibly(text::line_text(a)),
        is_word(b.text),
        b.text.len() > width >= 1,
    ensures
        ({
            let space = SpanView { text: seq![' '], style };
            rewrap::ascii_wrapped(a.push(space).push(b), width) == rewrap::ascii_wrapped(a, width)
                + rewrap::ascii_wrapped(seq![b], width)
        }),
{
    let space = SpanView { text: seq![' '], style };
    let lines = rewrap::ascii_wrapped(a, width);
    let toks = wrap::tokens(a);
    let w = rewrap::ascii_wrap_toks(toks, width);
    reading_spans(a);
    last_token_is_word(a);
    ascii_words_show(toks, width);
    rewrap::ascii_lines_are_counted(a, width);
    assert(wrap::trim_spaces(w.cur) == w.cur);
    len_is_counted(w.cur);
    line_is_long(a, w.cur, width);
    assert(lines == w.out.push(w.cur));
    spaced_word_tokens(a, style, b);
    let one = seq![b];
    let t1 = toks.push(TokView::Space(style));
    let t2 = t1.push(TokView::Word(one));
    assert(t1.drop_last() =~= toks);
    assert(t2.drop_last() =~= t1);
    text::line_len_of_one(b);
    let w1 = rewrap::ascii_wrap_toks(t1, width);
    assert(w.cur.push(space).drop_last() =~= w.cur);
    assert(wrap::trim_spaces(w1.cur) == w.cur);
    let fresh = Wrap { out: seq![], cur: seq![], used: 0 };
    assert(wrap::finished(w1) == led(lines, fresh)) by {
        assert(lines + Seq::<Seq<SpanView>>::empty() =~= lines);
    }
    ascii_led_hard_word(lines, fresh, one, width);
    let v = rewrap::ascii_hard_word(fresh, one, width);
    let none = Seq::<TokView>::empty();
    run_chars(none, b.style, b.text);
    assert(one.drop_last() =~= seq![]);
    assert(wrap::tokens(one.drop_last()) == none);
    let tb = wrap::tokens(one);
    assert(tb == none.push(TokView::Word(one)));
    assert(tb.drop_last() =~= none);
    assert(rewrap::ascii_wrap_toks(none, width) == fresh);
    assert(rewrap::ascii_wrap_toks(tb, width) == v);
    reading_spans(one);
    ascii_words_show(tb, width);
    led_finished(lines, v);
}

proof fn line_is_long(a: Seq<SpanView>, line: Seq<SpanView>, width: nat)
    requires
        rewrap::plain_ascii(a),
        ends_visibly(text::line_text(a)),
        width >= 1,
        line == rewrap::ascii_wrap_toks(wrap::tokens(a), width).cur,
    ensures
        text::line_len(line) > 0,
{
    reading_spans(a);
    last_token_is_word(a);
    let toks = wrap::tokens(a);
    let frags = toks.last()->Word_0;
    assert(toks.last() == toks[toks.len() - 1]);
    let v = rewrap::ascii_wrap_toks(toks.drop_last(), width);
    len_is_counted(frags);
    let v1 = if v.used > 0 && v.used + text::line_len(frags) > width {
        wrap::finished(v)
    } else {
        v
    };
    if text::line_len(frags) > width {
        if frags.len() == 0 {
            assert(text::line_text(frags).len() == 0);
        }
        let last = frags.last();
        assert(is_word(frags[frags.len() - 1].text));
        let x = rewrap::ascii_hard_word(v1, frags.drop_last(), width);
        let y = rewrap::ascii_hard_chars(x, last.style, last.text.drop_last(), width);
        let c = last.text.last();
        let z = if y.used > 0 && y.used + 1 > width {
            wrap::finished(y)
        } else {
            y
        };
        let one = SpanView { text: seq![c], style: last.style };
        assert(line == text::push_span(z.cur, one));
        text::push_appends_text(z.cur, one);
        len_is_counted(line);
    } else {
        text::line_len_add(v1.cur, frags);
    }
}

// Words that are too long for any line.

/// The part of a word that is the `i`th line of it.
pub open spec fn piece(s: Seq<char>, width: nat, i: int) -> Seq<char> {
    s.subrange(
        i * width,
        if (i + 1) * width <= s.len() {
            (i + 1) * width
        } else {
            s.len() as int
        },
    )
}

/// Whether the first `n` characters of a word are laid out in pieces.
spec fn cut_up(w: Wrap, s: SpanView, width: nat, n: int) -> bool {
    let k = w.out.len() as int;
    &&& k * width < n <= (k + 1) * width
    &&& w.used == n - k * width
    &&& w.cur == seq![SpanView { text: s.text.subrange(k * width, n), style: s.style }]
    &&& forall|i: int|
        0 <= i < k ==> #[trigger] w.out[i] == seq![
            SpanView { text: s.text.subrange(i * width, (i + 1) * width), style: s.style },
        ]
}

proof fn cutting_up(s: SpanView, width: nat, n: int)
    requires
        is_word(s.text),
        0 < n <= s.text.len(),
        width >= 1,
    ensures
        cut_up(
            rewrap::ascii_hard_chars(
                Wrap { out: seq![], cur: seq![], used: 0 },
                s.style,
                s.text.take(n),
                width,
            ),
            s,
            width,
            n,
        ),
    decreases n,
{
    let w0 = Wrap { out: seq![], cur: seq![], used: 0 };
    let w = rewrap::ascii_hard_chars(w0, s.style, s.text.take(n), width);
    let v = rewrap::ascii_hard_chars(w0, s.style, s.text.take(n).drop_last(), width);
    let c = s.text[n - 1];
    let one = SpanView { text: seq![c], style: s.style };
    assert(s.text.take(n).last() == c);
    assert(s.text.take(n).drop_last() =~= s.text.take(n - 1));
    if n == 1 {
        assert(s.text.take(n).drop_last() =~= seq![]);
        assert(v == w0);
        assert(w.cur =~= seq![one]);
        assert(s.text.subrange(0, 1) =~= seq![c]);
        assert(0 * width == 0);
    } else {
        cutting_up(s, width, n - 1);
        let k = v.out.len() as int;
        let part = s.text.subrange(k * width, n - 1);
        assert(v.cur.last().text == part);
        assert((k + 1) * width == k * width + width) by (nonlinear_arith);
        assert((k + 2) * width == (k + 1) * width + width) by (nonlinear_arith);
        if v.used + 1 > width {
            let line = seq![SpanView { text: part, style: s.style }];
            assert(is_word(part)) by {
                assert forall|i: int| 0 <= i < part.len() implies !strings::is_white(
                    #[trigger] part[i],
                ) by {
                    assert(part[i] == s.text[k * width + i]);
                }
            }
            run_is_no_space(v.cur);
            assert(wrap::trim_spaces(v.cur) == v.cur);
            assert(w.out == v.out.push(line));
            assert(w.cur =~= seq![one]);
            assert(s.text.subrange((k + 1) * width, n) =~= seq![c]);
        } else {
            assert(part + seq![c] =~= s.text.subrange(k * width, n));
            assert(w.cur =~= seq![
                SpanView { text: s.text.subrange(k * width, n), style: s.style },
            ]);
        }
    }
}

/// A word of printable ASCII that is longer than a line is cut where lines are full:
/// every line but the last holds `width` characters of it, in order.
pub proof fn long_words_are_cut(s: SpanView, width: nat)
    requires
        is_word(s.text),
        width >= 1,
        s.text.len() > width,
    ensures
        ({
            let lines = rewrap::ascii_wrapped(seq![s], width);
            &&& (lines.len() - 1) * width < s.text.len() <= lines.len() * width
            &&& forall|i: int|
                0 <= i < lines.len() ==> #[trigger] lines[i] == seq![
                    SpanView { text: piece(s.text, width, i), style: s.style },
                ]
        }),
{
    let spans = seq![s];
    let lines = rewrap::ascii_wrapped(spans, width);
    assert(spans.drop_last() =~= seq![]);
    let none = Seq::<TokView>::empty();
    assert(wrap::tokens(spans.drop_last()) == none);
    run_chars(none, s.style, s.text);
    let toks = wrap::tokens(spans);
    assert(toks == none.push(TokView::Word(spans)));
    assert(toks.drop_last() =~= none);
    text::line_len_of_one(s);
    let w0 = Wrap { out: seq![], cur: seq![], used: 0 };
    assert(rewrap::ascii_hard_word(w0, spans.drop_last(), width) == w0);
    let n = s.text.len() as int;
    let w = rewrap::ascii_wrap_toks(toks, width);
    assert(s.text.take(n) =~= s.text);
    assert(rewrap::ascii_wrap_toks(none, width) == w0);
    assert(toks.last() == TokView::Word(spans));
    assert(w == rewrap::ascii_hard_word(w0, spans, width));
    assert(spans.last() == s);
    assert(w == rewrap::ascii_hard_chars(w0, s.style, s.text, width));
    cutting_up(s, width, n);
    let k = w.out.len() as int;
    let part = s.text.subrange(k * width, n);
    assert(is_word(part)) by {
        assert forall|i: int| 0 <= i < part.len() implies !strings::is_white(
            #[trigger] part[i],
        ) by {
            assert(part[i] == s.text[k * width + i]);
        }
    }
    run_is_no_space(w.cur);
    assert(wrap::trim_spaces(w.cur) == w.cur);
    assert(lines == w.out.push(w.cur));
    assert forall|i: int| 0 <= i < lines.len() implies #[trigger] lines[i] == seq![
        SpanView { text: piece(s.text, width, i), style: s.style },
    ] by {
        if i < k {
            assert(lines[i] == w.out[i]);
            assert((i + 1) * width <= k * width) by (nonlinear_arith)
                requires
                    i + 1 <= k,
            ;
        } else {
            if (k + 1) * width <= n {
                assert((k + 1) * width == n);
            }
        }
    }
}

} // verus!
