//! What is shown of the blocks of a document: nothing that a block says is lost,
//! and all of it stands behind what the blocks around it put in front of a line.

use vstd::prelude::*;
use crate::event::{EventView, TagView};
use crate::highlight;
use crate::state;
use crate::state::{CodeView, PrefixView, State};
use crate::strings;
use crate::text;
use crate::text::SpanView;
use crate::words;
use crate::wrap;

verus! {

/// Whether a render stands between elements that swallow events.
pub open spec fn outside(s: State) -> bool {
    s.code is None && s.image is None && s.asked is None
}

/// What blocks put in front of the `i`th of some lines: their marker in front of the
/// first where it has not been shown yet, and what stands below it in front of the
/// others.
pub open spec fn lead(prefixes: Seq<PrefixView>, i: int) -> Seq<SpanView>
    decreases prefixes.len(),
{
    if prefixes.len() == 0 {
        seq![]
    } else {
        let p = prefixes.last();
        lead(prefixes.drop_last(), i).push(
            SpanView {
                text: if i == 0 && !p.first_done {
                    p.first
                } else {
                    p.rest
                },
                style: p.style,
            },
        )
    }
}

/// Whether a line of a document reads as some spans, each visible character in its
/// style.
pub open spec fn reads(line: Seq<SpanView>, spans: Seq<SpanView>) -> bool {
    text::line_text(line) == text::line_text(spans) && wrap::ink(line) == wrap::ink(spans)
}

/// Whether a render shows what it showed before and, below that, more lines, each
/// behind what the blocks around it put in front.
pub open spec fn shows(before: State, after: State, lines: Seq<Seq<SpanView>>) -> bool {
    let n = before.lines.len();
    &&& after.lines.len() == n + lines.len()
    &&& forall|i: int| 0 <= i < n ==> #[trigger] after.lines[i] == before.lines[i]
    &&& forall|i: int|
        0 <= i < lines.len() ==> reads(
            #[trigger] after.lines[n + i],
            lead(before.prefixes, i) + lines[i],
        )
}

proof fn ink_of_pushes(line: Seq<SpanView>, spans: Seq<SpanView>)
    ensures
        wrap::ink(text::push_spans(line, spans)) == wrap::ink(line) + wrap::ink(spans),
    decreases spans.len(),
{
    if spans.len() == 0 {
        assert(wrap::ink(line) + wrap::ink(spans) =~= wrap::ink(line));
    } else {
        let d = spans.drop_last();
        let s = spans.last();
        ink_of_pushes(line, d);
        wrap::ink_of_pushed(text::push_spans(line, d), s);
        let i = wrap::ink_chars(s.text, s.style);
        assert(wrap::ink(line) + wrap::ink(d) + i =~= wrap::ink(line) + (wrap::ink(d) + i));
    }
}

proof fn heads_lead(prefixes: Seq<PrefixView>)
    ensures
        state::heads(prefixes) == lead(prefixes, 0),
    decreases prefixes.len(),
{
    if prefixes.len() > 0 {
        heads_lead(prefixes.drop_last());
        assert(state::heads(prefixes) =~= state::heads(prefixes.drop_last()).push(
            state::heads(prefixes).last(),
        ));
    } else {
        assert(state::heads(prefixes) =~= seq![]);
    }
}

proof fn begun_lead(prefixes: Seq<PrefixView>, i: int)
    requires
        i > 0,
    ensures
        lead(state::begun(prefixes), 0) == lead(prefixes, i),
        lead(state::begun(prefixes), i) == lead(prefixes, i),
    decreases prefixes.len(),
{
    if prefixes.len() > 0 {
        begun_lead(prefixes.drop_last(), i);
        assert(state::begun(prefixes).drop_last() =~= state::begun(prefixes.drop_last()));
    }
}

proof fn begun_twice(prefixes: Seq<PrefixView>)
    ensures
        state::begun(state::begun(prefixes)) == state::begun(prefixes),
{
    assert(state::begun(state::begun(prefixes)) =~= state::begun(prefixes));
}

proof fn line_reads(s: State, content: Seq<SpanView>)
    ensures
        reads(s.push_line(content).lines.last(), lead(s.prefixes, 0) + content),
{
    let h = state::heads(s.prefixes);
    let none = Seq::<SpanView>::empty();
    heads_lead(s.prefixes);
    text::pushes_append_text(none, h);
    text::pushes_append_text(text::push_spans(none, h), content);
    words::text_of_sum(h, content);
    assert(text::line_text(none) + text::line_text(h) =~= text::line_text(h));
    ink_of_pushes(none, h);
    ink_of_pushes(text::push_spans(none, h), content);
    wrap::ink_of_sum(h, content);
    assert(wrap::ink(none) + wrap::ink(h) =~= wrap::ink(h));
}

/// Lines that are pushed are shown.
pub proof fn pushed_lines_show(s: State, lines: Seq<Seq<SpanView>>)
    ensures
        shows(s, s.push_lines(lines), lines),
        s.push_lines(lines) == (State {
            lines: s.push_lines(lines).lines,
            prefixes: if lines.len() > 0 {
                state::begun(s.prefixes)
            } else {
                s.prefixes
            },
            ..s
        }),
    decreases lines.len(),
{
    if lines.len() > 0 {
        let d = lines.drop_last();
        pushed_lines_show(s, d);
        let t = s.push_lines(d);
        let r = s.push_lines(lines);
        let n = s.lines.len() as int;
        line_reads(t, lines.last());
        begun_twice(s.prefixes);
        if d.len() > 0 {
            begun_lead(s.prefixes, d.len() as int);
        }
        assert forall|i: int| 0 <= i < n implies #[trigger] r.lines[i] == s.lines[i] by {
            assert(r.lines[i] == t.lines[i]);
        }
        assert forall|i: int| 0 <= i < lines.len() implies reads(
            #[trigger] r.lines[n + i],
            lead(s.prefixes, i) + lines[i],
        ) by {
            if i < d.len() {
                assert(r.lines[n + i] == t.lines[n + i]);
                assert(lines[i] == d[i]);
            } else {
                assert(r.lines[n + i] == r.lines.last());
            }
        }
        assert(r =~= State { lines: r.lines, prefixes: state::begun(s.prefixes), ..s });
    } else {
        assert(s =~= State { lines: s.lines, prefixes: s.prefixes, ..s });
    }
}

/// A run of events in two parts.
pub proof fn events_join(s: State, a: Seq<EventView>, b: Seq<EventView>)
    ensures
        s.events(a + b) == s.events(a).events(b),
    decreases b.len(),
{
    if b.len() == 0 {
        assert(a + b =~= a);
    } else {
        assert((a + b).drop_last() =~= a + b.drop_last());
        events_join(s, a, b.drop_last());
    }
}

/// A run of one event.
pub proof fn events_one(s: State, e: EventView)
    ensures
        s.events(seq![e]) == s.event(e).0,
{
    assert(seq![e].drop_last() =~= Seq::<EventView>::empty());
    assert(s.events(seq![e].drop_last()) == s);
}

/// A run of an event and then others.
pub proof fn events_first(s: State, e: EventView, es: Seq<EventView>)
    ensures
        s.events(seq![e] + es) == s.event(e).0.events(es),
{
    events_join(s, seq![e], es);
    events_one(s, e);
}

/// An event between elements that swallow events is a plain one.
pub proof fn plainly(s: State, e: EventView)
    requires
        outside(s),
    ensures
        s.event(e) == (s.plain_event(e), None::<state::WantView>),
{
    assert(s.answer(None) == s);
}

// Code.

/// Texts, one behind the other.
pub open spec fn joined(ts: Seq<Seq<char>>) -> Seq<char>
    decreases ts.len(),
{
    if ts.len() == 0 {
        seq![]
    } else {
        joined(ts.drop_last()) + ts.last()
    }
}

/// The events of some texts.
pub open spec fn text_events(ts: Seq<Seq<char>>) -> Seq<EventView> {
    Seq::new(ts.len(), |i: int| EventView::Text(ts[i]))
}

/// The language of a code block: the first word of what follows the fence.
pub open spec fn language(info: Option<Seq<char>>) -> Seq<char> {
    match info {
        Some(i) => if words::words(i).len() > 0 {
            words::words(i)[0]
        } else {
            seq![]
        },
        None => seq![],
    }
}

proof fn code_collects(s: State, code: CodeView, ts: Seq<Seq<char>>)
    requires
        s.code == Some(code),
        s.asked is None,
    ensures
        s.events(text_events(ts)) == (State {
            code: Some(CodeView { lang: code.lang, buf: code.buf + joined(ts) }),
            ..s
        }),
    decreases ts.len(),
{
    let es = text_events(ts);
    if ts.len() == 0 {
        assert(code.buf + joined(ts) =~= code.buf);
        assert(s =~= State { code: Some(CodeView { lang: code.lang, buf: code.buf }), ..s });
    } else {
        assert(es.drop_last() =~= text_events(ts.drop_last()));
        code_collects(s, code, ts.drop_last());
        let t = s.events(es.drop_last());
        assert(t.answer(None) == t);
        assert(code.buf + joined(ts.drop_last()) + ts.last() =~= code.buf + joined(ts));
    }
}

/// A code block is shown whole: whatever texts come between its start and its end,
/// its lines are those of all of them together, in the language that its fence
/// names. A picture that is asked for in its place and cannot be had changes
/// nothing.
pub proof fn code_blocks_are_shown_whole(s: State, info: Option<Seq<char>>, ts: Seq<Seq<char>>)
    requires
        outside(s),
    ensures
        ({
            let open = s.event(EventView::Start(TagView::CodeBlock(info))).0;
            let done = open.events(
                text_events(ts).push(EventView::End(pulldown_cmark::TagEnd::CodeBlock)),
            ).answer(None);
            &&& outside(done)
            &&& shows(
                open,
                done,
                highlight::code_lines(s.syntaxes, s.palette, language(info), joined(ts)),
            )
            &&& s.image_mode is Off ==> outside(
                open.events(
                    text_events(ts).push(EventView::End(pulldown_cmark::TagEnd::CodeBlock)),
                ),
            )
        }),
{
    let start = EventView::Start(TagView::CodeBlock(info));
    let end = EventView::End(pulldown_cmark::TagEnd::CodeBlock);
    let es = text_events(ts);
    plainly(s, start);
    state::starts_plainly(s, TagView::CodeBlock(info));
    state::start_tag_plainly(s, 0, info);
    block_start_keeps(s);
    let open = s.event(start).0;
    if let Some(i) = info {
        first_words(i);
    }
    let code = CodeView { lang: language(info), buf: seq![] };
    assert(open.code == Some(code));
    code_collects(open, code, ts);
    let full = open.events(es);
    assert(es.push(end).drop_last() =~= es);
    assert(full.answer(None) == full);
    assert(code.buf + joined(ts) =~= joined(ts));
    let whole = CodeView { lang: language(info), buf: joined(ts) };
    let lines = highlight::code_lines(s.syntaxes, s.palette, language(info), joined(ts));
    let closed = State { code: None, ..full };
    pushed_lines_show(closed, lines);
    let ended = open.events(es.push(end));
    if s.diagrams && !(s.image_mode is Off) && state::drawable(whole.lang) {
        assert(State { asked: None, ..ended } =~= closed);
    }
    assert(ended.answer(None) == closed.push_lines(lines));
    assert(shows(open, closed.push_lines(lines), lines));
}

/// The start of a block leaves all but the lines and what goes into them.
pub proof fn block_start_keeps(s: State)
    ensures
        ({
            let t = s.block_start();
            t == (State {
                lines: t.lines,
                prefixes: t.prefixes,
                inline: seq![],
                at_item_start: false,
                ..s
            }) || t == (State { lines: t.lines, prefixes: t.prefixes, inline: seq![], ..s })
        }),
{
    flush_keeps(s);
    let f = s.flush_inline();
    let t = s.block_start();
    if f.at_item_start {
        assert(t =~= State {
            lines: t.lines,
            prefixes: t.prefixes,
            inline: seq![],
            at_item_start: false,
            ..s
        });
    } else {
        assert(t =~= State { lines: t.lines, prefixes: t.prefixes, inline: seq![], ..s });
    }
}

/// Flushing leaves all but the lines and what goes into them.
pub proof fn flush_keeps(s: State)
    ensures
        ({
            let t = s.flush_inline();
            t == (State { lines: t.lines, prefixes: t.prefixes, inline: seq![], ..s })
        }),
{
    reveal(State::flush_inline);
    let t = s.flush_inline();
    if s.inline.len() > 0 {
        pushed_lines_show(
            State { inline: seq![], ..s },
            wrap::wrapped(s.inline, s.avail()),
        );
    }
    assert(t =~= State { lines: t.lines, prefixes: t.prefixes, inline: seq![], ..s });
}

proof fn white_run_ends(s: Seq<char>, from: int)
    requires
        0 <= from <= s.len(),
    ensures
        from <= strings::white_at(s, from) <= s.len(),
        forall|i: int|
            from <= i < strings::white_at(s, from) ==> !strings::is_white(#[trigger] s[i]),
        strings::white_at(s, from) < s.len() ==> strings::is_white(
            s[strings::white_at(s, from)],
        ),
    decreases s.len() - from,
{
    if from < s.len() && !strings::is_white(s[from]) {
        white_run_ends(s, from + 1);
    }
}

proof fn leading_space_goes(s: Seq<char>)
    ensures
        words::words(strings::trimmed_start(s)) == words::words(s),
        strings::trimmed_start(s).len() > 0 ==> !strings::is_white(strings::trimmed_start(s)[0]),
    decreases s.len(),
{
    if s.len() > 0 && strings::is_white(s[0]) {
        leading_space_goes(s.skip(1));
        let none = Seq::<char>::empty();
        words::words_stay_apart(none, s[0], s.skip(1));
        assert(none.push(s[0]) + s.skip(1) =~= s);
        assert(words::words(none) + words::words(s.skip(1)) =~= words::words(s.skip(1)));
    }
}

proof fn first_words(s: Seq<char>)
    ensures
        strings::first_word(s) == (if words::words(s).len() > 0 {
            words::words(s)[0]
        } else {
            seq![]
        }),
{
    let t = strings::trimmed_start(s);
    leading_space_goes(s);
    white_run_ends(t, 0);
    let k = strings::white_at(t, 0);
    let w = t.take(k);
    if t.len() == 0 {
        assert(words::words(t).len() == 0);
        assert(w =~= seq![]);
    } else {
        assert(k > 0);
        words::runs_are_words(w);
        if k < t.len() {
            words::words_stay_apart(w, t[k], t.skip(k + 1));
            assert(w.push(t[k]) + t.skip(k + 1) =~= t);
        } else {
            assert(w =~= t);
        }
    }
}

} // verus!
