//! How text looks.

use vstd::prelude::*;
use crate::blocks;
use crate::event::{EventView, TagView};
use crate::paragraphs;
use crate::prose;
use crate::state;
use crate::state::State;
use crate::text;
use crate::text::{Color, SpanView, StyleView};

verus! {

/// The events of a text inside an element.
pub open spec fn inside(tag: TagView, t: Seq<char>, end: pulldown_cmark::TagEnd) -> Seq<EventView> {
    seq![EventView::Start(tag), EventView::Text(t), EventView::End(end)]
}

proof fn inside_taken(
    s: State,
    tag: TagView,
    t: Seq<char>,
    end: pulldown_cmark::TagEnd,
    style: StyleView,
)
    requires
        blocks::outside(s),
        s.start_tag(tag) == s.push_style(style),
        end is Emphasis || end is Strong || end is Strikethrough || end is Link,
    ensures
        s.events(inside(tag, t, end)) == (State {
            inline: s.inline.push(SpanView { text: paragraphs::prose_text(t), style }),
            ..s
        }),
{
    paragraphs::events_three(s, EventView::Start(tag), EventView::Text(t), EventView::End(end));
    blocks::plainly(s, EventView::Start(tag));
    state::starts_plainly(s, tag);
    let s1 = s.push_style(style);
    paragraphs::takes_text(s1, t);
    let s2 = s1.push_inline(paragraphs::prose_text(t), style);
    blocks::plainly(s2, EventView::End(end));
    state::ends_plainly(s2, end);
    state::end_tag_plainly(s2, end);
    assert(s2.styles.drop_last() =~= s.styles);
    assert(State { styles: state::popped(s2.styles), ..s2 } =~= State {
        inline: s.inline.push(SpanView { text: paragraphs::prose_text(t), style }),
        ..s
    });
}

/// Emphasis is italic, strong text bold and deleted text struck through, on top of how
/// the text around it looks; what follows looks as before.
pub proof fn emphasis_shows(s: State, t: Seq<char>)
    requires
        blocks::outside(s),
        s.styles.len() > 0,
    ensures
        s.events(inside(TagView::Emphasis, t, pulldown_cmark::TagEnd::Emphasis)) == (State {
            inline: s.inline.push(
                SpanView {
                    text: paragraphs::prose_text(t),
                    style: StyleView { italic: true, ..s.styles.last() },
                },
            ),
            ..s
        }),
        s.events(inside(TagView::Strong, t, pulldown_cmark::TagEnd::Strong)) == (State {
            inline: s.inline.push(
                SpanView {
                    text: paragraphs::prose_text(t),
                    style: StyleView { bold: true, ..s.styles.last() },
                },
            ),
            ..s
        }),
        s.events(inside(TagView::Strikethrough, t, pulldown_cmark::TagEnd::Strikethrough)) == (
        State {
            inline: s.inline.push(
                SpanView {
                    text: paragraphs::prose_text(t),
                    style: StyleView { strikethrough: true, ..s.styles.last() },
                },
            ),
            ..s
        }),
{
    reveal(State::start_tag);
    let c = s.styles.last();
    inside_taken(
        s,
        TagView::Emphasis,
        t,
        pulldown_cmark::TagEnd::Emphasis,
        StyleView { italic: true, ..c },
    );
    inside_taken(
        s,
        TagView::Strong,
        t,
        pulldown_cmark::TagEnd::Strong,
        StyleView { bold: true, ..c },
    );
    inside_taken(
        s,
        TagView::Strikethrough,
        t,
        pulldown_cmark::TagEnd::Strikethrough,
        StyleView { strikethrough: true, ..c },
    );
}

/// The text of a link is underlined and leads where the link does; what follows it
/// leads where it led before.
pub proof fn links_show(s: State, dest: Seq<char>, t: Seq<char>)
    requires
        blocks::outside(s),
        s.styles.len() > 0,
    ensures
        ({
            let r = s.events(inside(TagView::Link(dest), t, pulldown_cmark::TagEnd::Link));
            let span = r.inline.last();
            let c = s.styles.last();
            &&& r.inline == s.inline.push(span)
            &&& r == (State { inline: r.inline, ..s })
            &&& span.text == paragraphs::prose_text(t)
            &&& span.style == (StyleView {
                underline: true,
                fg: span.style.fg,
                link: prose::resolved(dest, s.base, s.resolve_links),
                ..c
            })
            &&& s.theme == state::TermTheme::Dark ==> span.style.fg == Some(
                Color::Rgb { r: 95, g: 175, b: 255 },
            )
            &&& s.theme == state::TermTheme::Light ==> span.style.fg == Some(
                Color::Rgb { r: 9, g: 105, b: 218 },
            )
        }),
{
    reveal(State::start_tag);
    let style = StyleView {
        fg: Some(state::link_color(s.theme)),
        underline: true,
        link: prose::resolved(dest, s.base, s.resolve_links),
        ..s.styles.last()
    };
    inside_taken(s, TagView::Link(dest), t, pulldown_cmark::TagEnd::Link, style);
}

/// The look of text, code, references, HTML, math and checkboxes.
pub proof fn spans_look(s: State, e: EventView)
    requires
        blocks::outside(s),
        paragraphs::is_inline(e),
        !(e is Start) && !(e is End),
        s.styles.len() > 0,
    ensures
        ({
            let c = s.styles.last();
            let span = s.event(e).0.inline.last();
            &&& s.event(e).0.inline == s.inline.push(span)
            &&& e is Text || e is SoftBreak || e is HardBreak ==> span.style == c
            &&& e is Code || e is InlineMath || e is DisplayMath ==> span.style == (StyleView {
                fg: Some(Color::Yellow),
                ..c
            })
            &&& e is FootnoteReference ==> span.style == (StyleView {
                fg: Some(Color::DarkCyan),
                ..c
            })
            &&& e is Html || e is InlineHtml ==> span.style == (StyleView { dim: true, ..c })
            &&& e == EventView::TaskListMarker(true) ==> span.style == (StyleView {
                fg: Some(Color::Green),
                ..text::plain_style()
            })
            &&& e == EventView::TaskListMarker(false) ==> span.style == (StyleView {
                fg: Some(Color::DarkGrey),
                ..text::plain_style()
            })
        }),
{
    blocks::plainly(s, e);
    reveal(State::plain_event);
}

} // verus!
