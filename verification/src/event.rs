//! Markdown events, as the parser gives them.

use vstd::prelude::*;
use crate::table::Align;

verus! {

/// `pulldown_cmark::HeadingLevel`, as it is declared.
#[verifier::external_type_specification]
pub struct ExHeadingLevel(pulldown_cmark::HeadingLevel);

/// `pulldown_cmark::BlockQuoteKind`, as it is declared.
#[verifier::external_type_specification]
pub struct ExBlockQuoteKind(pulldown_cmark::BlockQuoteKind);

/// `pulldown_cmark::MetadataBlockKind`, as it is declared.
#[verifier::external_type_specification]
pub struct ExMetadataBlockKind(pulldown_cmark::MetadataBlockKind);

/// `pulldown_cmark::LinkType`, as it is declared.
#[verifier::external_type_specification]
pub struct ExLinkType(pulldown_cmark::LinkType);

/// `pulldown_cmark::Alignment`, as it is declared.
#[verifier::external_type_specification]
pub struct ExAlignment(pulldown_cmark::Alignment);

/// `pulldown_cmark::TagEnd`, as it is declared.
#[verifier::external_type_specification]
pub struct ExTagEnd(pulldown_cmark::TagEnd);

/// `pulldown_cmark::CowStr`, of which nothing is known but what is stated of calls.
#[verifier::external_type_specification]
#[verifier::external_body]
pub struct ExCowStr<'a>(pulldown_cmark::CowStr<'a>);

/// `pulldown_cmark::CodeBlockKind`, as it is declared.
#[verifier::external_type_specification]
pub struct ExCodeBlockKind<'a>(pulldown_cmark::CodeBlockKind<'a>);

/// `pulldown_cmark::Tag`, as it is declared.
#[verifier::external_type_specification]
pub struct ExTag<'a>(pulldown_cmark::Tag<'a>);

/// `pulldown_cmark::Event`, as it is declared.
#[verifier::external_type_specification]
pub struct ExEvent<'a>(pulldown_cmark::Event<'a>);

/// The characters that a `CowStr` holds.
pub uninterp spec fn cow_text(s: pulldown_cmark::CowStr<'_>) -> Seq<char>;

/// Calls `CowStr::to_string`: the characters that the string holds.
#[verifier::external_body]
pub(crate) fn text_of(s: &pulldown_cmark::CowStr<'_>) -> (r: String)
    ensures
        r@ == cow_text(*s),
{
    s.to_string()
}

/// The start of an element, as far as rendering goes by it.
pub enum TagView {
    Paragraph,
    Heading(u8),
    BlockQuote(Option<pulldown_cmark::BlockQuoteKind>),
    /// With the info string, where the block is fenced.
    CodeBlock(Option<Seq<char>>),
    HtmlBlock,
    List(Option<u64>),
    Item,
    FootnoteDefinition(Seq<char>),
    Table(Seq<Align>),
    TableHead,
    TableRow,
    TableCell,
    Emphasis,
    Strong,
    Strikethrough,
    Link(Seq<char>),
    Image(Seq<char>),
    Other,
}

/// An event, as far as rendering goes by it.
pub enum EventView {
    Start(TagView),
    End(pulldown_cmark::TagEnd),
    Text(Seq<char>),
    Code(Seq<char>),
    InlineMath(Seq<char>),
    DisplayMath(Seq<char>),
    Html(Seq<char>),
    InlineHtml(Seq<char>),
    FootnoteReference(Seq<char>),
    SoftBreak,
    HardBreak,
    Rule,
    TaskListMarker(bool),
}

/// A heading level as a number.
pub open spec fn level_number(level: pulldown_cmark::HeadingLevel) -> u8 {
    match level {
        pulldown_cmark::HeadingLevel::H1 => 1,
        pulldown_cmark::HeadingLevel::H2 => 2,
        pulldown_cmark::HeadingLevel::H3 => 3,
        pulldown_cmark::HeadingLevel::H4 => 4,
        pulldown_cmark::HeadingLevel::H5 => 5,
        pulldown_cmark::HeadingLevel::H6 => 6,
    }
}

/// A heading level as a number.
pub fn heading_level(level: pulldown_cmark::HeadingLevel) -> (r: u8)
    ensures
        r == level_number(level),
{
    match level {
        pulldown_cmark::HeadingLevel::H1 => 1,
        pulldown_cmark::HeadingLevel::H2 => 2,
        pulldown_cmark::HeadingLevel::H3 => 3,
        pulldown_cmark::HeadingLevel::H4 => 4,
        pulldown_cmark::HeadingLevel::H5 => 5,
        pulldown_cmark::HeadingLevel::H6 => 6,
    }
}

/// The alignment of a column.
pub open spec fn align_of(a: pulldown_cmark::Alignment) -> Align {
    match a {
        pulldown_cmark::Alignment::None => Align::Unset,
        pulldown_cmark::Alignment::Left => Align::Left,
        pulldown_cmark::Alignment::Center => Align::Center,
        pulldown_cmark::Alignment::Right => Align::Right,
    }
}

/// The alignments of the columns of a table.
pub fn aligns_of(aligns: &Vec<pulldown_cmark::Alignment>) -> (r: Vec<Align>)
    ensures
        r@ == aligns@.map_values(|a: pulldown_cmark::Alignment| align_of(a)),
{
    let mut out: Vec<Align> = Vec::new();
    let mut i: usize = 0;
    let ghost want = aligns@.map_values(|a: pulldown_cmark::Alignment| align_of(a));
    while i < aligns.len()
        invariant
            i <= aligns@.len(),
            want == aligns@.map_values(|a: pulldown_cmark::Alignment| align_of(a)),
            out@ =~= want.take(i as int),
        decreases aligns@.len() - i,
    {
        out.push(
            match aligns[i] {
                pulldown_cmark::Alignment::None => Align::Unset,
                pulldown_cmark::Alignment::Left => Align::Left,
                pulldown_cmark::Alignment::Center => Align::Center,
                pulldown_cmark::Alignment::Right => Align::Right,
            },
        );
        i = i + 1;
    }
    assert(want.take(i as int) =~= want);
    out
}

/// What rendering goes by at the start of an element.
pub open spec fn tag_view(tag: pulldown_cmark::Tag<'_>) -> TagView {
    match tag {
        pulldown_cmark::Tag::Paragraph => TagView::Paragraph,
        pulldown_cmark::Tag::Heading { level, id, classes, attrs } => TagView::Heading(
            level_number(level),
        ),
        pulldown_cmark::Tag::BlockQuote(kind) => TagView::BlockQuote(kind),
        pulldown_cmark::Tag::CodeBlock(pulldown_cmark::CodeBlockKind::Fenced(info)) =>
            TagView::CodeBlock(Some(cow_text(info))),
        pulldown_cmark::Tag::CodeBlock(pulldown_cmark::CodeBlockKind::Indented) =>
            TagView::CodeBlock(None),
        pulldown_cmark::Tag::HtmlBlock => TagView::HtmlBlock,
        pulldown_cmark::Tag::List(start) => TagView::List(start),
        pulldown_cmark::Tag::Item => TagView::Item,
        pulldown_cmark::Tag::FootnoteDefinition(name) => TagView::FootnoteDefinition(
            cow_text(name),
        ),
        pulldown_cmark::Tag::Table(aligns) => TagView::Table(
            aligns@.map_values(|a: pulldown_cmark::Alignment| align_of(a)),
        ),
        pulldown_cmark::Tag::TableHead => TagView::TableHead,
        pulldown_cmark::Tag::TableRow => TagView::TableRow,
        pulldown_cmark::Tag::TableCell => TagView::TableCell,
        pulldown_cmark::Tag::Emphasis => TagView::Emphasis,
        pulldown_cmark::Tag::Strong => TagView::Strong,
        pulldown_cmark::Tag::Strikethrough => TagView::Strikethrough,
        pulldown_cmark::Tag::Link { link_type, dest_url, title, id } => TagView::Link(
            cow_text(dest_url),
        ),
        pulldown_cmark::Tag::Image { link_type, dest_url, title, id } => TagView::Image(
            cow_text(dest_url),
        ),
        _ => TagView::Other,
    }
}

/// What rendering goes by in an event.
pub open spec fn event_view(e: pulldown_cmark::Event<'_>) -> EventView {
    match e {
        pulldown_cmark::Event::Start(tag) => EventView::Start(tag_view(tag)),
        pulldown_cmark::Event::End(tag) => EventView::End(tag),
        pulldown_cmark::Event::Text(t) => EventView::Text(cow_text(t)),
        pulldown_cmark::Event::Code(t) => EventView::Code(cow_text(t)),
        pulldown_cmark::Event::InlineMath(t) => EventView::InlineMath(cow_text(t)),
        pulldown_cmark::Event::DisplayMath(t) => EventView::DisplayMath(cow_text(t)),
        pulldown_cmark::Event::Html(t) => EventView::Html(cow_text(t)),
        pulldown_cmark::Event::InlineHtml(t) => EventView::InlineHtml(cow_text(t)),
        pulldown_cmark::Event::FootnoteReference(t) => EventView::FootnoteReference(cow_text(t)),
        pulldown_cmark::Event::SoftBreak => EventView::SoftBreak,
        pulldown_cmark::Event::HardBreak => EventView::HardBreak,
        pulldown_cmark::Event::Rule => EventView::Rule,
        pulldown_cmark::Event::TaskListMarker(done) => EventView::TaskListMarker(done),
    }
}

/// What rendering goes by in a run of events.
pub open spec fn event_views(events: Seq<pulldown_cmark::Event<'_>>) -> Seq<EventView> {
    Seq::new(events.len(), |i: int| event_view(events[i]))
}

/// The extensions of the markdown dialect that are understood.
pub struct Dialect {
    pub tables: bool,
    pub strikethrough: bool,
    pub tasklists: bool,
    pub footnotes: bool,
    /// Admonitions: `> [!NOTE]` etc.
    pub gfm: bool,
}

/// The events that `pulldown_cmark::Parser` gives for a source, in a dialect.
pub uninterp spec fn parsed_events(source: Seq<char>, dialect: Dialect) -> Seq<EventView>;

/// Runs `pulldown_cmark::Parser::new_ext` over a source. The events depend on
/// the source and the dialect alone.
#[verifier::external_body]
fn run_parser<'a>(source: &'a str, dialect: Dialect) -> (r: Vec<pulldown_cmark::Event<'a>>)
    ensures
        event_views(r@) == parsed_events(source@, dialect),
{
    let mut opts = pulldown_cmark::Options::empty();
    opts.set(pulldown_cmark::Options::ENABLE_TABLES, dialect.tables);
    opts.set(pulldown_cmark::Options::ENABLE_STRIKETHROUGH, dialect.strikethrough);
    opts.set(pulldown_cmark::Options::ENABLE_TASKLISTS, dialect.tasklists);
    opts.set(pulldown_cmark::Options::ENABLE_FOOTNOTES, dialect.footnotes);
    opts.set(pulldown_cmark::Options::ENABLE_GFM, dialect.gfm);
    pulldown_cmark::Parser::new_ext(source, opts).collect()
}

/// The dialect that documents are written in.
pub open spec fn dialect() -> Dialect {
    Dialect { tables: true, strikethrough: true, tasklists: true, footnotes: true, gfm: true }
}

/// The events of a markdown document.
pub fn parse<'a>(source: &'a str) -> (r: Vec<pulldown_cmark::Event<'a>>)
    ensures
        event_views(r@) == parsed_events(source@, dialect()),
{
    run_parser(
        source,
        Dialect { tables: true, strikethrough: true, tasklists: true, footnotes: true, gfm: true },
    )
}

} // verus!
