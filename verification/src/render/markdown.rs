//! The markdown parser seen as a source of plain marks.
use pulldown_cmark::{Event, Options, Parser, Tag, TagEnd};
use vstd::prelude::*;

verus! {

/// An event of the markdown parser.
#[verifier::external_type_specification]
#[verifier::external_body]
pub struct ExEvent<'a>(pulldown_cmark::Event<'a>);

/// The markdown elements that rendering tells apart.
#[derive(Clone, Copy, PartialEq, Eq, Structural)]
pub enum Span {
    Paragraph,
    Heading,
    BlockQuote,
    CodeBlock,
    Item,
    Table,
    TableHead,
    TableRow,
    TableCell,
    Emphasis,
    Strong,
    Strikethrough,
    Link,
    Image,
    Other,
}

/// One event of the markdown parser, reduced to what rendering reads.
pub enum Mark {
    /// The start of an element, with the address of a link or an image.
    Start(Span, String),
    End(Span),
    Text(String),
    Code(String),
    Html(String),
    InlineHtml(String),
    SoftBreak,
    HardBreak,
    Rule,
    Other,
}

/// The mathematical form of a mark.
pub enum MarkView {
    Start(Span, Seq<char>),
    End(Span),
    Text(Seq<char>),
    Code(Seq<char>),
    Html(Seq<char>),
    InlineHtml(Seq<char>),
    SoftBreak,
    HardBreak,
    Rule,
    Other,
}

impl View for Mark {
    type V = MarkView;

    open spec fn view(&self) -> MarkView {
        match self {
            Mark::Start(s, url) => MarkView::Start(*s, url@),
            Mark::End(s) => MarkView::End(*s),
            Mark::Text(t) => MarkView::Text(t@),
            Mark::Code(t) => MarkView::Code(t@),
            Mark::Html(t) => MarkView::Html(t@),
            Mark::InlineHtml(t) => MarkView::InlineHtml(t@),
            Mark::SoftBreak => MarkView::SoftBreak,
            Mark::HardBreak => MarkView::HardBreak,
            Mark::Rule => MarkView::Rule,
            Mark::Other => MarkView::Other,
        }
    }
}

/// The mathematical forms of a sequence of marks.
pub open spec fn marks_of(v: Seq<Mark>) -> Seq<MarkView> {
    v.map_values(|m: Mark| m@)
}

/// One event handed to the HTML writer: an event of the markdown at the given position, or text.
pub enum Pick {
    Same(usize),
    Text(String),
}

/// The mathematical form of a pick.
pub enum PickView {
    Same(usize),
    Text(Seq<char>),
}

impl View for Pick {
    type V = PickView;

    open spec fn view(&self) -> PickView {
        match self {
            Pick::Same(i) => PickView::Same(*i),
            Pick::Text(t) => PickView::Text(t@),
        }
    }
}

/// The mathematical forms of a sequence of picks.
pub open spec fn picks_of(v: Seq<Pick>) -> Seq<PickView> {
    v.map_values(|p: Pick| p@)
}

/// What kind of event a `pulldown_cmark::Event` is, with its text. At the start and at the end of
/// an element the mark does not say which element it is.
pub uninterp spec fn event_kind(ev: Event<'_>) -> MarkView;

/// The block element that a `pulldown_cmark::Event` starts; `Other` for every other event.
pub uninterp spec fn block_started(ev: Event<'_>) -> Span;

/// The inline element that a `pulldown_cmark::Event` starts, with the address of a link or an
/// image; `Other` for every other event.
pub uninterp spec fn inline_started(ev: Event<'_>) -> (Span, Seq<char>);

/// The block element that a `pulldown_cmark::Event` ends; `Other` for every other event.
pub uninterp spec fn block_ended(ev: Event<'_>) -> Span;

/// The inline element that a `pulldown_cmark::Event` ends; `Other` for every other event.
pub uninterp spec fn inline_ended(ev: Event<'_>) -> Span;

/// Tells the variants of `pulldown_cmark::Event` apart and turns their texts into strings. The
/// result depends on the event alone.
#[verifier::external_body]
fn kind_of(ev: &Event<'_>) -> (r: Mark)
    ensures
        r@ == event_kind(*ev),
{
    match ev {
        Event::Start(_) => Mark::Start(Span::Other, String::new()),
        Event::End(_) => Mark::End(Span::Other),
        Event::Text(s) => Mark::Text(s.to_string()),
        Event::Code(s) => Mark::Code(s.to_string()),
        Event::Html(s) => Mark::Html(s.to_string()),
        Event::InlineHtml(s) => Mark::InlineHtml(s.to_string()),
        Event::SoftBreak => Mark::SoftBreak,
        Event::HardBreak => Mark::HardBreak,
        Event::Rule => Mark::Rule,
        _ => Mark::Other,
    }
}

/// Tells the block variants of `pulldown_cmark::Tag` apart in a starting event; `Other` for the
/// rest. The result depends on the event alone.
#[verifier::external_body]
fn block_start(ev: &Event<'_>) -> (r: Span)
    ensures
        r == block_started(*ev),
{
    match ev {
        Event::Start(Tag::Paragraph) => Span::Paragraph,
        Event::Start(Tag::Heading { .. }) => Span::Heading,
        Event::Start(Tag::BlockQuote(_)) => Span::BlockQuote,
        Event::Start(Tag::CodeBlock(_)) => Span::CodeBlock,
        Event::Start(Tag::Item) => Span::Item,
        Event::Start(Tag::Table(_)) => Span::Table,
        Event::Start(Tag::TableHead) => Span::TableHead,
        Event::Start(Tag::TableRow) => Span::TableRow,
        Event::Start(Tag::TableCell) => Span::TableCell,
        _ => Span::Other,
    }
}

/// Tells the inline variants of `pulldown_cmark::Tag` apart in a starting event; `Other` for the
/// rest. A link or an image brings its address. The result depends on the event alone.
#[verifier::external_body]
fn inline_start(ev: &Event<'_>) -> (r: (Span, String))
    ensures
        (r.0, r.1@) == inline_started(*ev),
{
    match ev {
        Event::Start(Tag::Emphasis) => (Span::Emphasis, String::new()),
        Event::Start(Tag::Strong) => (Span::Strong, String::new()),
        Event::Start(Tag::Strikethrough) => (Span::Strikethrough, String::new()),
        Event::Start(Tag::Link { dest_url, .. }) => (Span::Link, dest_url.to_string()),
        Event::Start(Tag::Image { dest_url, .. }) => (Span::Image, dest_url.to_string()),
        _ => (Span::Other, String::new()),
    }
}

/// Tells the block variants of `pulldown_cmark::TagEnd` apart in an ending event; `Other` for the
/// rest. The result depends on the event alone.
#[verifier::external_body]
fn block_end(ev: &Event<'_>) -> (r: Span)
    ensures
        r == block_ended(*ev),
{
    match ev {
        Event::End(TagEnd::Paragraph) => Span::Paragraph,
        Event::End(TagEnd::Heading(_)) => Span::Heading,
        Event::End(TagEnd::BlockQuote(_)) => Span::BlockQuote,
        Event::End(TagEnd::CodeBlock) => Span::CodeBlock,
        Event::End(TagEnd::Item) => Span::Item,
        Event::End(TagEnd::Table) => Span::Table,
        Event::End(TagEnd::TableHead) => Span::TableHead,
        Event::End(TagEnd::TableRow) => Span::TableRow,
        Event::End(TagEnd::TableCell) => Span::TableCell,
        _ => Span::Other,
    }
}

/// Tells the inline variants of `pulldown_cmark::TagEnd` apart in an ending event; `Other` for
/// the rest. The result depends on the event alone.
#[verifier::external_body]
fn inline_end(ev: &Event<'_>) -> (r: Span)
    ensures
        r == inline_ended(*ev),
{
    match ev {
        Event::End(TagEnd::Emphasis) => Span::Emphasis,
        Event::End(TagEnd::Strong) => Span::Strong,
        Event::End(TagEnd::Strikethrough) => Span::Strikethrough,
        Event::End(TagEnd::Link) => Span::Link,
        Event::End(TagEnd::Image) => Span::Image,
        _ => Span::Other,
    }
}

/// The mark of an event: the start and the end of an element say which element it is, a block
/// before an inline one, and a block has no address.
pub open spec fn event_mark(ev: Event<'_>) -> MarkView {
    match event_kind(ev) {
        MarkView::Start(_, _) => if block_started(ev) == Span::Other {
            MarkView::Start(inline_started(ev).0, inline_started(ev).1)
        } else {
            MarkView::Start(block_started(ev), Seq::empty())
        },
        MarkView::End(_) => if block_ended(ev) == Span::Other {
            MarkView::End(inline_ended(ev))
        } else {
            MarkView::End(block_ended(ev))
        },
        other => other,
    }
}

/// The mark of one event.
fn mark_of(ev: Event<'_>) -> (r: Mark)
    ensures
        r@ == event_mark(ev),
{
    match kind_of(&ev) {
        Mark::Start(_, _) => {
            let block = block_start(&ev);
            if block == Span::Other {
                let (span, url) = inline_start(&ev);
                Mark::Start(span, url)
            } else {
                Mark::Start(block, String::new())
            }
        },
        Mark::End(_) => {
            let block = block_end(&ev);
            if block == Span::Other {
                Mark::End(inline_end(&ev))
            } else {
                Mark::End(block)
            }
        },
        m => m,
    }
}

/// The marks that `pulldown_cmark::Parser` yields for a markdown text, with tables and
/// strikethrough enabled.
pub uninterp spec fn parsed_marks(markdown: Seq<char>) -> Seq<MarkView>;

/// The HTML that `pulldown_cmark::html::push_html` writes for the picked events of a markdown
/// text.
pub uninterp spec fn picked_html(markdown: Seq<char>, picks: Seq<PickView>) -> Seq<char>;

/// Calls `pulldown_cmark::Parser::new_ext` with tables and strikethrough enabled and collects its
/// events as marks. The parser's events depend on the markdown text alone.
#[verifier::external_body]
pub(crate) fn parse_marks(markdown: &str) -> (r: Vec<Mark>)
    ensures
        marks_of(r@) == parsed_marks(markdown@),
{
    let options = Options::ENABLE_TABLES | Options::ENABLE_STRIKETHROUGH;
    Parser::new_ext(markdown, options).map(|ev| mark_of(ev)).collect()
}

/// The event that a pick stands for.
fn event_of<'a>(events: &Vec<Event<'a>>, pick: Pick) -> (r: Event<'a>)
    requires
        pick matches Pick::Same(i) ==> i < events@.len(),
{
    match pick {
        Pick::Same(i) => same_event(&events[i]),
        Pick::Text(t) => text_event(t),
    }
}

/// Calls the derived `Clone` of `pulldown_cmark::Event`. Nothing is claimed of the result here:
/// what the picked events become as HTML has the name `picked_html`.
#[verifier::external_body]
fn same_event<'a>(ev: &Event<'a>) -> (r: Event<'a>) {
    ev.clone()
}

/// Builds a `pulldown_cmark::Event::Text`. Nothing is claimed of the result here: what the picked
/// events become as HTML has the name `picked_html`.
#[verifier::external_body]
fn text_event<'a>(text: String) -> (r: Event<'a>) {
    Event::Text(text.into())
}

/// Parses the markdown as `parse_marks` does and calls `pulldown_cmark::html::push_html` on the
/// picked events. The HTML depends on the markdown text and the picks alone.
#[verifier::external_body]
pub(crate) fn write_picks(markdown: &str, picks: Vec<Pick>) -> (r: String)
    requires
        forall|k: int|
            0 <= k < picks@.len() ==> (#[trigger] picks@[k]@ matches PickView::Same(i) ==> i
                < parsed_marks(markdown@).len()),
    ensures
        r@ == picked_html(markdown@, picks_of(picks@)),
{
    let options = Options::ENABLE_TABLES | Options::ENABLE_STRIKETHROUGH;
    let events: Vec<Event<'_>> = Parser::new_ext(markdown, options).collect();
    let mut html = String::new();
    pulldown_cmark::html::push_html(&mut html, picks.into_iter().map(|p| event_of(&events, p)));
    html
}

} // verus!
