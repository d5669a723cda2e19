//! The event stream of the CommonMark parser (pulldown-cmark), in this
//! library's own plain-value representation.

use vstd::prelude::*;
use pulldown_cmark::{CodeBlockKind, Event, Options, Parser, Tag, TagEnd};

verus! {

/// Kind of a container as the document builder tells containers apart (the
/// kind of an end event).  Containers the builder does not treat specially
/// (HTML blocks, footnote definitions, definition lists, super- and
/// subscript, metadata blocks) are `Other`.
#[derive(Debug, Clone, Copy, PartialEq, Eq, Structural)]
pub enum TagKind {
    Paragraph,
    Heading,
    BlockQuote,
    CodeBlock,
    List,
    Item,
    Table,
    TableHead,
    TableRow,
    TableCell,
    Emphasis,
    Strong,
    Strikethrough,
    Link,
    Image,
    Other,
}

/// The opening tag of a container, with the data the document builder reads
/// from it: the heading level (1 to 6) and the first number of an ordered
/// list (`None` for a bullet list).
#[derive(Debug, Clone, Copy, PartialEq, Eq, Structural)]
pub enum StartTag {
    Paragraph,
    Heading(u8),
    BlockQuote,
    FencedCode,
    IndentedCode,
    List(Option<u64>),
    Item,
    Table,
    TableHead,
    TableRow,
    TableCell,
    Emphasis,
    Strong,
    Strikethrough,
    Link,
    Image,
    Other,
}

/// The variant of a parser event, without its text.
#[derive(Debug, Clone, Copy, PartialEq, Eq, Structural)]
pub enum EventHead {
    Start,
    End,
    Text,
    Code,
    Html,
    InlineHtml,
    SoftBreak,
    HardBreak,
    Rule,
    TaskListMarker(bool),
    Other,
}

/// One parser event.  `Start` carries the tag and the tag's text attribute:
/// the info string of a fenced code block, the destination of a link or an
/// image, and the empty string for every other tag.  Events the document
/// builder ignores (math, footnote references) are `Other`.
#[derive(Debug)]
pub enum MdEvent {
    Start(StartTag, String),
    End(TagKind),
    Text(String),
    Code(String),
    Html(String),
    InlineHtml(String),
    SoftBreak,
    HardBreak,
    Rule,
    TaskListMarker(bool),
    Other,
}

/// The mathematical value of an [`MdEvent`].
pub enum EventV {
    Start(StartTag, Seq<char>),
    End(TagKind),
    Text(Seq<char>),
    Code(Seq<char>),
    Html(Seq<char>),
    InlineHtml(Seq<char>),
    SoftBreak,
    HardBreak,
    Rule,
    TaskListMarker(bool),
    Other,
}

impl View for MdEvent {
    type V = EventV;

    open spec fn view(&self) -> EventV {
        match self {
            MdEvent::Start(t, s) => EventV::Start(*t, s@),
            MdEvent::End(k) => EventV::End(*k),
            MdEvent::Text(s) => EventV::Text(s@),
            MdEvent::Code(s) => EventV::Code(s@),
            MdEvent::Html(s) => EventV::Html(s@),
            MdEvent::InlineHtml(s) => EventV::InlineHtml(s@),
            MdEvent::SoftBreak => EventV::SoftBreak,
            MdEvent::HardBreak => EventV::HardBreak,
            MdEvent::Rule => EventV::Rule,
            MdEvent::TaskListMarker(b) => EventV::TaskListMarker(*b),
            MdEvent::Other => EventV::Other,
        }
    }
}

pub open spec fn events_view(evs: Seq<MdEvent>) -> Seq<EventV> {
    Seq::new(evs.len(), |i: int| evs[i]@)
}

/// The events that pulldown-cmark's `Parser::new_ext(input, options)` yields,
/// in order, each in this library's representation.
pub uninterp spec fn cmark_events(input: Seq<char>, options: u32) -> Seq<EventV>;

pub open spec fn head_of(e: EventV) -> EventHead {
    match e {
        EventV::Start(..) => EventHead::Start,
        EventV::End(..) => EventHead::End,
        EventV::Text(..) => EventHead::Text,
        EventV::Code(..) => EventHead::Code,
        EventV::Html(..) => EventHead::Html,
        EventV::InlineHtml(..) => EventHead::InlineHtml,
        EventV::SoftBreak => EventHead::SoftBreak,
        EventV::HardBreak => EventHead::HardBreak,
        EventV::Rule => EventHead::Rule,
        EventV::TaskListMarker(b) => EventHead::TaskListMarker(b),
        EventV::Other => EventHead::Other,
    }
}

/// The text an event carries (empty for events without text).
pub open spec fn text_of(e: EventV) -> Seq<char> {
    match e {
        EventV::Start(_, s) => s,
        EventV::Text(s) => s,
        EventV::Code(s) => s,
        EventV::Html(s) => s,
        EventV::InlineHtml(s) => s,
        _ => Seq::empty(),
    }
}

/// Whether every heading that the events open has a level from 1 to 6.
pub open spec fn heading_levels_ok(evs: Seq<EventV>) -> bool {
    forall|i: int|
        0 <= i < evs.len() ==> (#[trigger] evs[i] matches EventV::Start(StartTag::Heading(l), _)
            ==> 1 <= l <= 6)
}

/// Block-level opening tags (those the first start-tag projection reports).
pub open spec fn is_block_start(t: StartTag) -> bool {
    match t {
        StartTag::Paragraph | StartTag::Heading(_) | StartTag::BlockQuote | StartTag::FencedCode
        | StartTag::IndentedCode | StartTag::List(_) | StartTag::Item | StartTag::Table => true,
        _ => false,
    }
}

pub open spec fn block_start_of(e: EventV) -> StartTag {
    match e {
        EventV::Start(t, _) => if is_block_start(t) { t } else { StartTag::Other },
        _ => StartTag::Other,
    }
}

pub open spec fn span_start_of(e: EventV) -> StartTag {
    match e {
        EventV::Start(t, _) => if is_block_start(t) { StartTag::Other } else { t },
        _ => StartTag::Other,
    }
}

/// Block-level end kinds (those the first end projection reports).
pub open spec fn is_block_end(k: TagKind) -> bool {
    match k {
        TagKind::Paragraph | TagKind::Heading | TagKind::BlockQuote | TagKind::CodeBlock
        | TagKind::List | TagKind::Item | TagKind::Table | TagKind::TableHead => true,
        _ => false,
    }
}

pub open spec fn block_end_of(e: EventV) -> TagKind {
    match e {
        EventV::End(k) => if is_block_end(k) { k } else { TagKind::Other },
        _ => TagKind::Other,
    }
}

pub open spec fn span_end_of(e: EventV) -> TagKind {
    match e {
        EventV::End(k) => if is_block_end(k) { TagKind::Other } else { k },
        _ => TagKind::Other,
    }
}

pub open spec fn heads_of(evs: Seq<EventV>) -> Seq<EventHead> {
    Seq::new(evs.len(), |i: int| head_of(evs[i]))
}

pub open spec fn texts_of(evs: Seq<EventV>) -> Seq<Seq<char>> {
    Seq::new(evs.len(), |i: int| text_of(evs[i]))
}

pub open spec fn block_starts_of(evs: Seq<EventV>) -> Seq<StartTag> {
    Seq::new(evs.len(), |i: int| block_start_of(evs[i]))
}

pub open spec fn span_starts_of(evs: Seq<EventV>) -> Seq<StartTag> {
    Seq::new(evs.len(), |i: int| span_start_of(evs[i]))
}

pub open spec fn block_ends_of(evs: Seq<EventV>) -> Seq<TagKind> {
    Seq::new(evs.len(), |i: int| block_end_of(evs[i]))
}

pub open spec fn span_ends_of(evs: Seq<EventV>) -> Seq<TagKind> {
    Seq::new(evs.len(), |i: int| span_end_of(evs[i]))
}

pub open spec fn strings_view(v: Seq<String>) -> Seq<Seq<char>> {
    Seq::new(v.len(), |i: int| v[i]@)
}

/// The variant of each event of `Parser::new_ext(input, options)`
/// (pulldown-cmark), in order.
#[verifier::external_body]
fn cmark_heads(input: &str, options: u32) -> (r: Vec<EventHead>)
    ensures
        r@ == heads_of(cmark_events(input@, options)),
{
    Parser::new_ext(input, Options::from_bits_truncate(options)).map(|e| match e {
        Event::Start(_) => EventHead::Start,
        Event::End(_) => EventHead::End,
        Event::Text(_) => EventHead::Text,
        Event::Code(_) => EventHead::Code,
        Event::Html(_) => EventHead::Html,
        Event::InlineHtml(_) => EventHead::InlineHtml,
        Event::SoftBreak => EventHead::SoftBreak,
        Event::HardBreak => EventHead::HardBreak,
        Event::Rule => EventHead::Rule,
        Event::TaskListMarker(b) => EventHead::TaskListMarker(b),
        _ => EventHead::Other,
    }).collect()
}

/// The text of each event of `Parser::new_ext(input, options)`
/// (pulldown-cmark): the text of text, code and HTML events, the info
/// string of a fenced code block, the destination of a link or an image, and
/// the empty string for every other event.
#[verifier::external_body]
fn cmark_texts(input: &str, options: u32) -> (r: Vec<String>)
    ensures
        strings_view(r@) == texts_of(cmark_events(input@, options)),
{
    Parser::new_ext(input, Options::from_bits_truncate(options)).map(|e| match e {
        Event::Text(s) | Event::Code(s) | Event::Html(s) | Event::InlineHtml(s) => s.to_string(),
        Event::Start(Tag::CodeBlock(CodeBlockKind::Fenced(s))) => s.to_string(),
        Event::Start(Tag::Link { dest_url, .. }) => dest_url.to_string(),
        Event::Start(Tag::Image { dest_url, .. }) => dest_url.to_string(),
        _ => String::new(),
    }).collect()
}

/// The block-level opening tag of each event of `Parser::new_ext(input,
/// options)` (pulldown-cmark), `Other` for every other event; the heading
/// level is the number of `HeadingLevel` (H1 = 1 to H6 = 6).
#[verifier::external_body]
fn cmark_block_starts(input: &str, options: u32) -> (r: Vec<StartTag>)
    ensures
        r@ == block_starts_of(cmark_events(input@, options)),
        forall|i: int| 0 <= i < r@.len() ==> (#[trigger] r@[i] matches StartTag::Heading(l) ==> 1 <= l <= 6),
{
    Parser::new_ext(input, Options::from_bits_truncate(options)).map(|e| match e {
        Event::Start(Tag::Paragraph) => StartTag::Paragraph,
        Event::Start(Tag::Heading { level, .. }) => StartTag::Heading(level as u8),
        Event::Start(Tag::BlockQuote(_)) => StartTag::BlockQuote,
        Event::Start(Tag::CodeBlock(CodeBlockKind::Fenced(_))) => StartTag::FencedCode,
        Event::Start(Tag::CodeBlock(CodeBlockKind::Indented)) => StartTag::IndentedCode,
        Event::Start(Tag::List(start)) => StartTag::List(start),
        Event::Start(Tag::Item) => StartTag::Item,
        Event::Start(Tag::Table(_)) => StartTag::Table,
        _ => StartTag::Other,
    }).collect()
}

/// The table-part and span-level opening tag of each event of
/// `Parser::new_ext(input, options)` (pulldown-cmark), `Other` for every
/// other event.
#[verifier::external_body]
fn cmark_span_starts(input: &str, options: u32) -> (r: Vec<StartTag>)
    ensures
        r@ == span_starts_of(cmark_events(input@, options)),
{
    Parser::new_ext(input, Options::from_bits_truncate(options)).map(|e| match e {
        Event::Start(Tag::TableHead) => StartTag::TableHead,
        Event::Start(Tag::TableRow) => StartTag::TableRow,
        Event::Start(Tag::TableCell) => StartTag::TableCell,
        Event::Start(Tag::Emphasis) => StartTag::Emphasis,
        Event::Start(Tag::Strong) => StartTag::Strong,
        Event::Start(Tag::Strikethrough) => StartTag::Strikethrough,
        Event::Start(Tag::Link { .. }) => StartTag::Link,
        Event::Start(Tag::Image { .. }) => StartTag::Image,
        _ => StartTag::Other,
    }).collect()
}

/// The block-level kind of each end event of `Parser::new_ext(input,
/// options)` (pulldown-cmark), `Other` for every other event.
#[verifier::external_body]
fn cmark_block_ends(input: &str, options: u32) -> (r: Vec<TagKind>)
    ensures
        r@ == block_ends_of(cmark_events(input@, options)),
{
    Parser::new_ext(input, Options::from_bits_truncate(options)).map(|e| match e {
        Event::End(TagEnd::Paragraph) => TagKind::Paragraph,
        Event::End(TagEnd::Heading(_)) => TagKind::Heading,
        Event::End(TagEnd::BlockQuote(_)) => TagKind::BlockQuote,
        Event::End(TagEnd::CodeBlock) => TagKind::CodeBlock,
        Event::End(TagEnd::List(_)) => TagKind::List,
        Event::End(TagEnd::Item) => TagKind::Item,
        Event::End(TagEnd::Table) => TagKind::Table,
        Event::End(TagEnd::TableHead) => TagKind::TableHead,
        _ => TagKind::Other,
    }).collect()
}

/// The table-part and span-level kind of each end event of
/// `Parser::new_ext(input, options)` (pulldown-cmark), `Other` for every
/// other event.
#[verifier::external_body]
fn cmark_span_ends(input: &str, options: u32) -> (r: Vec<TagKind>)
    ensures
        r@ == span_ends_of(cmark_events(input@, options)),
{
    Parser::new_ext(input, Options::from_bits_truncate(options)).map(|e| match e {
        Event::End(TagEnd::TableRow) => TagKind::TableRow,
        Event::End(TagEnd::TableCell) => TagKind::TableCell,
        Event::End(TagEnd::Emphasis) => TagKind::Emphasis,
        Event::End(TagEnd::Strong) => TagKind::Strong,
        Event::End(TagEnd::Strikethrough) => TagKind::Strikethrough,
        Event::End(TagEnd::Link) => TagKind::Link,
        Event::End(TagEnd::Image) => TagKind::Image,
        _ => TagKind::Other,
    }).collect()
}

/// The event stream of pulldown-cmark's parser for `input` with the given
/// option bits (`pulldown_cmark::Options`), assembled from its projections.
pub fn markdown_events(input: &str, options: u32) -> (r: Vec<MdEvent>)
    ensures
        events_view(r@) == cmark_events(input@, options),
        heading_levels_ok(cmark_events(input@, options)),
{
    let heads = cmark_heads(input, options);
    let texts = cmark_texts(input, options);
    let block_starts = cmark_block_starts(input, options);
    let span_starts = cmark_span_starts(input, options);
    let block_ends = cmark_block_ends(input, options);
    let span_ends = cmark_span_ends(input, options);
    let ghost evs = cmark_events(input@, options);
    assert forall|i: int| 0 <= i < evs.len() implies (#[trigger] evs[i] matches EventV::Start(
        StartTag::Heading(l),
        _,
    ) ==> 1 <= l <= 6) by {
        assert(block_starts@[i] == block_start_of(evs[i]));
    }
    assert(heads@.len() == heads_of(evs).len());
    assert(texts@.len() == strings_view(texts@).len());
    assert(block_starts@.len() == block_starts_of(evs).len());
    assert(span_starts@.len() == span_starts_of(evs).len());
    assert(block_ends@.len() == block_ends_of(evs).len());
    assert(span_ends@.len() == span_ends_of(evs).len());
    let n = heads.len();
    let mut out: Vec<MdEvent> = Vec::new();
    for i in 0..n
        invariant
            n == evs.len(),
            n == heads@.len(),
            n == texts@.len(),
            n == block_starts@.len(),
            n == span_starts@.len(),
            n == block_ends@.len(),
            n == span_ends@.len(),
            heads@ == heads_of(evs),
            strings_view(texts@) == texts_of(evs),
            block_starts@ == block_starts_of(evs),
            span_starts@ == span_starts_of(evs),
            block_ends@ == block_ends_of(evs),
            span_ends@ == span_ends_of(evs),
            out@.len() == i,
            forall|j: int| 0 <= j < i ==> #[trigger] out@[j]@ == evs[j],
    {
        assert(texts@[i as int]@ == strings_view(texts@)[i as int]);
        let text = texts[i].clone();
        let ev = match heads[i] {
            EventHead::Start => {
                let b = block_starts[i];
                let tag = if b != StartTag::Other { b } else { span_starts[i] };
                MdEvent::Start(tag, text)
            },
            EventHead::End => {
                let b = block_ends[i];
                let kind = if b != TagKind::Other { b } else { span_ends[i] };
                MdEvent::End(kind)
            },
            EventHead::Text => MdEvent::Text(text),
            EventHead::Code => MdEvent::Code(text),
            EventHead::Html => MdEvent::Html(text),
            EventHead::InlineHtml => MdEvent::InlineHtml(text),
            EventHead::SoftBreak => MdEvent::SoftBreak,
            EventHead::HardBreak => MdEvent::HardBreak,
            EventHead::Rule => MdEvent::Rule,
            EventHead::TaskListMarker(b) => MdEvent::TaskListMarker(b),
            EventHead::Other => MdEvent::Other,
        };
        assert(ev@ == evs[i as int]);
        out.push(ev);
    }
    assert(events_view(out@) =~= evs);
    out
}

} // verus!
