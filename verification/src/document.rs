//! The parsed form of a markdown document and its mathematical model.

use vstd::prelude::*;

verus! {

/// A block-level markdown element.
#[derive(Debug, PartialEq)]
pub enum MdElement {
    Heading { level: u8, content: Vec<InlineElement> },
    Paragraph(Vec<InlineElement>),
    CodeBlock { language: Option<String>, code: String },
    Table { headers: Vec<Vec<InlineElement>>, rows: Vec<Vec<Vec<InlineElement>>> },
    List { ordered: bool, start: Option<u64>, items: Vec<ListItem> },
    ThematicBreak,
    BlockQuote(Vec<MdElement>),
    HtmlBlock(String),
}

/// One item of a list; `checked` is set for task-list items.
#[derive(Debug, PartialEq)]
pub struct ListItem {
    pub checked: Option<bool>,
    pub content: Vec<MdElement>,
}

/// An inline (span-level) markdown element.
#[derive(Debug, PartialEq)]
pub enum InlineElement {
    Text(String),
    Bold(Vec<InlineElement>),
    Italic(Vec<InlineElement>),
    Strikethrough(Vec<InlineElement>),
    Code(String),
    Link { content: Vec<InlineElement>, url: String },
    Image { alt: String, url: String },
    Html(String),
    SoftBreak,
    HardBreak,
}

/// The mathematical value of an [`InlineElement`].
pub enum Inline {
    Text(Seq<char>),
    Bold(Seq<Inline>),
    Italic(Seq<Inline>),
    Strikethrough(Seq<Inline>),
    Code(Seq<char>),
    Link { content: Seq<Inline>, url: Seq<char> },
    Image { alt: Seq<char>, url: Seq<char> },
    Html(Seq<char>),
    SoftBreak,
    HardBreak,
}

/// The mathematical value of an [`MdElement`].
pub enum Block {
    Heading { level: u8, content: Seq<Inline> },
    Paragraph(Seq<Inline>),
    CodeBlock { language: Option<Seq<char>>, code: Seq<char> },
    Table { headers: Seq<Seq<Inline>>, rows: Seq<Seq<Seq<Inline>>> },
    List { ordered: bool, start: Option<u64>, items: Seq<Item> },
    ThematicBreak,
    BlockQuote(Seq<Block>),
    HtmlBlock(Seq<char>),
}

/// The mathematical value of a [`ListItem`].
pub struct Item {
    pub checked: Option<bool>,
    pub content: Seq<Block>,
}

pub open spec fn inline_view(x: InlineElement) -> Inline
    decreases x,
{
    match x {
        InlineElement::Text(s) => Inline::Text(s@),
        InlineElement::Bold(c) => Inline::Bold(inlines_view(c@)),
        InlineElement::Italic(c) => Inline::Italic(inlines_view(c@)),
        InlineElement::Strikethrough(c) => Inline::Strikethrough(inlines_view(c@)),
        InlineElement::Code(s) => Inline::Code(s@),
        InlineElement::Link { content, url } => Inline::Link {
            content: inlines_view(content@),
            url: url@,
        },
        InlineElement::Image { alt, url } => Inline::Image { alt: alt@, url: url@ },
        InlineElement::Html(s) => Inline::Html(s@),
        InlineElement::SoftBreak => Inline::SoftBreak,
        InlineElement::HardBreak => Inline::HardBreak,
    }
}

pub open spec fn inlines_view(s: Seq<InlineElement>) -> Seq<Inline>
    decreases s,
{
    Seq::new(s.len(), |i: int| if 0 <= i < s.len() { inline_view(s[i]) } else { Inline::SoftBreak })
}

pub open spec fn rows_view(rows: Seq<Vec<InlineElement>>) -> Seq<Seq<Inline>> {
    Seq::new(rows.len(), |i: int| inlines_view(rows[i]@))
}

pub open spec fn table_rows_view(rows: Seq<Vec<Vec<InlineElement>>>) -> Seq<Seq<Seq<Inline>>> {
    Seq::new(rows.len(), |i: int| rows_view(rows[i]@))
}

pub open spec fn opt_string_view(s: Option<String>) -> Option<Seq<char>> {
    match s {
        Some(t) => Some(t@),
        None => None,
    }
}

pub open spec fn block_view(x: MdElement) -> Block
    decreases x,
{
    match x {
        MdElement::Heading { level, content } => Block::Heading {
            level,
            content: inlines_view(content@),
        },
        MdElement::Paragraph(c) => Block::Paragraph(inlines_view(c@)),
        MdElement::CodeBlock { language, code } => Block::CodeBlock {
            language: opt_string_view(language),
            code: code@,
        },
        MdElement::Table { headers, rows } => Block::Table {
            headers: rows_view(headers@),
            rows: table_rows_view(rows@),
        },
        MdElement::List { ordered, start, items } => Block::List {
            ordered,
            start,
            items: items_view(items@),
        },
        MdElement::ThematicBreak => Block::ThematicBreak,
        MdElement::BlockQuote(c) => Block::BlockQuote(blocks_view(c@)),
        MdElement::HtmlBlock(s) => Block::HtmlBlock(s@),
    }
}

pub open spec fn blocks_view(s: Seq<MdElement>) -> Seq<Block>
    decreases s,
{
    Seq::new(s.len(), |i: int| if 0 <= i < s.len() { block_view(s[i]) } else { Block::ThematicBreak })
}

pub open spec fn item_view(x: ListItem) -> Item
    decreases x,
{
    Item { checked: x.checked, content: blocks_view(x.content@) }
}

pub open spec fn items_view(s: Seq<ListItem>) -> Seq<Item>
    decreases s,
{
    Seq::new(
        s.len(),
        |i: int|
            if 0 <= i < s.len() {
                item_view(s[i])
            } else {
                Item { checked: None, content: Seq::empty() }
            },
    )
}

} // verus!
