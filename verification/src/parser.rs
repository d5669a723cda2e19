//! Builds the document tree from the CommonMark event stream.

use vstd::prelude::*;
use crate::document::{
    Block, Inline, InlineElement, Item, ListItem, MdElement, block_view, blocks_view, inline_view,
    inlines_view, item_view, items_view, rows_view, table_rows_view,
};
use crate::events::{
    EventV, MdEvent, StartTag, TagKind, events_view, heading_levels_ok, markdown_events,
    cmark_events,
};

verus! {

// ---------------------------------------------------------------------------
// The document an event stream describes
// ---------------------------------------------------------------------------

pub open spec fn opt_seq<A>(o: Option<A>) -> Seq<A> {
    match o {
        Some(x) => seq![x],
        None => Seq::empty(),
    }
}

/// The position after consuming the end event at `p` (a position past the
/// last event stays there).
pub open spec fn skip_one(evs: Seq<EventV>, p: int) -> int {
    if p < evs.len() {
        p + 1
    } else {
        p
    }
}

pub open spec fn in_range(evs: Seq<EventV>, pos: int) -> bool {
    0 <= pos < evs.len()
}

/// Events that begin inline content directly inside a container (the text
/// of a tight list item has no paragraph around it).
pub open spec fn begins_bare(e: EventV) -> bool {
    match e {
        EventV::Text(_) | EventV::Code(_) | EventV::SoftBreak | EventV::HardBreak
        | EventV::InlineHtml(_) => true,
        EventV::Start(t, _) => match t {
            StartTag::Strong | StartTag::Emphasis | StartTag::Strikethrough | StartTag::Link
            | StartTag::Image => true,
            _ => false,
        },
        _ => false,
    }
}

/// Events at which a run of bare inline content stops: the start of a
/// block and a thematic break.
pub open spec fn stops_bare(e: EventV) -> bool {
    match e {
        EventV::Rule => true,
        EventV::Start(t, _) => match t {
            StartTag::Paragraph | StartTag::Heading(_) | StartTag::FencedCode
            | StartTag::IndentedCode | StartTag::List(_) | StartTag::Table
            | StartTag::BlockQuote => true,
            _ => false,
        },
        _ => false,
    }
}

/// The concatenated text of the text events from `pos` up to the end event
/// of kind `end` (other events in between are skipped), and where it stops.
pub open spec fn text_until(evs: Seq<EventV>, pos: int, end: TagKind) -> (Seq<char>, int)
    decreases evs.len() - pos,
{
    if !in_range(evs, pos) || evs[pos] == EventV::End(end) {
        (Seq::empty(), pos)
    } else {
        let (rest, p) = text_until(evs, pos + 1, end);
        match evs[pos] {
            EventV::Text(s) => (s + rest, p),
            _ => (rest, p),
        }
    }
}

/// The concatenated text of the run of HTML events starting at `pos`.
pub open spec fn html_run(evs: Seq<EventV>, pos: int) -> (Seq<char>, int)
    decreases evs.len() - pos,
{
    if in_range(evs, pos) && evs[pos] is Html {
        let (rest, p) = html_run(evs, pos + 1);
        (evs[pos]->Html_0 + rest, p)
    } else {
        (Seq::empty(), pos)
    }
}

/// The inline element the event at `pos` begins (none for an event that
/// carries no inline content), and the position after it.
pub open spec fn inline_at(evs: Seq<EventV>, pos: int) -> (Option<Inline>, int)
    decreases evs.len() - pos, 0int,
{
    if !in_range(evs, pos) {
        (None, pos + 1)
    } else {
        match evs[pos] {
            EventV::Text(s) => (Some(Inline::Text(s)), pos + 1),
            EventV::Code(s) => (Some(Inline::Code(s)), pos + 1),
            EventV::SoftBreak => (Some(Inline::SoftBreak), pos + 1),
            EventV::HardBreak => (Some(Inline::HardBreak), pos + 1),
            EventV::InlineHtml(s) => (Some(Inline::Html(s)), pos + 1),
            EventV::Start(t, attr) => match t {
                StartTag::Strong => {
                    let (c, p) = inlines_until(evs, pos + 1, TagKind::Strong);
                    (Some(Inline::Bold(c)), skip_one(evs, p))
                },
                StartTag::Emphasis => {
                    let (c, p) = inlines_until(evs, pos + 1, TagKind::Emphasis);
                    (Some(Inline::Italic(c)), skip_one(evs, p))
                },
                StartTag::Strikethrough => {
                    let (c, p) = inlines_until(evs, pos + 1, TagKind::Strikethrough);
                    (Some(Inline::Strikethrough(c)), skip_one(evs, p))
                },
                StartTag::Link => {
                    let (c, p) = inlines_until(evs, pos + 1, TagKind::Link);
                    (Some(Inline::Link { content: c, url: attr }), skip_one(evs, p))
                },
                StartTag::Image => {
                    let (alt, p) = text_until(evs, pos + 1, TagKind::Image);
                    (Some(Inline::Image { alt, url: attr }), skip_one(evs, p))
                },
                _ => (None, pos + 1),
            },
            _ => (None, pos + 1),
        }
    }
}

/// The inline elements from `pos` up to the end event of kind `end`, and
/// where they stop.
pub open spec fn inlines_until(evs: Seq<EventV>, pos: int, end: TagKind) -> (Seq<Inline>, int)
    decreases evs.len() - pos, 1int,
{
    if !in_range(evs, pos) || evs[pos] == EventV::End(end) {
        (Seq::empty(), pos)
    } else {
        let (x, next) = inline_at(evs, pos);
        if pos < next <= evs.len() {
            let (rest, p) = inlines_until(evs, next, end);
            (opt_seq(x) + rest, p)
        } else {
            (opt_seq(x), next)
        }
    }
}

/// The inline elements standing directly in a container whose end kind is
/// `container`: they run until that end event, the start of a block or a
/// thematic break.
pub open spec fn bare_inlines(evs: Seq<EventV>, pos: int, container: TagKind) -> (
    Seq<Inline>,
    int,
)
    decreases evs.len() - pos,
{
    if !in_range(evs, pos) || evs[pos] == EventV::End(container) || stops_bare(evs[pos]) {
        (Seq::empty(), pos)
    } else {
        let (x, next) = inline_at(evs, pos);
        if pos < next <= evs.len() {
            let (rest, p) = bare_inlines(evs, next, container);
            (opt_seq(x) + rest, p)
        } else {
            (opt_seq(x), next)
        }
    }
}

/// The cells of a table row from `pos` up to the end event of kind `end`.
pub open spec fn table_row(evs: Seq<EventV>, pos: int, end: TagKind) -> (Seq<Seq<Inline>>, int)
    decreases evs.len() - pos,
{
    if !in_range(evs, pos) || evs[pos] == EventV::End(end) {
        (Seq::empty(), pos)
    } else if evs[pos] is Start && evs[pos]->Start_0 == StartTag::TableCell {
        let (cell, p1) = inlines_until(evs, pos + 1, TagKind::TableCell);
        let next = skip_one(evs, p1);
        if pos < next <= evs.len() {
            let (rest, p) = table_row(evs, next, end);
            (seq![cell] + rest, p)
        } else {
            (seq![cell], next)
        }
    } else {
        table_row(evs, pos + 1, end)
    }
}

/// The header row (the last one, if a table has several) and the body rows
/// of a table from `pos` up to the table's end event.
pub open spec fn table_parts(evs: Seq<EventV>, pos: int) -> (
    Option<Seq<Seq<Inline>>>,
    Seq<Seq<Seq<Inline>>>,
    int,
)
    decreases evs.len() - pos,
{
    if !in_range(evs, pos) || evs[pos] == EventV::End(TagKind::Table) {
        (None, Seq::empty(), pos)
    } else if evs[pos] is Start && (evs[pos]->Start_0 == StartTag::TableHead
        || evs[pos]->Start_0 == StartTag::TableRow) {
        let head = evs[pos]->Start_0 == StartTag::TableHead;
        let (row, p1) = table_row(
            evs,
            pos + 1,
            if head {
                TagKind::TableHead
            } else {
                TagKind::TableRow
            },
        );
        let next = skip_one(evs, p1);
        if pos < next <= evs.len() {
            let (h, rows, p) = table_parts(evs, next);
            if head {
                (if h is Some { h } else { Some(row) }, rows, p)
            } else {
                (h, seq![row] + rows, p)
            }
        } else if head {
            (Some(row), Seq::empty(), next)
        } else {
            (None, seq![row], next)
        }
    } else {
        table_parts(evs, pos + 1)
    }
}

/// The block the event at `pos` begins, and the position after it.  `end`
/// is the end kind of the enclosing container, `None` at the top level of
/// the document: tables are recognised only at the top level, bare inline
/// content only inside a container.
pub open spec fn block_at(evs: Seq<EventV>, pos: int, end: Option<TagKind>) -> (
    Option<Block>,
    int,
)
    decreases evs.len() - pos, 0int,
{
    if !in_range(evs, pos) {
        (None, pos + 1)
    } else {
        match evs[pos] {
            EventV::Start(t, attr) => match t {
                StartTag::Heading(level) => {
                    let (c, p) = inlines_until(evs, pos + 1, TagKind::Heading);
                    (Some(Block::Heading { level, content: c }), skip_one(evs, p))
                },
                StartTag::Paragraph => {
                    let (c, p) = inlines_until(evs, pos + 1, TagKind::Paragraph);
                    (Some(Block::Paragraph(c)), skip_one(evs, p))
                },
                StartTag::FencedCode => {
                    let (code, p) = text_until(evs, pos + 1, TagKind::CodeBlock);
                    let language = if attr.len() == 0 {
                        None
                    } else {
                        Some(attr)
                    };
                    (Some(Block::CodeBlock { language, code }), skip_one(evs, p))
                },
                StartTag::IndentedCode => {
                    let (code, p) = text_until(evs, pos + 1, TagKind::CodeBlock);
                    (Some(Block::CodeBlock { language: None, code }), skip_one(evs, p))
                },
                StartTag::List(start) => {
                    let (items, p) = list_items(evs, pos + 1);
                    (
                        Some(Block::List { ordered: start is Some, start, items }),
                        skip_one(evs, p),
                    )
                },
                StartTag::Table => if end is None {
                    let (h, rows, p) = table_parts(evs, pos + 1);
                    (
                        Some(
                            Block::Table {
                                headers: if h is Some {
                                    h->0
                                } else {
                                    Seq::empty()
                                },
                                rows,
                            },
                        ),
                        skip_one(evs, p),
                    )
                } else {
                    (None, pos + 1)
                },
                StartTag::BlockQuote => {
                    let (c, p) = blocks_until(evs, pos + 1, Some(TagKind::BlockQuote));
                    (Some(Block::BlockQuote(c)), skip_one(evs, p))
                },
                _ => if end is Some && begins_bare(evs[pos]) {
                    let (c, p) = bare_inlines(evs, pos, end->0);
                    (
                        if c.len() == 0 {
                            None
                        } else {
                            Some(Block::Paragraph(c))
                        },
                        p,
                    )
                } else {
                    (None, pos + 1)
                },
            },
            EventV::Rule => (Some(Block::ThematicBreak), pos + 1),
            EventV::Html(_) => {
                let (h, p) = html_run(evs, pos);
                (Some(Block::HtmlBlock(h)), p)
            },
            _ => if end is Some && begins_bare(evs[pos]) {
                let (c, p) = bare_inlines(evs, pos, end->0);
                (
                    if c.len() == 0 {
                        None
                    } else {
                        Some(Block::Paragraph(c))
                    },
                    p,
                )
            } else {
                (None, pos + 1)
            },
        }
    }
}

pub open spec fn ends_container(e: EventV, end: Option<TagKind>) -> bool {
    end is Some && e == EventV::End(end->0)
}

/// The blocks from `pos` up to the end event of the container (`end`), or
/// to the end of the stream at the top level (`end` is `None`).
pub open spec fn blocks_until(evs: Seq<EventV>, pos: int, end: Option<TagKind>) -> (
    Seq<Block>,
    int,
)
    decreases evs.len() - pos, 1int,
{
    if !in_range(evs, pos) || ends_container(evs[pos], end) {
        (Seq::empty(), pos)
    } else {
        let (x, next) = block_at(evs, pos, end);
        if pos < next <= evs.len() {
            let (rest, p) = blocks_until(evs, next, end);
            (opt_seq(x) + rest, p)
        } else {
            (opt_seq(x), next)
        }
    }
}

/// The list item the event at `pos` begins, and the position after it.
pub open spec fn list_item_at(evs: Seq<EventV>, pos: int) -> (Option<Item>, int)
    decreases evs.len() - pos, 0int,
{
    if in_range(evs, pos) && evs[pos] is Start && evs[pos]->Start_0 == StartTag::Item {
        let q = pos + 1;
        let marked = in_range(evs, q) && evs[q] is TaskListMarker;
        let checked = if marked {
            Some(evs[q]->TaskListMarker_0)
        } else {
            None
        };
        let (c, p) = blocks_until(
            evs,
            if marked {
                q + 1
            } else {
                q
            },
            Some(TagKind::Item),
        );
        (Some(Item { checked, content: c }), skip_one(evs, p))
    } else {
        (None, pos + 1)
    }
}

/// The items of a list from `pos` up to the list's end event.
pub open spec fn list_items(evs: Seq<EventV>, pos: int) -> (Seq<Item>, int)
    decreases evs.len() - pos, 1int,
{
    if !in_range(evs, pos) || evs[pos] == EventV::End(TagKind::List) {
        (Seq::empty(), pos)
    } else {
        let (x, next) = list_item_at(evs, pos);
        if pos < next <= evs.len() {
            let (rest, p) = list_items(evs, next);
            (opt_seq(x) + rest, p)
        } else {
            (opt_seq(x), next)
        }
    }
}

/// The document an event stream describes.
pub open spec fn document(evs: Seq<EventV>) -> Seq<Block> {
    blocks_until(evs, 0, None).0
}

/// Whether every heading in a block, at any depth, has a level from 1 to 6.
pub open spec fn block_levels_ok(b: Block) -> bool
    decreases b,
{
    match b {
        Block::Heading { level, content: _ } => 1 <= level <= 6,
        Block::BlockQuote(c) => blocks_levels_ok(c),
        Block::List { ordered: _, start: _, items } => items_levels_ok(items),
        _ => true,
    }
}

pub open spec fn blocks_levels_ok(bs: Seq<Block>) -> bool
    decreases bs,
{
    forall|i: int| 0 <= i < bs.len() ==> block_levels_ok(#[trigger] bs[i])
}

pub open spec fn item_levels_ok(it: Item) -> bool
    decreases it,
{
    blocks_levels_ok(it.content)
}

pub open spec fn items_levels_ok(items: Seq<Item>) -> bool
    decreases items,
{
    forall|i: int| 0 <= i < items.len() ==> item_levels_ok(#[trigger] items[i])
}

proof fn lemma_block_at_levels(evs: Seq<EventV>, pos: int, end: Option<TagKind>)
    requires
        heading_levels_ok(evs),
    ensures
        block_at(evs, pos, end).0 matches Some(b) ==> block_levels_ok(b),
    decreases evs.len() - pos, 0int,
{
    if in_range(evs, pos) {
        match evs[pos] {
            EventV::Start(t, attr) => match t {
                StartTag::List(start) => lemma_list_items_levels(evs, pos + 1),
                StartTag::BlockQuote => lemma_blocks_until_levels(
                    evs,
                    pos + 1,
                    Some(TagKind::BlockQuote),
                ),
                _ => {},
            },
            _ => {},
        }
    }
}

proof fn lemma_blocks_until_levels(evs: Seq<EventV>, pos: int, end: Option<TagKind>)
    requires
        heading_levels_ok(evs),
    ensures
        blocks_levels_ok(blocks_until(evs, pos, end).0),
    decreases evs.len() - pos, 1int,
{
    if !(!in_range(evs, pos) || ends_container(evs[pos], end)) {
        lemma_block_at_levels(evs, pos, end);
        let (x, next) = block_at(evs, pos, end);
        if pos < next <= evs.len() {
            lemma_blocks_until_levels(evs, next, end);
            let rest = blocks_until(evs, next, end).0;
            let all = opt_seq(x) + rest;
            assert forall|i: int| 0 <= i < all.len() implies block_levels_ok(#[trigger] all[i]) by {
                if i < opt_seq(x).len() {
                    assert(all[i] == x->0);
                } else {
                    assert(all[i] == rest[i - opt_seq(x).len()]);
                }
            }
        }
    }
}

proof fn lemma_list_item_at_levels(evs: Seq<EventV>, pos: int)
    requires
        heading_levels_ok(evs),
    ensures
        list_item_at(evs, pos).0 matches Some(it) ==> item_levels_ok(it),
    decreases evs.len() - pos, 0int,
{
    if in_range(evs, pos) && evs[pos] is Start && evs[pos]->Start_0 == StartTag::Item {
        let q = pos + 1;
        let marked = in_range(evs, q) && evs[q] is TaskListMarker;
        lemma_blocks_until_levels(
            evs,
            if marked {
                q + 1
            } else {
                q
            },
            Some(TagKind::Item),
        );
    }
}

proof fn lemma_list_items_levels(evs: Seq<EventV>, pos: int)
    requires
        heading_levels_ok(evs),
    ensures
        items_levels_ok(list_items(evs, pos).0),
    decreases evs.len() - pos, 1int,
{
    if !(!in_range(evs, pos) || evs[pos] == EventV::End(TagKind::List)) {
        lemma_list_item_at_levels(evs, pos);
        let (x, next) = list_item_at(evs, pos);
        if pos < next <= evs.len() {
            lemma_list_items_levels(evs, next);
            let rest = list_items(evs, next).0;
            let all = opt_seq(x) + rest;
            assert forall|i: int| 0 <= i < all.len() implies item_levels_ok(#[trigger] all[i]) by {
                if i < opt_seq(x).len() {
                    assert(all[i] == x->0);
                } else {
                    assert(all[i] == rest[i - opt_seq(x).len()]);
                }
            }
        }
    }
}

/// When every heading the events open has a level from 1 to 6, so has
/// every heading of the document they describe, at any depth (inside block
/// quotes and list items too).
pub proof fn lemma_document_heading_levels(evs: Seq<EventV>)
    requires
        heading_levels_ok(evs),
    ensures
        blocks_levels_ok(document(evs)),
{
    lemma_blocks_until_levels(evs, 0, None);
}

// ---------------------------------------------------------------------------
// Building the document
// ---------------------------------------------------------------------------

pub open spec fn opt_inline_view(o: Option<InlineElement>) -> Option<Inline> {
    match o {
        Some(x) => Some(inline_view(x)),
        None => None,
    }
}

pub open spec fn opt_block_view(o: Option<MdElement>) -> Option<Block> {
    match o {
        Some(x) => Some(block_view(x)),
        None => None,
    }
}

pub open spec fn opt_item_view(o: Option<ListItem>) -> Option<Item> {
    match o {
        Some(x) => Some(item_view(x)),
        None => None,
    }
}

proof fn lemma_inlines_push(s: Seq<InlineElement>, x: InlineElement)
    ensures
        inlines_view(s.push(x)) == inlines_view(s).push(inline_view(x)),
{
    assert(inlines_view(s.push(x)) =~= inlines_view(s).push(inline_view(x)));
}

proof fn lemma_blocks_push(s: Seq<MdElement>, x: MdElement)
    ensures
        blocks_view(s.push(x)) == blocks_view(s).push(block_view(x)),
{
    assert(blocks_view(s.push(x)) =~= blocks_view(s).push(block_view(x)));
}

proof fn lemma_items_push(s: Seq<ListItem>, x: ListItem)
    ensures
        items_view(s.push(x)) == items_view(s).push(item_view(x)),
{
    assert(items_view(s.push(x)) =~= items_view(s).push(item_view(x)));
}

proof fn lemma_rows_push(s: Seq<Vec<InlineElement>>, x: Vec<InlineElement>)
    ensures
        rows_view(s.push(x)) == rows_view(s).push(inlines_view(x@)),
{
    assert(rows_view(s.push(x)) =~= rows_view(s).push(inlines_view(x@)));
}

proof fn lemma_table_rows_push(s: Seq<Vec<Vec<InlineElement>>>, x: Vec<Vec<InlineElement>>)
    ensures
        table_rows_view(s.push(x)) == table_rows_view(s).push(rows_view(x@)),
{
    assert(table_rows_view(s.push(x)) =~= table_rows_view(s).push(rows_view(x@)));
}

proof fn lemma_opt_append<A>(acc: Seq<A>, o: Option<A>, rest: Seq<A>)
    ensures
        acc + (opt_seq(o) + rest) == (acc + opt_seq(o)) + rest,
{
    assert(acc + (opt_seq(o) + rest) =~= (acc + opt_seq(o)) + rest);
}

/// The position after consuming the end event at `p`.
fn skip_end(events: &Vec<MdEvent>, p: usize) -> (r: usize)
    requires
        p <= events@.len(),
    ensures
        r == skip_one(events_view(events@), p as int),
        r <= events@.len(),
{
    if p < events.len() {
        p + 1
    } else {
        p
    }
}

fn is_end_of(e: &MdEvent, kind: TagKind) -> (b: bool)
    ensures
        b == (e@ == EventV::End(kind)),
{
    match e {
        MdEvent::End(k) => *k == kind,
        _ => false,
    }
}

/// The concatenated text of the text events up to the end event of `end`.
fn collect_text_until(events: &Vec<MdEvent>, pos: usize, end: TagKind) -> (r: (String, usize))
    requires
        pos <= events@.len(),
    ensures
        pos <= r.1 <= events@.len(),
        (r.0@, r.1 as int) == text_until(events_view(events@), pos as int, end),
{
    let ghost evs = events_view(events@);
    let mut text = String::new();
    let mut p = pos;
    while p < events.len() && !is_end_of(&events[p], end)
        invariant
            pos <= p <= events@.len(),
            evs == events_view(events@),
            text_until(evs, pos as int, end) == (
                text@ + text_until(evs, p as int, end).0,
                text_until(evs, p as int, end).1,
            ),
        decreases events@.len() - p,
    {
        assert(evs[p as int] == events@[p as int]@);
        let ghost before = text@;
        match &events[p] {
            MdEvent::Text(s) => {
                text.append(s.as_str());
            },
            _ => {},
        }
        assert(text_until(evs, pos as int, end).0 =~= text@ + text_until(
            evs,
            p + 1,
            end,
        ).0);
        p = p + 1;
    }
    assert(text@ + Seq::<char>::empty() =~= text@);
    (text, p)
}

/// The concatenated text of the run of HTML events starting at `pos`.
fn collect_html_block(events: &Vec<MdEvent>, pos: usize) -> (r: (String, usize))
    requires
        pos <= events@.len(),
    ensures
        pos <= r.1 <= events@.len(),
        (r.0@, r.1 as int) == html_run(events_view(events@), pos as int),
        pos < events@.len() && events@[pos as int]@ is Html ==> pos < r.1,
{
    let ghost evs = events_view(events@);
    let mut html = String::new();
    let mut p = pos;
    loop
        invariant
            pos <= p <= events@.len(),
            evs == events_view(events@),
            html_run(evs, pos as int) == (
                html@ + html_run(evs, p as int).0,
                html_run(evs, p as int).1,
            ),
        ensures
            pos <= p <= events@.len(),
            html_run(evs, pos as int) == (html@, p as int),
            p == pos ==> !(pos < events@.len() && evs[pos as int] is Html),
        decreases events@.len() - p,
    {
        if p >= events.len() {
            assert(html@ + Seq::<char>::empty() =~= html@);
            break;
        }
        assert(evs[p as int] == events@[p as int]@);
        match &events[p] {
            MdEvent::Html(fragment) => {
                text_append(&mut html, fragment);
                assert(html_run(evs, pos as int).0 =~= html@ + html_run(evs, p + 1).0);
                p = p + 1;
            },
            _ => {
                assert(html@ + Seq::<char>::empty() =~= html@);
                break;
            },
        }
    }
    (html, p)
}

fn text_append(s: &mut String, t: &String)
    ensures
        final(s)@ == old(s)@ + t@,
{
    s.append(t.as_str());
}

/// The inline element the event at `pos` begins, and the position after it.
fn parse_inline_at(events: &Vec<MdEvent>, pos: usize) -> (r: (Option<InlineElement>, usize))
    requires
        pos < events@.len(),
    ensures
        pos < r.1 <= events@.len(),
        (opt_inline_view(r.0), r.1 as int) == inline_at(events_view(events@), pos as int),
    decreases events@.len() - pos, 0int,
{
    let ghost evs = events_view(events@);
    let n = events.len();
    assert(evs[pos as int] == events@[pos as int]@);
    match &events[pos] {
        MdEvent::Text(s) => (Some(InlineElement::Text(s.clone())), pos + 1),
        MdEvent::Code(s) => (Some(InlineElement::Code(s.clone())), pos + 1),
        MdEvent::SoftBreak => (Some(InlineElement::SoftBreak), pos + 1),
        MdEvent::HardBreak => (Some(InlineElement::HardBreak), pos + 1),
        MdEvent::InlineHtml(s) => (Some(InlineElement::Html(s.clone())), pos + 1),
        MdEvent::Start(tag, attr) => match tag {
            StartTag::Strong => {
                let (content, p) = parse_inlines(events, pos + 1, TagKind::Strong);
                (Some(InlineElement::Bold(content)), skip_end(events, p))
            },
            StartTag::Emphasis => {
                let (content, p) = parse_inlines(events, pos + 1, TagKind::Emphasis);
                (Some(InlineElement::Italic(content)), skip_end(events, p))
            },
            StartTag::Strikethrough => {
                let (content, p) = parse_inlines(events, pos + 1, TagKind::Strikethrough);
                (Some(InlineElement::Strikethrough(content)), skip_end(events, p))
            },
            StartTag::Link => {
                let url = attr.clone();
                let (content, p) = parse_inlines(events, pos + 1, TagKind::Link);
                (Some(InlineElement::Link { content, url }), skip_end(events, p))
            },
            StartTag::Image => {
                let url = attr.clone();
                let (alt, p) = collect_text_until(events, pos + 1, TagKind::Image);
                (Some(InlineElement::Image { alt, url }), skip_end(events, p))
            },
            _ => (None, pos + 1),
        },
        _ => (None, pos + 1),
    }
}

/// The inline elements from `pos` up to the end event of `end`.
fn parse_inlines(events: &Vec<MdEvent>, pos: usize, end: TagKind) -> (r: (
    Vec<InlineElement>,
    usize,
))
    requires
        pos <= events@.len(),
    ensures
        pos <= r.1 <= events@.len(),
        (inlines_view(r.0@), r.1 as int) == inlines_until(events_view(events@), pos as int, end),
    decreases events@.len() - pos, 1int,
{
    let ghost evs = events_view(events@);
    let mut inlines: Vec<InlineElement> = Vec::new();
    let mut p = pos;
    while p < events.len() && !is_end_of(&events[p], end)
        invariant
            pos <= p <= events@.len(),
            evs == events_view(events@),
            inlines_until(evs, pos as int, end) == (
                inlines_view(inlines@) + inlines_until(evs, p as int, end).0,
                inlines_until(evs, p as int, end).1,
            ),
        decreases events@.len() - p,
    {
        assert(evs[p as int] == events@[p as int]@);
        let (x, next) = parse_inline_at(events, p);
        let ghost before = inlines@;
        proof {
            lemma_opt_append(
                inlines_view(before),
                opt_inline_view(x),
                inlines_until(evs, next as int, end).0,
            );
        }
        match x {
            Some(e) => {
                proof {
                    lemma_inlines_push(before, e);
                }
                inlines.push(e);
            },
            None => {},
        }
        assert(inlines_view(inlines@) == inlines_view(before) + opt_seq(opt_inline_view(x)));
        p = next;
    }
    assert(inlines_view(inlines@) + Seq::<Inline>::empty() =~= inlines_view(inlines@));
    (inlines, p)
}

fn stops_bare_run(e: &MdEvent, container: TagKind) -> (b: bool)
    ensures
        b == (e@ == EventV::End(container) || stops_bare(e@)),
{
    match e {
        MdEvent::End(k) => *k == container,
        MdEvent::Rule => true,
        MdEvent::Start(tag, _) => match tag {
            StartTag::Paragraph | StartTag::Heading(_) | StartTag::FencedCode
            | StartTag::IndentedCode | StartTag::List(_) | StartTag::Table
            | StartTag::BlockQuote => true,
            _ => false,
        },
        _ => false,
    }
}

/// The inline elements standing directly in a container (a tight list item
/// has no paragraph around its text): they run until the container's end
/// event, the start of a block or a thematic break.
fn collect_bare_inlines(events: &Vec<MdEvent>, pos: usize, container: TagKind) -> (r: (
    Vec<InlineElement>,
    usize,
))
    requires
        pos <= events@.len(),
    ensures
        pos <= r.1 <= events@.len(),
        (inlines_view(r.0@), r.1 as int) == bare_inlines(
            events_view(events@),
            pos as int,
            container,
        ),
        pos < events@.len() && begins_bare(events@[pos as int]@) ==> pos < r.1,
{
    let ghost evs = events_view(events@);
    let mut inlines: Vec<InlineElement> = Vec::new();
    let mut p = pos;
    while p < events.len() && !stops_bare_run(&events[p], container)
        invariant
            pos <= p <= events@.len(),
            evs == events_view(events@),
            bare_inlines(evs, pos as int, container) == (
                inlines_view(inlines@) + bare_inlines(evs, p as int, container).0,
                bare_inlines(evs, p as int, container).1,
            ),
        decreases events@.len() - p,
    {
        assert(evs[p as int] == events@[p as int]@);
        let (x, next) = parse_inline_at(events, p);
        let ghost before = inlines@;
        proof {
            lemma_opt_append(
                inlines_view(before),
                opt_inline_view(x),
                bare_inlines(evs, next as int, container).0,
            );
        }
        match x {
            Some(e) => {
                proof {
                    lemma_inlines_push(before, e);
                }
                inlines.push(e);
            },
            None => {},
        }
        assert(inlines_view(inlines@) == inlines_view(before) + opt_seq(opt_inline_view(x)));
        p = next;
    }
    assert(inlines_view(inlines@) + Seq::<Inline>::empty() =~= inlines_view(inlines@));
    (inlines, p)
}

fn is_start_of(e: &MdEvent, tag: StartTag) -> (b: bool)
    ensures
        b == (e@ is Start && e@->Start_0 == tag),
{
    match e {
        MdEvent::Start(t, _) => *t == tag,
        _ => false,
    }
}

/// The cells of a table row from `pos` up to the end event of `end`.
fn parse_table_row(events: &Vec<MdEvent>, pos: usize, end: TagKind) -> (r: (
    Vec<Vec<InlineElement>>,
    usize,
))
    requires
        pos <= events@.len(),
    ensures
        pos <= r.1 <= events@.len(),
        (rows_view(r.0@), r.1 as int) == table_row(events_view(events@), pos as int, end),
{
    let ghost evs = events_view(events@);
    let mut cells: Vec<Vec<InlineElement>> = Vec::new();
    let mut p = pos;
    while p < events.len() && !is_end_of(&events[p], end)
        invariant
            pos <= p <= events@.len(),
            evs == events_view(events@),
            table_row(evs, pos as int, end) == (
                rows_view(cells@) + table_row(evs, p as int, end).0,
                table_row(evs, p as int, end).1,
            ),
        decreases events@.len() - p,
    {
        assert(evs[p as int] == events@[p as int]@);
        if is_start_of(&events[p], StartTag::TableCell) {
            let (cell, p1) = parse_inlines(events, p + 1, TagKind::TableCell);
            let next = skip_end(events, p1);
            let ghost before = cells@;
            proof {
                lemma_rows_push(before, cell);
            }
            cells.push(cell);
            assert(table_row(evs, pos as int, end).0 =~= rows_view(cells@) + table_row(
                evs,
                next as int,
                end,
            ).0);
            p = next;
        } else {
            p = p + 1;
        }
    }
    assert(rows_view(cells@) + Seq::<Seq<Inline>>::empty() =~= rows_view(cells@));
    (cells, p)
}

/// The header row (the last, if there are several) and the body rows of a
/// table, up to the table's end event.
fn parse_table(events: &Vec<MdEvent>, pos: usize) -> (r: (
    Vec<Vec<InlineElement>>,
    Vec<Vec<Vec<InlineElement>>>,
    usize,
))
    requires
        pos <= events@.len(),
    ensures
        pos <= r.2 <= events@.len(),
        ({
            let (h, rows, p) = table_parts(events_view(events@), pos as int);
            &&& rows_view(r.0@) == (if h is Some {
                h->0
            } else {
                Seq::empty()
            })
            &&& table_rows_view(r.1@) == rows
            &&& r.2 == p
        }),
{
    let ghost evs = events_view(events@);
    let mut headers: Vec<Vec<InlineElement>> = Vec::new();
    let mut rows: Vec<Vec<Vec<InlineElement>>> = Vec::new();
    let ghost mut seen: Option<Seq<Seq<Inline>>> = None;
    let mut p = pos;
    while p < events.len() && !is_end_of(&events[p], TagKind::Table)
        invariant
            pos <= p <= events@.len(),
            evs == events_view(events@),
            rows_view(headers@) == (if seen is Some {
                seen->0
            } else {
                Seq::empty()
            }),
            ({
                let (h, rs, q) = table_parts(evs, p as int);
                table_parts(evs, pos as int) == (
                    if h is Some {
                        h
                    } else {
                        seen
                    },
                    table_rows_view(rows@) + rs,
                    q,
                )
            }),
        decreases events@.len() - p,
    {
        assert(evs[p as int] == events@[p as int]@);
        if is_start_of(&events[p], StartTag::TableHead) {
            let (row, p1) = parse_table_row(events, p + 1, TagKind::TableHead);
            let next = skip_end(events, p1);
            headers = row;
            proof {
                seen = Some(rows_view(headers@));
            }
            p = next;
        } else if is_start_of(&events[p], StartTag::TableRow) {
            let (row, p1) = parse_table_row(events, p + 1, TagKind::TableRow);
            let next = skip_end(events, p1);
            let ghost before = rows@;
            proof {
                lemma_table_rows_push(before, row);
            }
            rows.push(row);
            let ghost rest = table_parts(evs, next as int).1;
            assert(table_rows_view(before) + (seq![rows_view(row@)] + rest) =~= table_rows_view(
                rows@,
            ) + rest);
            p = next;
        } else {
            p = p + 1;
        }
    }
    assert(table_rows_view(rows@) + Seq::<Seq<Seq<Inline>>>::empty() =~= table_rows_view(rows@));
    (headers, rows, p)
}

fn ends_blocks(e: &MdEvent, end: Option<TagKind>) -> (b: bool)
    ensures
        b == ends_container(e@, end),
{
    match end {
        Some(k) => is_end_of(e, k),
        None => false,
    }
}

fn begins_bare_run(e: &MdEvent) -> (b: bool)
    ensures
        b == begins_bare(e@),
{
    match e {
        MdEvent::Text(_) | MdEvent::Code(_) | MdEvent::SoftBreak | MdEvent::HardBreak
        | MdEvent::InlineHtml(_) => true,
        MdEvent::Start(tag, _) => match tag {
            StartTag::Strong | StartTag::Emphasis | StartTag::Strikethrough | StartTag::Link
            | StartTag::Image => true,
            _ => false,
        },
        _ => false,
    }
}

/// A paragraph of the bare inline content at `pos` inside the container
/// ending with `container` (none if the run holds no inline element).
fn parse_bare_paragraph(events: &Vec<MdEvent>, pos: usize, container: TagKind) -> (r: (
    Option<MdElement>,
    usize,
))
    requires
        pos < events@.len(),
        begins_bare(events@[pos as int]@),
    ensures
        pos < r.1 <= events@.len(),
        ({
            let (c, p) = bare_inlines(events_view(events@), pos as int, container);
            &&& opt_block_view(r.0) == (if c.len() == 0 {
                None
            } else {
                Some(Block::Paragraph(c))
            })
            &&& r.1 == p
        }),
{
    let (content, p) = collect_bare_inlines(events, pos, container);
    if content.len() == 0 {
        (None, p)
    } else {
        (Some(MdElement::Paragraph(content)), p)
    }
}

/// The block the event at `pos` begins, and the position after it; `end` is
/// the end kind of the enclosing container, `None` at the top level.
fn parse_block_at(events: &Vec<MdEvent>, pos: usize, end: Option<TagKind>) -> (r: (
    Option<MdElement>,
    usize,
))
    requires
        pos < events@.len(),
    ensures
        pos < r.1 <= events@.len(),
        (opt_block_view(r.0), r.1 as int) == block_at(events_view(events@), pos as int, end),
    decreases events@.len() - pos, 0int,
{
    let ghost evs = events_view(events@);
    let n = events.len();
    assert(evs[pos as int] == events@[pos as int]@);
    match &events[pos] {
        MdEvent::Start(tag, attr) => match tag {
            StartTag::Heading(level) => {
                let (content, p) = parse_inlines(events, pos + 1, TagKind::Heading);
                (Some(MdElement::Heading { level: *level, content }), skip_end(events, p))
            },
            StartTag::Paragraph => {
                let (content, p) = parse_inlines(events, pos + 1, TagKind::Paragraph);
                (Some(MdElement::Paragraph(content)), skip_end(events, p))
            },
            StartTag::FencedCode => {
                let language = if attr.as_str().is_empty() {
                    None
                } else {
                    Some(attr.clone())
                };
                let (code, p) = collect_text_until(events, pos + 1, TagKind::CodeBlock);
                (Some(MdElement::CodeBlock { language, code }), skip_end(events, p))
            },
            StartTag::IndentedCode => {
                let (code, p) = collect_text_until(events, pos + 1, TagKind::CodeBlock);
                (Some(MdElement::CodeBlock { language: None, code }), skip_end(events, p))
            },
            StartTag::List(start) => {
                let (items, p) = parse_list_items(events, pos + 1);
                let ordered = start.is_some();
                (Some(MdElement::List { ordered, start: *start, items }), skip_end(events, p))
            },
            StartTag::Table => {
                if end.is_none() {
                    let (headers, rows, p) = parse_table(events, pos + 1);
                    (Some(MdElement::Table { headers, rows }), skip_end(events, p))
                } else {
                    (None, pos + 1)
                }
            },
            StartTag::BlockQuote => {
                let (content, p) = parse_blocks_until(
                    events,
                    pos + 1,
                    Some(TagKind::BlockQuote),
                );
                (Some(MdElement::BlockQuote(content)), skip_end(events, p))
            },
            _ => match end {
                Some(k) => {
                    if begins_bare_run(&events[pos]) {
                        parse_bare_paragraph(events, pos, k)
                    } else {
                        (None, pos + 1)
                    }
                },
                None => (None, pos + 1),
            },
        },
        MdEvent::Rule => (Some(MdElement::ThematicBreak), pos + 1),
        MdEvent::Html(_) => {
            let (html, p) = collect_html_block(events, pos);
            (Some(MdElement::HtmlBlock(html)), p)
        },
        _ => match end {
            Some(k) => {
                if begins_bare_run(&events[pos]) {
                    parse_bare_paragraph(events, pos, k)
                } else {
                    (None, pos + 1)
                }
            },
            None => (None, pos + 1),
        },
    }
}

/// The blocks from `pos` up to the end event of the enclosing container
/// (`end`), or to the end of the stream at the top level (`end` is `None`).
fn parse_blocks_until(events: &Vec<MdEvent>, pos: usize, end: Option<TagKind>) -> (r: (
    Vec<MdElement>,
    usize,
))
    requires
        pos <= events@.len(),
    ensures
        pos <= r.1 <= events@.len(),
        (blocks_view(r.0@), r.1 as int) == blocks_until(events_view(events@), pos as int, end),
    decreases events@.len() - pos, 1int,
{
    let ghost evs = events_view(events@);
    let mut elements: Vec<MdElement> = Vec::new();
    let mut p = pos;
    while p < events.len() && !ends_blocks(&events[p], end)
        invariant
            pos <= p <= events@.len(),
            evs == events_view(events@),
            blocks_until(evs, pos as int, end) == (
                blocks_view(elements@) + blocks_until(evs, p as int, end).0,
                blocks_until(evs, p as int, end).1,
            ),
        decreases events@.len() - p,
    {
        assert(evs[p as int] == events@[p as int]@);
        let (x, next) = parse_block_at(events, p, end);
        let ghost before = elements@;
        proof {
            lemma_opt_append(
                blocks_view(before),
                opt_block_view(x),
                blocks_until(evs, next as int, end).0,
            );
        }
        match x {
            Some(e) => {
                proof {
                    lemma_blocks_push(before, e);
                }
                elements.push(e);
            },
            None => {},
        }
        assert(blocks_view(elements@) == blocks_view(before) + opt_seq(opt_block_view(x)));
        p = next;
    }
    assert(blocks_view(elements@) + Seq::<Block>::empty() =~= blocks_view(elements@));
    (elements, p)
}

fn task_marker(e: &MdEvent) -> (r: Option<bool>)
    ensures
        r == (if e@ is TaskListMarker {
            Some(e@->TaskListMarker_0)
        } else {
            None
        }),
{
    match e {
        MdEvent::TaskListMarker(b) => Some(*b),
        _ => None,
    }
}

/// The list item the event at `pos` begins, and the position after it.
fn parse_list_item_at(events: &Vec<MdEvent>, pos: usize) -> (r: (Option<ListItem>, usize))
    requires
        pos < events@.len(),
    ensures
        pos < r.1 <= events@.len(),
        (opt_item_view(r.0), r.1 as int) == list_item_at(events_view(events@), pos as int),
    decreases events@.len() - pos, 0int,
{
    let ghost evs = events_view(events@);
    let n = events.len();
    assert(evs[pos as int] == events@[pos as int]@);
    if is_start_of(&events[pos], StartTag::Item) {
        let mut q = pos + 1;
        let mut checked = None;
        if q < n {
            assert(evs[q as int] == events@[q as int]@);
            checked = task_marker(&events[q]);
            if checked.is_some() {
                q = q + 1;
            }
        }
        let (content, p) = parse_blocks_until(events, q, Some(TagKind::Item));
        (Some(ListItem { checked, content }), skip_end(events, p))
    } else {
        (None, pos + 1)
    }
}

/// The items of a list from `pos` up to the list's end event.
fn parse_list_items(events: &Vec<MdEvent>, pos: usize) -> (r: (Vec<ListItem>, usize))
    requires
        pos <= events@.len(),
    ensures
        pos <= r.1 <= events@.len(),
        (items_view(r.0@), r.1 as int) == list_items(events_view(events@), pos as int),
    decreases events@.len() - pos, 1int,
{
    let ghost evs = events_view(events@);
    let mut items: Vec<ListItem> = Vec::new();
    let mut p = pos;
    while p < events.len() && !is_end_of(&events[p], TagKind::List)
        invariant
            pos <= p <= events@.len(),
            evs == events_view(events@),
            list_items(evs, pos as int) == (
                items_view(items@) + list_items(evs, p as int).0,
                list_items(evs, p as int).1,
            ),
        decreases events@.len() - p,
    {
        assert(evs[p as int] == events@[p as int]@);
        let (x, next) = parse_list_item_at(events, p);
        let ghost before = items@;
        proof {
            lemma_opt_append(items_view(before), opt_item_view(x), list_items(evs, next as int).0);
        }
        match x {
            Some(e) => {
                proof {
                    lemma_items_push(before, e);
                }
                items.push(e);
            },
            None => {},
        }
        assert(items_view(items@) == items_view(before) + opt_seq(opt_item_view(x)));
        p = next;
    }
    assert(items_view(items@) + Seq::<Item>::empty() =~= items_view(items@));
    (items, p)
}

/// The document a stream of CommonMark parser events describes.
pub fn parse_events(events: &Vec<MdEvent>) -> (r: Vec<MdElement>)
    ensures
        blocks_view(r@) == document(events_view(events@)),
{
    let (elements, _) = parse_blocks_until(events, 0, None);
    elements
}

/// The pulldown-cmark options the viewer parses with: tables, footnotes,
/// strikethrough and task lists (the bits of `ENABLE_TABLES`,
/// `ENABLE_FOOTNOTES`, `ENABLE_STRIKETHROUGH` and `ENABLE_TASKLISTS`).
pub const MARKDOWN_OPTIONS: u32 = 30;

/// Parse markdown text (GitHub flavoured: tables, footnotes, strikethrough,
/// task lists) into its document tree.
pub fn parse_markdown(input: &str) -> (r: Vec<MdElement>)
    ensures
        blocks_view(r@) == document(cmark_events(input@, MARKDOWN_OPTIONS)),
        blocks_levels_ok(blocks_view(r@)),
{
    let events = markdown_events(input, MARKDOWN_OPTIONS);
    proof {
        lemma_document_heading_levels(cmark_events(input@, MARKDOWN_OPTIONS));
    }
    parse_events(&events)
}

/// A list is ordered exactly when pulldown-cmark reports a start number for
/// it, and an ordered list starts at that number: the block that a list's
/// start event begins, at any depth, is a list with the reported start.
pub proof fn lemma_list_start(
    evs: Seq<EventV>,
    pos: int,
    end: Option<TagKind>,
    s: Option<u64>,
    attr: Seq<char>,
)
    requires
        0 <= pos < evs.len(),
        evs[pos] == EventV::Start(StartTag::List(s), attr),
    ensures
        block_at(evs, pos, end).0 matches Some(Block::List { ordered, start, items: _ }) && ordered
            == (s is Some) && start == s,
{
}

/// A document that begins with a list begins with that list, numbered from
/// the start number pulldown-cmark reports (`3. Third` starts at 3).
pub proof fn lemma_document_list_start(evs: Seq<EventV>, s: Option<u64>, attr: Seq<char>)
    requires
        evs.len() > 0,
        evs[0] == EventV::Start(StartTag::List(s), attr),
    ensures
        document(evs).len() > 0,
        document(evs)[0] matches Block::List { ordered, start, items: _ } && ordered == (s is Some)
            && start == s,
{
    lemma_list_start(evs, 0, None, s, attr);
    let (x, next) = block_at(evs, 0, None);
    assert(!ends_container(evs[0], None));
    if 0 < next <= evs.len() {
        let (rest, p) = blocks_until(evs, next, None);
        assert(document(evs) == opt_seq(x) + rest);
        assert((opt_seq(x) + rest)[0] == x->0);
    } else {
        assert(document(evs) == opt_seq(x));
    }
}

} // verus!
