//! What the renderer makes of parsed markdown before anything is drawn: the
//! plain text of inline content, the table of contents, the styled text runs
//! and interactive pieces of a paragraph, and the actions that links trigger.

use vstd::prelude::*;
use crate::document::{
    block_view, blocks_view, inline_view, inlines_view, Block, Inline, InlineElement, MdElement,
};
use crate::parser::{block_levels_ok, blocks_levels_ok};
use crate::links::{
    classify_link, heading_to_anchor, spec_classify_link, spec_heading_to_anchor, LinkAction,
    LinkTarget,
};
use crate::html::{
    html_to_display_text, is_horizontal_rule_tag, is_html_comment, is_line_break_tag,
    spec_html_to_display_text, spec_is_horizontal_rule_tag, spec_is_html_comment,
    spec_is_line_break_tag,
};
use crate::style::{apply_inline_html_style, html_style_change, InlineStyleState};
use crate::text::{chars_of, push_char, push_str, string_of, trim, trim_ws};
use crate::theme::{Color, Theme};

verus! {

broadcast use vstd::string::group_string_axioms;

/// The plain text of an inline element: text and code as they are, a soft
/// break as a space, a hard break as a line break, an image as its alt text,
/// HTML as the text it displays, and the other elements as the text of their
/// content.
pub open spec fn inline_text(x: Inline) -> Seq<char>
    decreases x, 0int,
{
    match x {
        Inline::Text(t) => t,
        Inline::Bold(c) => inlines_text(c, 0),
        Inline::Italic(c) => inlines_text(c, 0),
        Inline::Strikethrough(c) => inlines_text(c, 0),
        Inline::Code(c) => c,
        Inline::Link { content, url: _ } => inlines_text(content, 0),
        Inline::Image { alt, url: _ } => alt,
        Inline::Html(h) => spec_html_to_display_text(h),
        Inline::SoftBreak => seq![' '],
        Inline::HardBreak => seq!['\n'],
    }
}

/// The plain text of the elements of `xs` from position `i` on.
pub open spec fn inlines_text(xs: Seq<Inline>, i: int) -> Seq<char>
    decreases xs, xs.len() - i,
{
    if 0 <= i < xs.len() {
        inline_text(xs[i]) + inlines_text(xs, i + 1)
    } else {
        Seq::empty()
    }
}

/// The plain text of a sequence of inline elements.
pub open spec fn spec_extract_text(xs: Seq<Inline>) -> Seq<char> {
    inlines_text(xs, 0)
}

fn inline_plain_text(inline: &InlineElement) -> (r: String)
    ensures
        r@ == inline_text(inline_view(*inline)),
    decreases inline, 0int,
{
    match inline {
        InlineElement::Text(t) => t.clone(),
        InlineElement::Bold(c) => extract_text(c),
        InlineElement::Italic(c) => extract_text(c),
        InlineElement::Strikethrough(c) => extract_text(c),
        InlineElement::Code(c) => c.clone(),
        InlineElement::Link { content, url: _ } => extract_text(content),
        InlineElement::Image { alt, url: _ } => alt.clone(),
        InlineElement::Html(h) => html_to_display_text(h.as_str()),
        InlineElement::SoftBreak => {
            let mut s = String::new();
            push_char(&mut s, ' ');
            s
        },
        InlineElement::HardBreak => {
            let mut s = String::new();
            push_char(&mut s, '\n');
            s
        },
    }
}

/// The plain text of a sequence of inline elements (see [`inline_text`]).
pub fn extract_text(inlines: &Vec<InlineElement>) -> (r: String)
    ensures
        r@ == spec_extract_text(inlines_view(inlines@)),
    decreases inlines, 1int,
{
    let ghost xs = inlines_view(inlines@);
    let mut s = String::new();
    let n: usize = inlines.len();
    let mut i: usize = 0;
    while i < n
        invariant
            n == inlines@.len(),
            xs == inlines_view(inlines@),
            i <= n,
            inlines_text(xs, 0) == s@ + inlines_text(xs, i as int),
        decreases n - i,
    {
        let t = inline_plain_text(&inlines[i]);
        assert(xs[i as int] == inline_view(inlines@[i as int]));
        let ghost before = s@;
        push_str(&mut s, t.as_str());
        assert(before + (t@ + inlines_text(xs, i + 1)) =~= s@ + inlines_text(xs, i + 1));
        i = i + 1;
    }
    assert(s@ + Seq::<char>::empty() =~= s@);
    s
}

/// Whether an inline element is interactive: a link or an image, or
/// emphasis around one.
pub open spec fn inline_interactive(x: Inline) -> bool
    decreases x, 0int,
{
    match x {
        Inline::Link { .. } => true,
        Inline::Image { .. } => true,
        Inline::Bold(c) => inlines_interactive(c, 0),
        Inline::Italic(c) => inlines_interactive(c, 0),
        Inline::Strikethrough(c) => inlines_interactive(c, 0),
        _ => false,
    }
}

/// Whether one of the elements of `xs` from position `i` on is interactive.
pub open spec fn inlines_interactive(xs: Seq<Inline>, i: int) -> bool
    decreases xs, xs.len() - i,
{
    if 0 <= i < xs.len() {
        inline_interactive(xs[i]) || inlines_interactive(xs, i + 1)
    } else {
        false
    }
}

fn inline_has_interactive(inline: &InlineElement) -> (b: bool)
    ensures
        b == inline_interactive(inline_view(*inline)),
    decreases inline, 0int,
{
    match inline {
        InlineElement::Link { .. } => true,
        InlineElement::Image { .. } => true,
        InlineElement::Bold(c) => has_interactive(c),
        InlineElement::Italic(c) => has_interactive(c),
        InlineElement::Strikethrough(c) => has_interactive(c),
        _ => false,
    }
}

/// Whether the inline content holds a link or an image, at any depth of
/// emphasis.
pub fn has_interactive(inlines: &Vec<InlineElement>) -> (b: bool)
    ensures
        b == inlines_interactive(inlines_view(inlines@), 0),
    decreases inlines, 1int,
{
    let ghost xs = inlines_view(inlines@);
    let n: usize = inlines.len();
    let mut i: usize = 0;
    while i < n
        invariant
            n == inlines@.len(),
            xs == inlines_view(inlines@),
            i <= n,
            inlines_interactive(xs, 0) == inlines_interactive(xs, i as int),
        decreases n - i,
    {
        assert(xs[i as int] == inline_view(inlines@[i as int]));
        if inline_has_interactive(&inlines[i]) {
            return true;
        }
        i = i + 1;
    }
    false
}

/// The table-of-contents entry of a block: for a heading its level, its
/// plain text and the anchor made from that text.
pub open spec fn toc_entry(b: Block) -> Option<(u8, Seq<char>, Seq<char>)> {
    match b {
        Block::Heading { level, content } => {
            let t = spec_extract_text(content);
            Some((level, t, spec_heading_to_anchor(t)))
        },
        _ => None,
    }
}

/// The table of contents of a sequence of blocks: the entries of its
/// top-level headings, in order.
pub open spec fn spec_toc(bs: Seq<Block>) -> Seq<(u8, Seq<char>, Seq<char>)>
    decreases bs.len(),
{
    if bs.len() == 0 {
        Seq::empty()
    } else {
        let r = spec_toc(bs.drop_last());
        match toc_entry(bs.last()) {
            Some(e) => r.push(e),
            None => r,
        }
    }
}

pub open spec fn toc_view(v: Seq<(u8, String, String)>) -> Seq<(u8, Seq<char>, Seq<char>)> {
    Seq::new(v.len(), |k: int| (v[k].0, v[k].1@, v[k].2@))
}

/// Extract the table of contents (level, text, anchor) from parsed elements.
pub fn extract_toc(elements: &[MdElement]) -> (toc: Vec<(u8, String, String)>)
    ensures
        toc_view(toc@) == spec_toc(blocks_view(elements@)),
{
    let ghost bs = blocks_view(elements@);
    let mut toc: Vec<(u8, String, String)> = Vec::new();
    for i in 0..elements.len()
        invariant
            bs == blocks_view(elements@),
            toc_view(toc@) == spec_toc(bs.take(i as int)),
    {
        assert(bs.take(i + 1).drop_last() =~= bs.take(i as int));
        assert(bs.take(i + 1).last() == block_view(elements@[i as int]));
        if let MdElement::Heading { level, content } = &elements[i] {
            let text = extract_text(content);
            let anchor = heading_to_anchor(text.as_str());
            let ghost before = toc@;
            toc.push((*level, text, anchor));
            assert(toc_view(toc@) =~= toc_view(before).push(
                (toc@.last().0, toc@.last().1@, toc@.last().2@),
            ));
        }
    }
    assert(bs.take(elements@.len() as int) =~= bs);
    toc
}

/// A stretch of text drawn in one format.
#[derive(Debug, PartialEq)]
pub struct TextRun {
    pub text: String,
    /// Set in the monospace font (else the proportional one).
    pub monospace: bool,
    pub color: Color,
    pub background: Color,
    pub italics: bool,
    /// Struck through with a line of the text colour.
    pub strikethrough: bool,
}

/// The mathematical value of a [`TextRun`].
pub struct RunV {
    pub text: Seq<char>,
    pub monospace: bool,
    pub color: Color,
    pub background: Color,
    pub italics: bool,
    pub strikethrough: bool,
}

impl View for TextRun {
    type V = RunV;

    open spec fn view(&self) -> RunV {
        RunV {
            text: self.text@,
            monospace: self.monospace,
            color: self.color,
            background: self.background,
            italics: self.italics,
            strikethrough: self.strikethrough,
        }
    }
}

pub open spec fn runs_view(v: Seq<TextRun>) -> Seq<RunV> {
    Seq::new(v.len(), |k: int| v[k]@)
}

pub open spec fn transparent() -> Color {
    Color { r: 0, g: 0, b: 0, a: 0 }
}

/// The colour of text in style `st`: the colour set by HTML if any, else the
/// theme's colour for bold or for body text.
pub open spec fn text_color_in(theme: Theme, st: InlineStyleState) -> Color {
    match st.color_override {
        Some(c) => c,
        None => if st.bold {
            theme.spec_strong_text_color()
        } else {
            theme.spec_text_color()
        },
    }
}

/// A run of text in style `st`, on the given background.
pub open spec fn styled_run(
    text: Seq<char>,
    monospace: bool,
    background: Color,
    theme: Theme,
    st: InlineStyleState,
) -> RunV {
    RunV {
        text,
        monospace,
        color: text_color_in(theme, st),
        background,
        italics: st.italic,
        strikethrough: st.strikethrough,
    }
}

/// A line break or space: upright, not struck through, in the text colour.
pub open spec fn break_run(text: Seq<char>, theme: Theme, st: InlineStyleState) -> RunV {
    RunV {
        text,
        monospace: false,
        color: text_color_in(theme, st),
        background: transparent(),
        italics: false,
        strikethrough: false,
    }
}

/// The runs an inline element is drawn as in style `st`, and the style in
/// force after it. Emphasis applies to its content only; links and images
/// draw no run; inline HTML is dropped if it is a comment, is a line break if
/// it is `<br>`, changes the style if it is a style tag, and is otherwise
/// drawn as its displayed text (in the code font and background inside
/// `<code>`).
pub open spec fn inline_runs(x: Inline, theme: Theme, st: InlineStyleState) -> (
    Seq<RunV>,
    InlineStyleState,
)
    decreases x, 0int,
{
    match x {
        Inline::Text(t) => (seq![styled_run(t, false, transparent(), theme, st)], st),
        Inline::Bold(c) => (inlines_runs(c, 0, theme, InlineStyleState { bold: true, ..st }).0, st),
        Inline::Italic(c) => (
            inlines_runs(c, 0, theme, InlineStyleState { italic: true, ..st }).0,
            st,
        ),
        Inline::Strikethrough(c) => (
            inlines_runs(c, 0, theme, InlineStyleState { strikethrough: true, ..st }).0,
            st,
        ),
        Inline::Code(c) => (seq![styled_run(c, true, theme.spec_code_bg(), theme, st)], st),
        Inline::SoftBreak => (seq![break_run(seq![' '], theme, st)], st),
        Inline::HardBreak => (seq![break_run(seq!['\n'], theme, st)], st),
        Inline::Html(h) => {
            let t = trim_ws(h);
            if spec_is_html_comment(t) {
                (Seq::empty(), st)
            } else if spec_is_line_break_tag(t) {
                (seq![break_run(seq!['\n'], theme, st)], st)
            } else {
                match html_style_change(t, st) {
                    Some(changed) => (Seq::empty(), changed),
                    None => {
                        let d = spec_html_to_display_text(t);
                        if d.len() == 0 {
                            (Seq::empty(), st)
                        } else {
                            let bg = if st.html_code {
                                theme.spec_code_bg()
                            } else {
                                transparent()
                            };
                            (seq![styled_run(d, st.html_code, bg, theme, st)], st)
                        }
                    },
                }
            }
        },
        _ => (Seq::empty(), st),
    }
}

/// The runs of the elements of `xs` from position `i` on, the style left by
/// each element carried to the next.
pub open spec fn inlines_runs(xs: Seq<Inline>, i: int, theme: Theme, st: InlineStyleState) -> (
    Seq<RunV>,
    InlineStyleState,
)
    decreases xs, xs.len() - i,
{
    if 0 <= i < xs.len() {
        let (r1, s1) = inline_runs(xs[i], theme, st);
        let (r2, s2) = inlines_runs(xs, i + 1, theme, s1);
        (r1 + r2, s2)
    } else {
        (Seq::empty(), st)
    }
}

fn color_in(theme: Theme, st: &InlineStyleState) -> (c: Color)
    ensures
        c == text_color_in(theme, *st),
{
    match st.color_override {
        Some(c) => c,
        None => if st.bold {
            theme.strong_text_color()
        } else {
            theme.text_color()
        },
    }
}

fn push_run(runs: &mut Vec<TextRun>, run: TextRun)
    ensures
        runs_view(final(runs)@) == runs_view(old(runs)@).push(run@),
{
    runs.push(run);
    assert(runs_view(runs@) =~= runs_view(old(runs)@).push(run@));
}

fn one_char(c: char) -> (s: String)
    ensures
        s@ == seq![c],
{
    let mut s = String::new();
    push_char(&mut s, c);
    s
}

/// Append the runs of one inline element in style `style` (see
/// [`inline_runs`]); `style` is left as the element leaves it.
pub fn append_inline_runs(
    runs: &mut Vec<TextRun>,
    inline: &InlineElement,
    theme: Theme,
    style: &mut InlineStyleState,
)
    ensures
        runs_view(final(runs)@) == runs_view(old(runs)@) + inline_runs(
            inline_view(*inline),
            theme,
            *old(style),
        ).0,
        *final(style) == inline_runs(inline_view(*inline), theme, *old(style)).1,
    decreases inline, 0int,
{
    let color = color_in(theme, style);
    let ghost r0 = runs_view(runs@);
    match inline {
        InlineElement::Text(t) => {
            push_run(
                runs,
                TextRun {
                    text: t.clone(),
                    monospace: false,
                    color,
                    background: Color::transparent(),
                    italics: style.italic,
                    strikethrough: style.strikethrough,
                },
            );
        },
        InlineElement::Bold(c) => {
            let mut nested = *style;
            nested.bold = true;
            append_inlines_runs(runs, c, theme, &mut nested);
        },
        InlineElement::Italic(c) => {
            let mut nested = *style;
            nested.italic = true;
            append_inlines_runs(runs, c, theme, &mut nested);
        },
        InlineElement::Strikethrough(c) => {
            let mut nested = *style;
            nested.strikethrough = true;
            append_inlines_runs(runs, c, theme, &mut nested);
        },
        InlineElement::Code(c) => {
            push_run(
                runs,
                TextRun {
                    text: c.clone(),
                    monospace: true,
                    color,
                    background: theme.code_bg(),
                    italics: style.italic,
                    strikethrough: style.strikethrough,
                },
            );
        },
        InlineElement::SoftBreak => {
            push_run(
                runs,
                TextRun {
                    text: one_char(' '),
                    monospace: false,
                    color,
                    background: Color::transparent(),
                    italics: false,
                    strikethrough: false,
                },
            );
        },
        InlineElement::HardBreak => {
            push_run(
                runs,
                TextRun {
                    text: one_char('\n'),
                    monospace: false,
                    color,
                    background: Color::transparent(),
                    italics: false,
                    strikethrough: false,
                },
            );
        },
        InlineElement::Link { .. } => {},
        InlineElement::Image { .. } => {},
        InlineElement::Html(html) => {
            let trimmed = string_of(&trim(&chars_of(html.as_str())));
            if is_html_comment(trimmed.as_str()) {
            } else if is_line_break_tag(trimmed.as_str()) {
                push_run(
                    runs,
                    TextRun {
                        text: one_char('\n'),
                        monospace: false,
                        color,
                        background: Color::transparent(),
                        italics: false,
                        strikethrough: false,
                    },
                );
            } else if apply_inline_html_style(trimmed.as_str(), style) {
            } else {
                let text = html_to_display_text(trimmed.as_str());
                if !text.as_str().is_empty() {
                    let code = style.html_code;
                    let background = if code {
                        theme.code_bg()
                    } else {
                        Color::transparent()
                    };
                    push_run(
                        runs,
                        TextRun {
                            text,
                            monospace: code,
                            color,
                            background,
                            italics: style.italic,
                            strikethrough: style.strikethrough,
                        },
                    );
                }
            }
        },
    }
    assert(runs_view(runs@) =~= r0 + inline_runs(inline_view(*inline), theme, *old(style)).0);
}

/// Append the runs of a sequence of inline elements, the style carried from
/// each element to the next (see [`inlines_runs`]).
pub fn append_inlines_runs(
    runs: &mut Vec<TextRun>,
    inlines: &Vec<InlineElement>,
    theme: Theme,
    style: &mut InlineStyleState,
)
    ensures
        runs_view(final(runs)@) == runs_view(old(runs)@) + inlines_runs(
            inlines_view(inlines@),
            0,
            theme,
            *old(style),
        ).0,
        *final(style) == inlines_runs(inlines_view(inlines@), 0, theme, *old(style)).1,
    decreases inlines, 1int,
{
    let ghost xs = inlines_view(inlines@);
    let ghost r0 = runs_view(runs@);
    let ghost s0 = *style;
    let n: usize = inlines.len();
    let mut i: usize = 0;
    while i < n
        invariant
            n == inlines@.len(),
            xs == inlines_view(inlines@),
            i <= n,
            r0 + inlines_runs(xs, 0, theme, s0).0 == runs_view(runs@) + inlines_runs(
                xs,
                i as int,
                theme,
                *style,
            ).0,
            inlines_runs(xs, 0, theme, s0).1 == inlines_runs(xs, i as int, theme, *style).1,
        decreases n - i,
    {
        assert(xs[i as int] == inline_view(inlines@[i as int]));
        let ghost before = runs_view(runs@);
        let ghost st = *style;
        append_inline_runs(runs, &inlines[i], theme, style);
        let ghost step = inline_runs(xs[i as int], theme, st);
        assert(before + inlines_runs(xs, i as int, theme, st).0 =~= runs_view(runs@)
            + inlines_runs(xs, i + 1, theme, step.1).0);
        i = i + 1;
    }
    assert(runs_view(runs@) + Seq::<RunV>::empty() =~= runs_view(runs@));
}

/// One piece of a paragraph as it is drawn: a run of text, a link, or an
/// image. Consecutive runs are laid out together; links and images are
/// drawn as widgets of their own.
#[derive(Debug, PartialEq)]
pub enum InlinePiece {
    Run(TextRun),
    Link { text: String, url: String, color: Color, bold: bool, italic: bool },
    Image { alt: String, url: String },
}

/// The mathematical value of an [`InlinePiece`].
pub enum PieceV {
    Run(RunV),
    Link { text: Seq<char>, url: Seq<char>, color: Color, bold: bool, italic: bool },
    Image { alt: Seq<char>, url: Seq<char> },
}

impl View for InlinePiece {
    type V = PieceV;

    open spec fn view(&self) -> PieceV {
        match self {
            InlinePiece::Run(r) => PieceV::Run(r@),
            InlinePiece::Link { text, url, color, bold, italic } => PieceV::Link {
                text: text@,
                url: url@,
                color: *color,
                bold: *bold,
                italic: *italic,
            },
            InlinePiece::Image { alt, url } => PieceV::Image { alt: alt@, url: url@ },
        }
    }
}

pub open spec fn pieces_view(v: Seq<InlinePiece>) -> Seq<PieceV> {
    Seq::new(v.len(), |k: int| v[k]@)
}

pub open spec fn runs_as_pieces(r: Seq<RunV>) -> Seq<PieceV> {
    Seq::new(r.len(), |k: int| PieceV::Run(r[k]))
}

/// The pieces of an inline element inside emphasis (`bold`, `italic`,
/// `strike`) when its paragraph holds links or images: text-like elements are
/// drawn as their runs in a fresh style, emphasis passes on to its content,
/// a link is a piece of its own (its plain text in the link colour), and so
/// is an image.
pub open spec fn inline_pieces(x: Inline, theme: Theme, bold: bool, italic: bool, strike: bool) -> Seq<PieceV>
    decreases x, 0int,
{
    match x {
        Inline::Bold(c) => inlines_pieces(c, 0, theme, true, italic, strike),
        Inline::Italic(c) => inlines_pieces(c, 0, theme, bold, true, strike),
        Inline::Strikethrough(c) => inlines_pieces(c, 0, theme, bold, italic, true),
        Inline::Link { content, url } => seq![
            PieceV::Link {
                text: spec_extract_text(content),
                url,
                color: theme.spec_link_color(),
                bold,
                italic,
            },
        ],
        Inline::Image { alt, url } => seq![PieceV::Image { alt, url }],
        _ => runs_as_pieces(
            inline_runs(
                x,
                theme,
                InlineStyleState {
                    bold,
                    italic,
                    strikethrough: strike,
                    html_code: false,
                    color_override: None,
                },
            ).0,
        ),
    }
}

pub open spec fn inlines_pieces(
    xs: Seq<Inline>,
    i: int,
    theme: Theme,
    bold: bool,
    italic: bool,
    strike: bool,
) -> Seq<PieceV>
    decreases xs, xs.len() - i,
{
    if 0 <= i < xs.len() {
        inline_pieces(xs[i], theme, bold, italic, strike) + inlines_pieces(
            xs,
            i + 1,
            theme,
            bold,
            italic,
            strike,
        )
    } else {
        Seq::empty()
    }
}

fn push_piece(pieces: &mut Vec<InlinePiece>, piece: InlinePiece)
    ensures
        pieces_view(final(pieces)@) == pieces_view(old(pieces)@).push(piece@),
{
    pieces.push(piece);
    assert(pieces_view(pieces@) =~= pieces_view(old(pieces)@).push(piece@));
}

fn copy_run(r: &TextRun) -> (c: TextRun)
    ensures
        c@ == r@,
{
    TextRun {
        text: r.text.clone(),
        monospace: r.monospace,
        color: r.color,
        background: r.background,
        italics: r.italics,
        strikethrough: r.strikethrough,
    }
}

fn push_runs_as_pieces(pieces: &mut Vec<InlinePiece>, runs: &Vec<TextRun>)
    ensures
        pieces_view(final(pieces)@) == pieces_view(old(pieces)@) + runs_as_pieces(
            runs_view(runs@),
        ),
{
    let ghost p0 = pieces_view(pieces@);
    let ghost rv = runs_view(runs@);
    for k in 0..runs.len()
        invariant
            rv == runs_view(runs@),
            pieces_view(pieces@) == p0 + runs_as_pieces(rv.take(k as int)),
    {
        let ghost before = pieces_view(pieces@);
        push_piece(pieces, InlinePiece::Run(copy_run(&runs[k])));
        assert(runs_as_pieces(rv.take(k + 1)) =~= runs_as_pieces(rv.take(k as int)).push(
            PieceV::Run(rv[k as int]),
        ));
        assert(pieces_view(pieces@) =~= p0 + runs_as_pieces(rv.take(k + 1)));
    }
    assert(rv.take(rv.len() as int) =~= rv);
}

fn collect_inline_pieces(
    pieces: &mut Vec<InlinePiece>,
    inline: &InlineElement,
    theme: Theme,
    bold: bool,
    italic: bool,
    strike: bool,
)
    ensures
        pieces_view(final(pieces)@) == pieces_view(old(pieces)@) + inline_pieces(
            inline_view(*inline),
            theme,
            bold,
            italic,
            strike,
        ),
    decreases inline, 0int,
{
    let ghost p0 = pieces_view(pieces@);
    match inline {
        InlineElement::Bold(c) => collect_pieces(pieces, c, theme, true, italic, strike),
        InlineElement::Italic(c) => collect_pieces(pieces, c, theme, bold, true, strike),
        InlineElement::Strikethrough(c) => collect_pieces(pieces, c, theme, bold, italic, true),
        InlineElement::Link { content, url } => {
            let text = extract_text(content);
            push_piece(
                pieces,
                InlinePiece::Link {
                    text,
                    url: url.clone(),
                    color: theme.link_color(),
                    bold,
                    italic,
                },
            );
        },
        InlineElement::Image { alt, url } => {
            push_piece(pieces, InlinePiece::Image { alt: alt.clone(), url: url.clone() });
        },
        _ => {
            let mut style = InlineStyleState::with_emphasis(bold, italic, strike);
            let mut runs: Vec<TextRun> = Vec::new();
            append_inline_runs(&mut runs, inline, theme, &mut style);
            assert(runs_view(runs@) =~= runs_view(Seq::<TextRun>::empty()) + inline_runs(
                inline_view(*inline),
                theme,
                InlineStyleState::with_emphasis_spec(bold, italic, strike),
            ).0);
            push_runs_as_pieces(pieces, &runs);
        },
    }
    assert(pieces_view(pieces@) =~= p0 + inline_pieces(
        inline_view(*inline),
        theme,
        bold,
        italic,
        strike,
    ));
}

/// Append the pieces of a sequence of inline elements inside the given
/// emphasis (see [`inlines_pieces`]).
pub fn collect_pieces(
    pieces: &mut Vec<InlinePiece>,
    inlines: &Vec<InlineElement>,
    theme: Theme,
    bold: bool,
    italic: bool,
    strike: bool,
)
    ensures
        pieces_view(final(pieces)@) == pieces_view(old(pieces)@) + inlines_pieces(
            inlines_view(inlines@),
            0,
            theme,
            bold,
            italic,
            strike,
        ),
    decreases inlines, 1int,
{
    let ghost xs = inlines_view(inlines@);
    let ghost p0 = pieces_view(pieces@);
    let n: usize = inlines.len();
    let mut i: usize = 0;
    while i < n
        invariant
            n == inlines@.len(),
            xs == inlines_view(inlines@),
            i <= n,
            p0 + inlines_pieces(xs, 0, theme, bold, italic, strike) == pieces_view(pieces@)
                + inlines_pieces(xs, i as int, theme, bold, italic, strike),
        decreases n - i,
    {
        assert(xs[i as int] == inline_view(inlines@[i as int]));
        let ghost before = pieces_view(pieces@);
        collect_inline_pieces(pieces, &inlines[i], theme, bold, italic, strike);
        assert(before + inlines_pieces(xs, i as int, theme, bold, italic, strike) =~= pieces_view(
            pieces@,
        ) + inlines_pieces(xs, i + 1, theme, bold, italic, strike));
        i = i + 1;
    }
    assert(pieces_view(pieces@) + Seq::<PieceV>::empty() =~= pieces_view(pieces@));
}

/// How a paragraph of inline content is drawn: without links and images as
/// one block of runs, the style carried from element to element; with them
/// as pieces, each element in a fresh style (see [`inline_pieces`]).
pub open spec fn spec_inline_layout(xs: Seq<Inline>, theme: Theme, bold: bool) -> Seq<PieceV> {
    if !inlines_interactive(xs, 0) {
        runs_as_pieces(
            inlines_runs(
                xs,
                0,
                theme,
                InlineStyleState {
                    bold,
                    italic: false,
                    strikethrough: false,
                    html_code: false,
                    color_override: None,
                },
            ).0,
        )
    } else {
        inlines_pieces(xs, 0, theme, bold, false, false)
    }
}

/// The pieces a paragraph (or heading, or table cell) of inline content is
/// drawn as; `bold` is set for headings and table headers.
pub fn inline_layout(inlines: &Vec<InlineElement>, theme: Theme, bold: bool) -> (pieces: Vec<
    InlinePiece,
>)
    ensures
        pieces_view(pieces@) == spec_inline_layout(inlines_view(inlines@), theme, bold),
{
    let mut pieces: Vec<InlinePiece> = Vec::new();
    if !has_interactive(inlines) {
        let mut style = InlineStyleState::with_emphasis(bold, false, false);
        let mut runs: Vec<TextRun> = Vec::new();
        append_inlines_runs(&mut runs, inlines, theme, &mut style);
        push_runs_as_pieces(&mut pieces, &runs);
    } else {
        collect_pieces(&mut pieces, inlines, theme, bold, false, false);
    }
    assert(pieces_view(pieces@) =~= spec_inline_layout(inlines_view(inlines@), theme, bold));
    pieces
}

/// What the viewer is asked to do after a click.
#[derive(Debug, Clone, PartialEq)]
pub enum RenderAction {
    NavigateMarkdown(String),
    NavigateTextFile(String),
    OpenExternal(String),
    ScrollToAnchor(String),
}

impl View for RenderAction {
    type V = LinkTarget;

    open spec fn view(&self) -> LinkTarget {
        match self {
            RenderAction::NavigateMarkdown(p) => LinkTarget::NavigateMarkdown(p@),
            RenderAction::NavigateTextFile(p) => LinkTarget::NavigateTextFile(p@),
            RenderAction::OpenExternal(u) => LinkTarget::OpenExternal(u@),
            RenderAction::ScrollToAnchor(a) => LinkTarget::ScrollToAnchor(a@),
        }
    }
}

/// The action requested by a click on a link to `url` in a document whose
/// directory is `base_dir`.
pub fn link_click_action(url: &str, base_dir: &str) -> (a: RenderAction)
    ensures
        a@ == spec_classify_link(url@, base_dir@),
{
    match classify_link(url, base_dir) {
        LinkAction::NavigateMarkdown(path) => RenderAction::NavigateMarkdown(path),
        LinkAction::NavigateTextFile(path) => RenderAction::NavigateTextFile(path),
        LinkAction::ScrollToAnchor(anchor) => RenderAction::ScrollToAnchor(anchor),
        LinkAction::OpenExternal(u) => RenderAction::OpenExternal(u),
    }
}

/// Whether a piece is drawn as a widget of its own (a link or an image).
pub open spec fn is_widget(p: PieceV) -> bool {
    p is Link || p is Image
}

pub open spec fn has_widget(ps: Seq<PieceV>) -> bool {
    exists|k: int| 0 <= k < ps.len() && is_widget(#[trigger] ps[k])
}

proof fn lemma_has_widget_concat(a: Seq<PieceV>, b: Seq<PieceV>)
    ensures
        has_widget(a + b) == (has_widget(a) || has_widget(b)),
{
    if has_widget(a + b) {
        let k = choose|k: int| 0 <= k < (a + b).len() && is_widget(#[trigger] (a + b)[k]);
        if k < a.len() {
            assert(a[k] == (a + b)[k]);
        } else {
            assert(b[k - a.len()] == (a + b)[k]);
        }
    }
    if has_widget(a) {
        let k = choose|k: int| 0 <= k < a.len() && is_widget(#[trigger] a[k]);
        assert((a + b)[k] == a[k]);
    }
    if has_widget(b) {
        let k = choose|k: int| 0 <= k < b.len() && is_widget(#[trigger] b[k]);
        assert((a + b)[a.len() + k] == b[k]);
    }
}

proof fn lemma_widgets_of_inline(x: Inline, theme: Theme, bold: bool, italic: bool, strike: bool)
    ensures
        has_widget(inline_pieces(x, theme, bold, italic, strike)) == inline_interactive(x),
    decreases x, 0int,
{
    match x {
        Inline::Bold(c) => lemma_widgets_of_inlines(c, 0, theme, true, italic, strike),
        Inline::Italic(c) => lemma_widgets_of_inlines(c, 0, theme, bold, true, strike),
        Inline::Strikethrough(c) => lemma_widgets_of_inlines(c, 0, theme, bold, italic, true),
        Inline::Link { .. } => {
            assert(is_widget(inline_pieces(x, theme, bold, italic, strike)[0]));
        },
        Inline::Image { .. } => {
            assert(is_widget(inline_pieces(x, theme, bold, italic, strike)[0]));
        },
        _ => {},
    }
}

proof fn lemma_widgets_of_inlines(
    xs: Seq<Inline>,
    i: int,
    theme: Theme,
    bold: bool,
    italic: bool,
    strike: bool,
)
    ensures
        has_widget(inlines_pieces(xs, i, theme, bold, italic, strike)) == inlines_interactive(
            xs,
            i,
        ),
    decreases xs, xs.len() - i,
{
    if 0 <= i < xs.len() {
        lemma_widgets_of_inline(xs[i], theme, bold, italic, strike);
        lemma_widgets_of_inlines(xs, i + 1, theme, bold, italic, strike);
        lemma_has_widget_concat(
            inline_pieces(xs[i], theme, bold, italic, strike),
            inlines_pieces(xs, i + 1, theme, bold, italic, strike),
        );
    }
}

/// A paragraph is laid out with a link or image widget exactly when
/// [`has_interactive`] holds of its content.
pub proof fn lemma_widgets_iff_interactive(xs: Seq<Inline>, theme: Theme, bold: bool)
    ensures
        has_widget(spec_inline_layout(xs, theme, bold)) == inlines_interactive(xs, 0),
{
    lemma_widgets_of_inlines(xs, 0, theme, bold, false, false);
}

/// The text of a sequence of runs, one after the other.
pub open spec fn runs_text(rs: Seq<RunV>) -> Seq<char>
    decreases rs.len(),
{
    if rs.len() == 0 {
        Seq::empty()
    } else {
        runs_text(rs.drop_last()) + rs.last().text
    }
}

proof fn lemma_runs_text_concat(a: Seq<RunV>, b: Seq<RunV>)
    ensures
        runs_text(a + b) == runs_text(a) + runs_text(b),
    decreases b.len(),
{
    if b.len() == 0 {
        assert(a + b =~= a);
    } else {
        lemma_runs_text_concat(a, b.drop_last());
        assert((a + b).drop_last() =~= a + b.drop_last());
        assert(runs_text(a) + (runs_text(b.drop_last()) + b.last().text) =~= (runs_text(a)
            + runs_text(b.drop_last())) + b.last().text);
    }
}

/// Whether an inline element is plain: no link, image or HTML at any depth.
pub open spec fn inline_plain(x: Inline) -> bool
    decreases x, 0int,
{
    match x {
        Inline::Link { .. } => false,
        Inline::Image { .. } => false,
        Inline::Html(_) => false,
        Inline::Bold(c) => inlines_plain(c, 0),
        Inline::Italic(c) => inlines_plain(c, 0),
        Inline::Strikethrough(c) => inlines_plain(c, 0),
        _ => true,
    }
}

pub open spec fn inlines_plain(xs: Seq<Inline>, i: int) -> bool
    decreases xs, xs.len() - i,
{
    if 0 <= i < xs.len() {
        inline_plain(xs[i]) && inlines_plain(xs, i + 1)
    } else {
        true
    }
}

proof fn lemma_plain_inline_runs(x: Inline, theme: Theme, st: InlineStyleState)
    requires
        inline_plain(x),
    ensures
        runs_text(inline_runs(x, theme, st).0) == inline_text(x),
        inline_runs(x, theme, st).1 == st,
        !inline_interactive(x),
    decreases x, 0int,
{
    match x {
        Inline::Bold(c) => lemma_plain_inlines_runs(c, 0, theme, InlineStyleState { bold: true, ..st }),
        Inline::Italic(c) => lemma_plain_inlines_runs(
            c,
            0,
            theme,
            InlineStyleState { italic: true, ..st },
        ),
        Inline::Strikethrough(c) => lemma_plain_inlines_runs(
            c,
            0,
            theme,
            InlineStyleState { strikethrough: true, ..st },
        ),
        _ => {
            let r = inline_runs(x, theme, st).0;
            assert(r.len() == 1);
            assert(r.drop_last() =~= Seq::<RunV>::empty());
            assert(runs_text(r.drop_last()) == Seq::<char>::empty());
            assert(runs_text(r) =~= Seq::<char>::empty() + r.last().text);
        },
    }
}

proof fn lemma_plain_inlines_runs(xs: Seq<Inline>, i: int, theme: Theme, st: InlineStyleState)
    requires
        inlines_plain(xs, i),
    ensures
        runs_text(inlines_runs(xs, i, theme, st).0) == inlines_text(xs, i),
        inlines_runs(xs, i, theme, st).1 == st,
        !inlines_interactive(xs, i),
    decreases xs, xs.len() - i,
{
    if 0 <= i < xs.len() {
        lemma_plain_inline_runs(xs[i], theme, st);
        lemma_plain_inlines_runs(xs, i + 1, theme, st);
        lemma_runs_text_concat(inline_runs(xs[i], theme, st).0, inlines_runs(xs, i + 1, theme, st).0);
    }
}

/// Content without links, images and HTML is laid out as runs only, and
/// their text, read one after the other, is its plain text
/// ([`extract_text`]).
pub proof fn lemma_plain_layout_reads_as_text(xs: Seq<Inline>, theme: Theme, bold: bool)
    requires
        inlines_plain(xs, 0),
    ensures
        !inlines_interactive(xs, 0),
        spec_inline_layout(xs, theme, bold) == runs_as_pieces(
            inlines_runs(xs, 0, theme, InlineStyleState::with_emphasis_spec(bold, false, false)).0,
        ),
        runs_text(
            inlines_runs(xs, 0, theme, InlineStyleState::with_emphasis_spec(bold, false, false)).0,
        ) == spec_extract_text(xs),
{
    lemma_plain_inlines_runs(xs, 0, theme, InlineStyleState::with_emphasis_spec(bold, false, false));
}

/// Whether inline content is laid out as text alone: no inline HTML (which
/// may change the style) and no line break or space run at any depth.
pub open spec fn inline_solid(x: Inline) -> bool
    decreases x, 0int,
{
    match x {
        Inline::Html(_) => false,
        Inline::SoftBreak => false,
        Inline::HardBreak => false,
        Inline::Bold(c) => inlines_solid(c, 0),
        Inline::Italic(c) => inlines_solid(c, 0),
        Inline::Strikethrough(c) => inlines_solid(c, 0),
        _ => true,
    }
}

pub open spec fn inlines_solid(xs: Seq<Inline>, i: int) -> bool
    decreases xs, xs.len() - i,
{
    if 0 <= i < xs.len() {
        inline_solid(xs[i]) && inlines_solid(xs, i + 1)
    } else {
        true
    }
}

proof fn lemma_struck_inline(x: Inline, theme: Theme, st: InlineStyleState)
    requires
        inline_solid(x),
        st.strikethrough,
    ensures
        inline_runs(x, theme, st).1 == st,
        forall|k: int|
            0 <= k < inline_runs(x, theme, st).0.len() ==> (#[trigger] inline_runs(
                x,
                theme,
                st,
            ).0[k]).strikethrough,
    decreases x, 0int,
{
    match x {
        Inline::Bold(c) => lemma_struck_inlines(c, 0, theme, InlineStyleState { bold: true, ..st }),
        Inline::Italic(c) => lemma_struck_inlines(c, 0, theme, InlineStyleState { italic: true, ..st }),
        Inline::Strikethrough(c) => lemma_struck_inlines(c, 0, theme, st),
        _ => {},
    }
}

proof fn lemma_struck_inlines(xs: Seq<Inline>, i: int, theme: Theme, st: InlineStyleState)
    requires
        inlines_solid(xs, i),
        st.strikethrough,
    ensures
        inlines_runs(xs, i, theme, st).1 == st,
        forall|k: int|
            0 <= k < inlines_runs(xs, i, theme, st).0.len() ==> (#[trigger] inlines_runs(
                xs,
                i,
                theme,
                st,
            ).0[k]).strikethrough,
    decreases xs, xs.len() - i,
{
    if 0 <= i < xs.len() {
        lemma_struck_inline(xs[i], theme, st);
        lemma_struck_inlines(xs, i + 1, theme, st);
        let a = inline_runs(xs[i], theme, st).0;
        let b = inlines_runs(xs, i + 1, theme, st).0;
        assert forall|k: int| 0 <= k < (a + b).len() implies (#[trigger] (a + b)[k]).strikethrough by {
            if k < a.len() {
                assert((a + b)[k] == a[k]);
            } else {
                assert((a + b)[k] == b[k - a.len()]);
            }
        }
    }
}

/// Struck-through content is drawn struck through: every run laid out from
/// the content of `~~...~~` (text and code, under any emphasis) has the
/// strike line, whatever the style around it, and the style after it is the
/// style before it.
pub proof fn lemma_strikethrough_strikes(c: Seq<Inline>, theme: Theme, st: InlineStyleState)
    requires
        inlines_solid(c, 0),
    ensures
        inline_runs(Inline::Strikethrough(c), theme, st).1 == st,
        forall|k: int|
            0 <= k < inline_runs(Inline::Strikethrough(c), theme, st).0.len() ==> (
            #[trigger] inline_runs(Inline::Strikethrough(c), theme, st).0[k]).strikethrough,
{
    lemma_struck_inlines(c, 0, theme, InlineStyleState { strikethrough: true, ..st });
}

proof fn lemma_struck_piece(x: Inline, theme: Theme, bold: bool, italic: bool)
    requires
        inline_solid(x),
    ensures
        forall|k: int|
            0 <= k < inline_pieces(x, theme, bold, italic, true).len() ==> (#[trigger] inline_pieces(
                x,
                theme,
                bold,
                italic,
                true,
            )[k] matches PieceV::Run(r) ==> r.strikethrough),
    decreases x, 0int,
{
    match x {
        Inline::Bold(c) => lemma_struck_pieces(c, 0, theme, true, italic),
        Inline::Italic(c) => lemma_struck_pieces(c, 0, theme, bold, true),
        Inline::Strikethrough(c) => lemma_struck_pieces(c, 0, theme, bold, italic),
        Inline::Link { .. } => {},
        Inline::Image { .. } => {},
        _ => {
            let st = InlineStyleState {
                bold,
                italic,
                strikethrough: true,
                html_code: false,
                color_override: None,
            };
            lemma_struck_inline(x, theme, st);
            let r = inline_runs(x, theme, st).0;
            assert forall|k: int| 0 <= k < runs_as_pieces(r).len() implies (
            #[trigger] runs_as_pieces(r)[k] matches PieceV::Run(q) ==> q.strikethrough) by {
                assert(runs_as_pieces(r)[k] == PieceV::Run(r[k]));
            }
        },
    }
}

proof fn lemma_struck_pieces(xs: Seq<Inline>, i: int, theme: Theme, bold: bool, italic: bool)
    requires
        inlines_solid(xs, i),
    ensures
        forall|k: int|
            0 <= k < inlines_pieces(xs, i, theme, bold, italic, true).len() ==> (
            #[trigger] inlines_pieces(xs, i, theme, bold, italic, true)[k] matches PieceV::Run(r)
                ==> r.strikethrough),
    decreases xs, xs.len() - i,
{
    if 0 <= i < xs.len() {
        lemma_struck_piece(xs[i], theme, bold, italic);
        lemma_struck_pieces(xs, i + 1, theme, bold, italic);
        let a = inline_pieces(xs[i], theme, bold, italic, true);
        let b = inlines_pieces(xs, i + 1, theme, bold, italic, true);
        assert forall|k: int| 0 <= k < (a + b).len() implies (#[trigger] (a + b)[k] matches PieceV::Run(
            r,
        ) ==> r.strikethrough) by {
            if k < a.len() {
                assert((a + b)[k] == a[k]);
            } else {
                assert((a + b)[k] == b[k - a.len()]);
            }
        }
    }
}

/// Struck-through content stays struck through in a paragraph with links or
/// images: every text run laid out from the content of `~~...~~` (text and
/// code, under any emphasis) has the strike line.
pub proof fn lemma_strikethrough_strikes_pieces(
    c: Seq<Inline>,
    theme: Theme,
    bold: bool,
    italic: bool,
    strike: bool,
)
    requires
        inlines_solid(c, 0),
    ensures
        forall|k: int|
            0 <= k < inline_pieces(Inline::Strikethrough(c), theme, bold, italic, strike).len() ==> (
            #[trigger] inline_pieces(Inline::Strikethrough(c), theme, bold, italic, strike)[k] matches PieceV::Run(
                r,
            ) ==> r.strikethrough),
{
    lemma_struck_pieces(c, 0, theme, bold, italic);
}

/// The decimal digits of `n`.
pub open spec fn decimal(n: nat) -> Seq<char>
    decreases n,
{
    if n < 10 {
        seq![((n + 48) as u8) as char]
    } else {
        decimal(n / 10).push((((n % 10) + 48) as u8) as char)
    }
}

fn push_decimal(s: &mut String, n: u64)
    ensures
        final(s)@ == old(s)@ + decimal(n as nat),
    decreases n,
{
    if n >= 10 {
        push_decimal(s, n / 10);
    }
    let d: u8 = (n % 10) as u8;
    push_char(s, (d + 48) as char);
    assert(old(s)@ + decimal(n as nat) =~= s@);
}

/// The marker in front of a list item: a ballot box for a task item (checked
/// or not), the number `start + index` and a dot in an ordered list (its
/// start defaulting to 1), a bullet otherwise.
pub open spec fn spec_list_marker(checked: Option<bool>, ordered: bool, start: Option<u64>, index: int) -> Seq<char> {
    match checked {
        Some(true) => seq!['\u{2611}'],
        Some(false) => seq!['\u{2610}'],
        None => if ordered {
            decimal(
                (match start {
                    Some(n) => n as int,
                    None => 1,
                } + index) as nat,
            ).push('.')
        } else {
            seq!['\u{2022}']
        },
    }
}

/// The marker of the item at `index` of a list.
pub fn list_marker(checked: Option<bool>, ordered: bool, start: Option<u64>, index: u64) -> (m: String)
    requires
        checked is None && ordered ==> match start {
            Some(n) => n as int,
            None => 1,
        } + index <= u64::MAX,
    ensures
        m@ == spec_list_marker(checked, ordered, start, index as int),
{
    let mut m = String::new();
    match checked {
        Some(true) => push_char(&mut m, '\u{2611}'),
        Some(false) => push_char(&mut m, '\u{2610}'),
        None => {
            if ordered {
                let first: u64 = match start {
                    Some(n) => n,
                    None => 1,
                };
                push_decimal(&mut m, first + index);
                push_char(&mut m, '.');
            } else {
                push_char(&mut m, '\u{2022}');
            }
        },
    }
    m
}

/// How an HTML block is shown.
#[derive(Debug, PartialEq)]
pub enum HtmlBlockView {
    /// Nothing (a comment, or no text).
    Nothing,
    /// Vertical space (a line break tag).
    Space,
    /// A horizontal rule (an `<hr>` tag).
    Rule,
    /// A label with this text.
    Text(String),
}

/// The mathematical value of an [`HtmlBlockView`].
pub enum HtmlBlockShown {
    Nothing,
    Space,
    Rule,
    Text(Seq<char>),
}

impl View for HtmlBlockView {
    type V = HtmlBlockShown;

    open spec fn view(&self) -> HtmlBlockShown {
        match self {
            HtmlBlockView::Nothing => HtmlBlockShown::Nothing,
            HtmlBlockView::Space => HtmlBlockShown::Space,
            HtmlBlockView::Rule => HtmlBlockShown::Rule,
            HtmlBlockView::Text(t) => HtmlBlockShown::Text(t@),
        }
    }
}

/// What an HTML block shows: nothing for a comment, space for a line
/// break, a rule for `<hr>`, else its displayed text if that is not blank.
pub open spec fn spec_html_block_view(html: Seq<char>) -> HtmlBlockShown {
    let t = trim_ws(html);
    if spec_is_html_comment(t) {
        HtmlBlockShown::Nothing
    } else if spec_is_line_break_tag(t) {
        HtmlBlockShown::Space
    } else if spec_is_horizontal_rule_tag(t) {
        HtmlBlockShown::Rule
    } else {
        let d = trim_ws(spec_html_to_display_text(t));
        if d.len() == 0 {
            HtmlBlockShown::Nothing
        } else {
            HtmlBlockShown::Text(d)
        }
    }
}

/// How the HTML block `html` is shown.
pub fn html_block_view(html: &str) -> (v: HtmlBlockView)
    ensures
        v@ == spec_html_block_view(html@),
{
    let trimmed = string_of(&trim(&chars_of(html)));
    if is_html_comment(trimmed.as_str()) {
        HtmlBlockView::Nothing
    } else if is_line_break_tag(trimmed.as_str()) {
        HtmlBlockView::Space
    } else if is_horizontal_rule_tag(trimmed.as_str()) {
        HtmlBlockView::Rule
    } else {
        let text = html_to_display_text(trimmed.as_str());
        let shown = trim(&chars_of(text.as_str()));
        if shown.len() == 0 {
            HtmlBlockView::Nothing
        } else {
            HtmlBlockView::Text(string_of(&shown))
        }
    }
}

/// The background of body row `row` of a table: the theme's stripe colour
/// on even rows (counting from 0), transparent on odd ones.
pub fn table_row_fill(theme: Theme, row: usize) -> (c: Color)
    ensures
        row % 2 == 0 ==> c == theme.spec_table_stripe_bg(),
        row % 2 == 1 ==> c == transparent(),
{
    if row % 2 == 0 {
        theme.table_stripe_bg()
    } else {
        Color::transparent()
    }
}

/// The entry of a heading in the contents menu: two spaces of indent per
/// level below the first, then the heading's text.
pub open spec fn spec_toc_menu_label(level: u8, text: Seq<char>) -> Seq<char> {
    Seq::new(
        (if level >= 1 {
            2 * (level - 1)
        } else {
            0
        }) as nat,
        |i: int| ' ',
    ) + text
}

pub fn toc_menu_label(level: u8, text: &str) -> (label: String)
    ensures
        label@ == spec_toc_menu_label(level, text@),
{
    let mut label = String::new();
    let depth: u8 = if level >= 1 {
        level - 1
    } else {
        0
    };
    let mut k: u8 = 0;
    while k < depth
        invariant
            k <= depth,
            label@ == Seq::new((2 * k) as nat, |i: int| ' '),
        decreases depth - k,
    {
        push_char(&mut label, ' ');
        push_char(&mut label, ' ');
        assert(label@ =~= Seq::new((2 * (k + 1)) as nat, |i: int| ' '));
        k = k + 1;
    }
    let t = chars_of(text);
    let ghost indent = label@;
    for i in 0..t.len()
        invariant
            label@ == indent + t@.take(i as int),
    {
        push_char(&mut label, t[i]);
        assert(t@.take(i + 1) =~= t@.take(i as int).push(t@[i as int]));
    }
    assert(t@.take(t@.len() as int) =~= t@);
    label
}

/// The table of contents of a parsed document lists only levels from 1 to
/// 6 (every heading of a parsed document has such a level, see
/// [`crate::parser::parse_markdown`]), and each entry's anchor is the anchor
/// of its text.
pub proof fn lemma_toc_entries(bs: Seq<Block>)
    requires
        blocks_levels_ok(bs),
    ensures
        forall|i: int|
            0 <= i < spec_toc(bs).len() ==> 1 <= (#[trigger] spec_toc(bs)[i]).0 <= 6
                && spec_toc(bs)[i].2 == spec_heading_to_anchor(spec_toc(bs)[i].1),
    decreases bs.len(),
{
    if bs.len() > 0 {
        let init = bs.drop_last();
        assert forall|i: int| 0 <= i < init.len() implies block_levels_ok(#[trigger] init[i]) by {
            assert(init[i] == bs[i]);
        }
        lemma_toc_entries(init);
        assert(block_levels_ok(bs[bs.len() - 1]));
        let r = spec_toc(init);
        match toc_entry(bs.last()) {
            Some(e) => {
                assert forall|i: int| 0 <= i < r.push(e).len() implies 1 <= (#[trigger] r.push(
                    e,
                )[i]).0 <= 6 && r.push(e)[i].2 == spec_heading_to_anchor(r.push(e)[i].1) by {
                    if i < r.len() {
                        assert(r.push(e)[i] == r[i]);
                    }
                }
            },
            None => {},
        }
    }
}

/// Record a click on a link: when the link to `url` (in a document whose
/// directory is `base_dir`) was clicked, its action is appended to the
/// actions asked for; otherwise they stay as they are.
pub fn push_link_click(actions: &mut Vec<RenderAction>, clicked: bool, url: &str, base_dir: &str)
    ensures
        clicked ==> final(actions)@.len() == old(actions)@.len() + 1 && final(actions)@.take(
            old(actions)@.len() as int,
        ) == old(actions)@ && final(actions)@.last()@ == spec_classify_link(url@, base_dir@),
        !clicked ==> final(actions)@ == old(actions)@,
{
    if clicked {
        let action = link_click_action(url, base_dir);
        actions.push(action);
        assert(actions@.take(old(actions)@.len() as int) =~= old(actions)@);
    }
}

} // verus!
