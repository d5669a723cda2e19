//! Inline HTML styling: the tags `<b>`, `<i>`, `<s>`, `<code>` and `<span
//! style="color: ...">` switch the style of the text that follows them.

use vstd::prelude::*;
use crate::text::{
    ascii_lowercase, chars_of, eq_chars, find_chars, find_seq, is_prefix, starts_with,
    subrange_chars, to_ascii_lowercase, trim, trim_char, trim_matches, trim_start, trim_start_ws,
    trim_ws,
};
use crate::theme::{gray, rgb, Color};

verus! {

broadcast use vstd::string::group_string_axioms;

/// The style in force while inline text is laid out.
#[derive(Debug, Clone, Copy, PartialEq, Eq, Structural)]
pub struct InlineStyleState {
    pub bold: bool,
    pub italic: bool,
    pub strikethrough: bool,
    pub html_code: bool,
    pub color_override: Option<Color>,
}

impl InlineStyleState {
    pub open spec fn with_emphasis_spec(bold: bool, italic: bool, strikethrough: bool) -> InlineStyleState {
        InlineStyleState { bold, italic, strikethrough, html_code: false, color_override: None }
    }

    /// The style with the given emphasis, no inline code and no colour.
    pub fn with_emphasis(bold: bool, italic: bool, strikethrough: bool) -> (s: InlineStyleState)
        ensures
            s == (InlineStyleState {
                bold,
                italic,
                strikethrough,
                html_code: false,
                color_override: None,
            }),
    {
        InlineStyleState { bold, italic, strikethrough, html_code: false, color_override: None }
    }
}

impl Default for InlineStyleState {
    fn default() -> (s: InlineStyleState)
        ensures
            s == (InlineStyleState {
                bold: false,
                italic: false,
                strikethrough: false,
                html_code: false,
                color_override: None,
            }),
    {
        InlineStyleState::with_emphasis(false, false, false)
    }
}

/// The colour a lowercase colour name stands for.
pub open spec fn named_color(n: Seq<char>) -> Option<Color> {
    if n == seq!['r', 'e', 'd'] {
        Some(rgb(220, 60, 60))
    } else if n == seq!['g', 'r', 'e', 'e', 'n'] {
        Some(rgb(46, 160, 67))
    } else if n == seq!['b', 'l', 'u', 'e'] {
        Some(rgb(66, 133, 244))
    } else if n == seq!['o', 'r', 'a', 'n', 'g', 'e'] {
        Some(rgb(230, 126, 34))
    } else if n == seq!['y', 'e', 'l', 'l', 'o', 'w'] {
        Some(rgb(241, 196, 15))
    } else if n == seq!['g', 'r', 'a', 'y'] || n == seq!['g', 'r', 'e', 'y'] {
        Some(gray(140))
    } else {
        None
    }
}

pub open spec fn spec_parse_named_color(name: Seq<char>) -> Option<Color> {
    named_color(ascii_lowercase(trim_ws(name)))
}

fn is_word(s: &Vec<char>, w: Vec<char>) -> (b: bool)
    ensures
        b == (s@ == w@),
{
    eq_chars(s, &w)
}

/// The colour named by `name` (one of red, green, blue, orange, yellow, gray
/// and grey, in any case, surrounding whitespace ignored).
pub fn parse_named_color(name: &str) -> (c: Option<Color>)
    ensures
        c == spec_parse_named_color(name@),
{
    let s = chars_of(name);
    let t = trim(&s);
    let n = to_ascii_lowercase(&t);
    if is_word(&n, vec!['r', 'e', 'd']) {
        Some(Color::from_rgb(220, 60, 60))
    } else if is_word(&n, vec!['g', 'r', 'e', 'e', 'n']) {
        Some(Color::from_rgb(46, 160, 67))
    } else if is_word(&n, vec!['b', 'l', 'u', 'e']) {
        Some(Color::from_rgb(66, 133, 244))
    } else if is_word(&n, vec!['o', 'r', 'a', 'n', 'g', 'e']) {
        Some(Color::from_rgb(230, 126, 34))
    } else if is_word(&n, vec!['y', 'e', 'l', 'l', 'o', 'w']) {
        Some(Color::from_rgb(241, 196, 15))
    } else if is_word(&n, vec!['g', 'r', 'a', 'y']) || is_word(&n, vec!['g', 'r', 'e', 'y']) {
        Some(Color::from_gray(140))
    } else {
        None
    }
}

/// Whether `c` ends a CSS value: `;`, a quote or `>`.
pub open spec fn is_value_stop(c: char) -> bool {
    c == ';' || c == '"' || c == '\'' || c == '>'
}

/// The number of characters of `s` before its first value stop.
pub open spec fn value_len(s: Seq<char>) -> nat
    decreases s.len(),
{
    if s.len() == 0 || is_value_stop(s[0]) {
        0
    } else {
        1 + value_len(s.drop_first())
    }
}

/// The colour that a `style` attribute of the tag `t` sets: after the first
/// `style=` (in any case) the first `color`, after it the first `:`, then the
/// value, without leading whitespace and surrounding quotes, up to the first
/// `;`, quote or `>`, read as a colour name.
pub open spec fn spec_parse_html_color(t: Seq<char>) -> Option<Color> {
    match find_seq(ascii_lowercase(t), seq!['s', 't', 'y', 'l', 'e', '=']) {
        None => None,
        Some(sp) => {
            let style = t.skip(sp);
            match find_seq(ascii_lowercase(style), seq!['c', 'o', 'l', 'o', 'r']) {
                None => None,
                Some(cp) => {
                    let cs = style.skip(cp);
                    match find_seq(cs, seq![':']) {
                        None => None,
                        Some(k) => {
                            let value = trim_char(
                                trim_char(trim_start_ws(cs.skip(k + 1)), '"'),
                                '\'',
                            );
                            spec_parse_named_color(value.take(value_len(value) as int))
                        },
                    }
                },
            }
        },
    }
}

proof fn lemma_find_seq_bound(s: Seq<char>, pat: Seq<char>)
    ensures
        find_seq(s, pat) matches Some(i) ==> 0 <= i && i + pat.len() <= s.len(),
    decreases s.len(),
{
    if !is_prefix(pat, s) && s.len() > 0 {
        lemma_find_seq_bound(s.drop_first(), pat);
    }
}

/// The colour set by the `style` attribute of an HTML tag, if it names one
/// of the known colours.
pub fn parse_html_color(tag: &str) -> (c: Option<Color>)
    ensures
        c == spec_parse_html_color(tag@),
{
    let t = chars_of(tag);
    let lower = to_ascii_lowercase(&t);
    let style_word = vec!['s', 't', 'y', 'l', 'e', '='];
    assert(style_word@ =~= seq!['s', 't', 'y', 'l', 'e', '=']);
    let sp = match find_chars(&lower, &style_word) {
        None => {
            return None;
        },
        Some(i) => i,
    };
    let style = subrange_chars(&t, sp, t.len());
    assert(style@ =~= t@.skip(sp as int));
    let style_lower = to_ascii_lowercase(&style);
    let color_word = vec!['c', 'o', 'l', 'o', 'r'];
    assert(color_word@ =~= seq!['c', 'o', 'l', 'o', 'r']);
    let cp = match find_chars(&style_lower, &color_word) {
        None => {
            return None;
        },
        Some(i) => i,
    };
    let cs = subrange_chars(&style, cp, style.len());
    assert(cs@ =~= style@.skip(cp as int));
    let colon = vec![':'];
    assert(colon@ =~= seq![':']);
    let k = match find_chars(&cs, &colon) {
        None => {
            return None;
        },
        Some(i) => i,
    };
    proof {
        lemma_find_seq_bound(cs@, colon@);
    }
    let after = subrange_chars(&cs, k + 1, cs.len());
    assert(after@ =~= cs@.skip(k + 1));
    let v0 = trim_start(&after);
    let v1 = trim_matches(&v0, '"');
    let value = trim_matches(&v1, '\'');
    let n: usize = value.len();
    let mut end: usize = 0;
    assert(value@.skip(0) =~= value@);
    while end < n && !(value[end] == ';' || value[end] == '"' || value[end] == '\''
        || value[end] == '>')
        invariant
            n == value@.len(),
            end <= n,
            value_len(value@) == end + value_len(value@.skip(end as int)),
        decreases n - end,
    {
        assert(value@.skip(end as int).drop_first() =~= value@.skip(end + 1));
        end = end + 1;
    }
    let name = subrange_chars(&value, 0, end);
    assert(name@ =~= value@.take(value_len(value@) as int));
    let name_str = crate::text::string_of(&name);
    parse_named_color(name_str.as_str())
}

/// The style that an inline HTML tag leaves in force after `st`, or `None`
/// when the tag (trimmed, in any case) is not one that changes the style:
/// `<b>`/`<strong>`, `<i>`/`<em>`, `<s>`/`<strike>`/`<del>` and `<code>`
/// switch their property on, the closing tags switch it off, `</span>` drops
/// the colour and a tag beginning with `<span` sets the colour of its `style`
/// attribute (none if it names no known colour).
pub open spec fn html_style_change(tag: Seq<char>, st: InlineStyleState) -> Option<
    InlineStyleState,
> {
    let l = ascii_lowercase(trim_ws(tag));
    if l == seq!['<', 'b', '>'] || l == seq!['<', 's', 't', 'r', 'o', 'n', 'g', '>'] {
        Some(InlineStyleState { bold: true, ..st })
    } else if l == seq!['<', '/', 'b', '>'] || l == seq![
        '<',
        '/',
        's',
        't',
        'r',
        'o',
        'n',
        'g',
        '>',
    ] {
        Some(InlineStyleState { bold: false, ..st })
    } else if l == seq!['<', 'i', '>'] || l == seq!['<', 'e', 'm', '>'] {
        Some(InlineStyleState { italic: true, ..st })
    } else if l == seq!['<', '/', 'i', '>'] || l == seq!['<', '/', 'e', 'm', '>'] {
        Some(InlineStyleState { italic: false, ..st })
    } else if l == seq!['<', 's', '>'] || l == seq!['<', 's', 't', 'r', 'i', 'k', 'e', '>'] || l
        == seq!['<', 'd', 'e', 'l', '>'] {
        Some(InlineStyleState { strikethrough: true, ..st })
    } else if l == seq!['<', '/', 's', '>'] || l == seq![
        '<',
        '/',
        's',
        't',
        'r',
        'i',
        'k',
        'e',
        '>',
    ] || l == seq!['<', '/', 'd', 'e', 'l', '>'] {
        Some(InlineStyleState { strikethrough: false, ..st })
    } else if l == seq!['<', 'c', 'o', 'd', 'e', '>'] {
        Some(InlineStyleState { html_code: true, ..st })
    } else if l == seq!['<', '/', 'c', 'o', 'd', 'e', '>'] {
        Some(InlineStyleState { html_code: false, ..st })
    } else if l == seq!['<', '/', 's', 'p', 'a', 'n', '>'] {
        Some(InlineStyleState { color_override: None, ..st })
    } else if is_prefix(seq!['<', 's', 'p', 'a', 'n'], l) {
        Some(InlineStyleState { color_override: spec_parse_html_color(tag), ..st })
    } else {
        None
    }
}

/// Apply an inline HTML tag to the style; returns whether the tag was one
/// that changes the style (the style is left alone otherwise).
pub fn apply_inline_html_style(tag: &str, style: &mut InlineStyleState) -> (changed: bool)
    ensures
        changed == html_style_change(tag@, *old(style)) is Some,
        changed ==> *final(style) == html_style_change(tag@, *old(style))->0,
        !changed ==> *final(style) == *old(style),
{
    let s = chars_of(tag);
    let t = trim(&s);
    let l = to_ascii_lowercase(&t);
    if is_word(&l, vec!['<', 'b', '>']) || is_word(&l, vec!['<', 's', 't', 'r', 'o', 'n', 'g', '>'])
    {
        style.bold = true;
        true
    } else if is_word(&l, vec!['<', '/', 'b', '>']) || is_word(
        &l,
        vec!['<', '/', 's', 't', 'r', 'o', 'n', 'g', '>'],
    ) {
        style.bold = false;
        true
    } else if is_word(&l, vec!['<', 'i', '>']) || is_word(&l, vec!['<', 'e', 'm', '>']) {
        style.italic = true;
        true
    } else if is_word(&l, vec!['<', '/', 'i', '>']) || is_word(&l, vec!['<', '/', 'e', 'm', '>']) {
        style.italic = false;
        true
    } else if is_word(&l, vec!['<', 's', '>']) || is_word(
        &l,
        vec!['<', 's', 't', 'r', 'i', 'k', 'e', '>'],
    ) || is_word(&l, vec!['<', 'd', 'e', 'l', '>']) {
        style.strikethrough = true;
        true
    } else if is_word(&l, vec!['<', '/', 's', '>']) || is_word(
        &l,
        vec!['<', '/', 's', 't', 'r', 'i', 'k', 'e', '>'],
    ) || is_word(&l, vec!['<', '/', 'd', 'e', 'l', '>']) {
        style.strikethrough = false;
        true
    } else if is_word(&l, vec!['<', 'c', 'o', 'd', 'e', '>']) {
        style.html_code = true;
        true
    } else if is_word(&l, vec!['<', '/', 'c', 'o', 'd', 'e', '>']) {
        style.html_code = false;
        true
    } else if is_word(&l, vec!['<', '/', 's', 'p', 'a', 'n', '>']) {
        style.color_override = None;
        true
    } else if starts_with(&l, &vec!['<', 's', 'p', 'a', 'n']) {
        style.color_override = parse_html_color(tag);
        true
    } else {
        false
    }
}

} // verus!
