//! Raw HTML found in markdown: recognising the few tags the viewer gives a
//! meaning of their own, stripping tags, and turning an HTML fragment into
//! the plain text that is displayed for it.

use vstd::prelude::*;
use crate::text::{
    ascii_lowercase, chars_of, eq_chars, ends_with, is_prefix, is_suffix, replace_all,
    replace_chars, starts_with, string_of, subrange_chars, to_ascii_lowercase, trim, trim_char,
    trim_matches, trim_ws, lemma_trim_ws_trimmed, unicode_whitespace, trim_start_ws, trim_end_ws,
};

verus! {

broadcast use vstd::string::group_string_axioms;

pub open spec fn comment_open() -> Seq<char> {
    seq!['<', '!', '-', '-']
}

pub open spec fn comment_close() -> Seq<char> {
    seq!['-', '-', '>']
}

/// Whether `s` is an HTML comment: it begins with `<!--` and ends with `-->`.
pub open spec fn spec_is_html_comment(s: Seq<char>) -> bool {
    is_prefix(comment_open(), s) && is_suffix(comment_close(), s)
}

/// Whether `s` is exactly one of `<br>`, `<br/>` and `<br />`.
pub open spec fn spec_is_line_break_tag(s: Seq<char>) -> bool {
    s == seq!['<', 'b', 'r', '>'] || s == seq!['<', 'b', 'r', '/', '>'] || s == seq![
        '<',
        'b',
        'r',
        ' ',
        '/',
        '>',
    ]
}

/// Whether `s` is exactly one of `<hr>`, `<hr/>` and `<hr />`.
pub open spec fn spec_is_horizontal_rule_tag(s: Seq<char>) -> bool {
    s == seq!['<', 'h', 'r', '>'] || s == seq!['<', 'h', 'r', '/', '>'] || s == seq![
        '<',
        'h',
        'r',
        ' ',
        '/',
        '>',
    ]
}

/// Whether the fragment is an HTML comment (`<!-- ... -->`).
pub fn is_html_comment(html: &str) -> (b: bool)
    ensures
        b == spec_is_html_comment(html@),
{
    let s = chars_of(html);
    let open = vec!['<', '!', '-', '-'];
    let close = vec!['-', '-', '>'];
    assert(open@ == comment_open());
    assert(close@ == comment_close());
    starts_with(&s, &open) && ends_with(&s, &close)
}

/// Whether the fragment is a line-break tag (`<br>`, `<br/>` or `<br />`).
pub fn is_line_break_tag(html: &str) -> (b: bool)
    ensures
        b == spec_is_line_break_tag(html@),
{
    let s = chars_of(html);
    let a = vec!['<', 'b', 'r', '>'];
    let b = vec!['<', 'b', 'r', '/', '>'];
    let c = vec!['<', 'b', 'r', ' ', '/', '>'];
    eq_chars(&s, &a) || eq_chars(&s, &b) || eq_chars(&s, &c)
}

/// Whether the fragment is a horizontal-rule tag (`<hr>`, `<hr/>` or `<hr />`).
pub fn is_horizontal_rule_tag(html: &str) -> (b: bool)
    ensures
        b == spec_is_horizontal_rule_tag(html@),
{
    let s = chars_of(html);
    let a = vec!['<', 'h', 'r', '>'];
    let b = vec!['<', 'h', 'r', '/', '>'];
    let c = vec!['<', 'h', 'r', ' ', '/', '>'];
    eq_chars(&s, &a) || eq_chars(&s, &b) || eq_chars(&s, &c)
}

/// The characters of `s` that stand outside tags, where `in_tag` tells whether
/// the scan starts inside one. A `<` opens a tag and a `>` closes it; both are
/// dropped.
pub open spec fn stripped_from(s: Seq<char>, in_tag: bool) -> Seq<char>
    decreases s.len(),
{
    if s.len() == 0 {
        s
    } else if s[0] == '<' {
        stripped_from(s.drop_first(), true)
    } else if s[0] == '>' {
        stripped_from(s.drop_first(), false)
    } else if in_tag {
        stripped_from(s.drop_first(), in_tag)
    } else {
        seq![s[0]] + stripped_from(s.drop_first(), in_tag)
    }
}

pub open spec fn spec_strip_html_tags(s: Seq<char>) -> Seq<char> {
    stripped_from(s, false)
}

/// Strip HTML tags, returning only the text content between tags.
pub fn strip_html_tags(html: &str) -> (r: String)
    ensures
        r@ == spec_strip_html_tags(html@),
{
    let s = chars_of(html);
    let n: usize = s.len();
    let mut out: Vec<char> = Vec::new();
    let mut in_tag = false;
    let mut i: usize = 0;
    assert(s@.skip(0) =~= s@);
    while i < n
        invariant
            n == s@.len(),
            i <= n,
            spec_strip_html_tags(s@) == out@ + stripped_from(s@.skip(i as int), in_tag),
        decreases n - i,
    {
        let c = s[i];
        let ghost before = out@;
        assert(s@.skip(i as int).drop_first() =~= s@.skip(i + 1));
        if c == '<' {
            in_tag = true;
        } else if c == '>' {
            in_tag = false;
        } else if !in_tag {
            out.push(c);
            assert(before + (seq![c] + stripped_from(s@.skip(i + 1), in_tag)) =~= out@
                + stripped_from(s@.skip(i + 1), in_tag));
        }
        i = i + 1;
    }
    assert(s@.skip(n as int) =~= Seq::<char>::empty());
    assert(out@ + Seq::<char>::empty() =~= out@);
    string_of(&out)
}

proof fn lemma_stripped_has_no_brackets(s: Seq<char>, in_tag: bool)
    ensures
        forall|k: int|
            0 <= k < stripped_from(s, in_tag).len() ==> #[trigger] stripped_from(s, in_tag)[k]
                != '<' && stripped_from(s, in_tag)[k] != '>',
    decreases s.len(),
{
    if s.len() > 0 {
        let rest = s.drop_first();
        let r = stripped_from(s, in_tag);
        if s[0] == '<' {
            lemma_stripped_has_no_brackets(rest, true);
            assert(r == stripped_from(rest, true));
        } else if s[0] == '>' {
            lemma_stripped_has_no_brackets(rest, false);
            assert(r == stripped_from(rest, false));
        } else if in_tag {
            lemma_stripped_has_no_brackets(rest, in_tag);
            assert(r == stripped_from(rest, in_tag));
        } else {
            lemma_stripped_has_no_brackets(rest, in_tag);
            let t = stripped_from(rest, in_tag);
            assert(r == seq![s[0]] + t);
            assert forall|k: int| 0 <= k < r.len() implies r[k] != '<' && r[k] != '>' by {
                if k > 0 {
                    assert(r[k] == t[k - 1]);
                }
            }
        }
    }
}

proof fn lemma_stripped_plain(s: Seq<char>)
    requires
        forall|k: int| 0 <= k < s.len() ==> s[k] != '<' && s[k] != '>',
    ensures
        stripped_from(s, false) == s,
    decreases s.len(),
{
    if s.len() > 0 {
        lemma_stripped_plain(s.drop_first());
        assert(seq![s[0]] + s.drop_first() =~= s);
    }
}

/// What [`strip_html_tags`] returns holds no `<` and no `>`.
pub proof fn lemma_strip_removes_brackets(s: Seq<char>)
    ensures
        forall|k: int|
            0 <= k < spec_strip_html_tags(s).len() ==> spec_strip_html_tags(s)[k] != '<'
                && spec_strip_html_tags(s)[k] != '>',
{
    lemma_stripped_has_no_brackets(s, false);
}

/// Text without `<` and `>` comes back from [`strip_html_tags`] unchanged.
pub proof fn lemma_strip_keeps_plain_text(s: Seq<char>)
    requires
        forall|k: int| 0 <= k < s.len() ==> s[k] != '<' && s[k] != '>',
    ensures
        spec_strip_html_tags(s) == s,
{
    lemma_stripped_plain(s);
}

/// Stripping tags twice gives what stripping once gives.
pub proof fn lemma_strip_idempotent(s: Seq<char>)
    ensures
        spec_strip_html_tags(spec_strip_html_tags(s)) == spec_strip_html_tags(s),
{
    lemma_stripped_has_no_brackets(s, false);
    lemma_stripped_plain(spec_strip_html_tags(s));
}

/// The number of characters of `s` before its first `>` (all of them when
/// there is none).
pub open spec fn tag_body_len(s: Seq<char>) -> nat
    decreases s.len(),
{
    if s.len() == 0 || s[0] == '>' {
        0
    } else {
        1 + tag_body_len(s.drop_first())
    }
}

pub proof fn lemma_tag_body_len(s: Seq<char>)
    ensures
        tag_body_len(s) <= s.len(),
        tag_body_len(s) < s.len() ==> s[tag_body_len(s) as int] == '>',
        forall|k: int| 0 <= k < tag_body_len(s) ==> s[k] != '>',
    decreases s.len(),
{
    if s.len() > 0 && s[0] != '>' {
        lemma_tag_body_len(s.drop_first());
        assert forall|k: int| 0 <= k < tag_body_len(s) implies s[k] != '>' by {
            if k > 0 {
                assert(s[k] == s.drop_first()[k - 1]);
            }
        }
    }
}

/// Whether the (normalised) tag closes a block: `/p`, `/div`, `/li`, `/ul`,
/// `/ol`, `/blockquote` or a heading `/h1` to `/h6`, each as a prefix.
pub open spec fn closes_block(t: Seq<char>) -> bool {
    ||| is_prefix(seq!['/', 'p'], t)
    ||| is_prefix(seq!['/', 'd', 'i', 'v'], t)
    ||| is_prefix(seq!['/', 'l', 'i'], t)
    ||| is_prefix(seq!['/', 'u', 'l'], t)
    ||| is_prefix(seq!['/', 'o', 'l'], t)
    ||| is_prefix(seq!['/', 'b', 'l', 'o', 'c', 'k', 'q', 'u', 'o', 't', 'e'], t)
    ||| is_prefix(seq!['/', 'h', '1'], t)
    ||| is_prefix(seq!['/', 'h', '2'], t)
    ||| is_prefix(seq!['/', 'h', '3'], t)
    ||| is_prefix(seq!['/', 'h', '4'], t)
    ||| is_prefix(seq!['/', 'h', '5'], t)
    ||| is_prefix(seq!['/', 'h', '6'], t)
}

pub open spec fn ends_line(acc: Seq<char>) -> bool {
    acc.len() > 0 && acc.last() == '\n'
}

/// `acc` followed by a line break unless it already ends with one.
pub open spec fn end_line(acc: Seq<char>) -> Seq<char> {
    if ends_line(acc) {
        acc
    } else {
        acc.push('\n')
    }
}

/// The bullet that stands for a list item.
pub open spec fn bullet() -> Seq<char> {
    seq!['\u{2022}', ' ']
}

/// What a tag, lowercased and trimmed, adds to the displayed text `acc`: a
/// comment nothing, `br` a line break, `hr` and the closing block tags a line
/// break unless one ends the text already, `li` a bullet on a line of its own.
pub open spec fn apply_tag(acc: Seq<char>, t: Seq<char>) -> Seq<char> {
    if is_prefix(seq!['!', '-', '-'], t) {
        acc
    } else if t == seq!['b', 'r'] || t == seq!['b', 'r', '/'] {
        acc.push('\n')
    } else if t == seq!['h', 'r'] || t == seq!['h', 'r', '/'] {
        end_line(acc)
    } else if t == seq!['l', 'i'] {
        (if acc.len() > 0 && !ends_line(acc) {
            acc.push('\n')
        } else {
            acc
        }) + bullet()
    } else if closes_block(t) {
        end_line(acc)
    } else {
        acc
    }
}

/// The displayed text of `s` appended to `acc`: characters outside tags are
/// kept, each tag (from `<` to the next `>`, or to the end) is replaced by what
/// [`apply_tag`] makes of it.
pub open spec fn display_scan(s: Seq<char>, acc: Seq<char>) -> Seq<char>
    decreases s.len(),
{
    if s.len() == 0 {
        acc
    } else if s[0] == '<' {
        let body = s.drop_first();
        let k = tag_body_len(body);
        proof {
            lemma_tag_body_len(body);
        }
        let tag = body.take(k as int);
        let rest = if k < body.len() {
            body.skip((k + 1) as int)
        } else {
            Seq::<char>::empty()
        };
        display_scan(rest, apply_tag(acc, ascii_lowercase(trim_ws(tag))))
    } else {
        display_scan(s.drop_first(), acc.push(s[0]))
    }
}

/// `s` with the entities `&lt;`, `&gt;`, `&amp;`, `&quot;`, `&#39;` and
/// `&nbsp;` decoded, one after the other in that order.
pub open spec fn spec_decode_html_entities(s: Seq<char>) -> Seq<char> {
    let s1 = replace_all(s, seq!['&', 'l', 't', ';'], seq!['<']);
    let s2 = replace_all(s1, seq!['&', 'g', 't', ';'], seq!['>']);
    let s3 = replace_all(s2, seq!['&', 'a', 'm', 'p', ';'], seq!['&']);
    let s4 = replace_all(s3, seq!['&', 'q', 'u', 'o', 't', ';'], seq!['"']);
    let s5 = replace_all(s4, seq!['&', '#', '3', '9', ';'], seq!['\'']);
    replace_all(s5, seq!['&', 'n', 'b', 's', 'p', ';'], seq![' '])
}

/// The text displayed for an HTML fragment: the scan of [`display_scan`],
/// without leading and trailing line breaks, entities decoded, trimmed.
pub open spec fn spec_html_to_display_text(s: Seq<char>) -> Seq<char> {
    trim_ws(spec_decode_html_entities(trim_char(display_scan(s, Seq::empty()), '\n')))
}

fn has_prefix(t: &Vec<char>, p: Vec<char>) -> (b: bool)
    ensures
        b == is_prefix(p@, t@),
{
    starts_with(t, &p)
}

fn closes_block_tag(t: &Vec<char>) -> (b: bool)
    ensures
        b == closes_block(t@),
{
    has_prefix(t, vec!['/', 'p']) || has_prefix(t, vec!['/', 'd', 'i', 'v']) || has_prefix(
        t,
        vec!['/', 'l', 'i'],
    ) || has_prefix(t, vec!['/', 'u', 'l']) || has_prefix(t, vec!['/', 'o', 'l'])
        || has_prefix(t, vec!['/', 'b', 'l', 'o', 'c', 'k', 'q', 'u', 'o', 't', 'e'])
        || has_prefix(t, vec!['/', 'h', '1']) || has_prefix(t, vec!['/', 'h', '2'])
        || has_prefix(t, vec!['/', 'h', '3']) || has_prefix(t, vec!['/', 'h', '4'])
        || has_prefix(t, vec!['/', 'h', '5']) || has_prefix(t, vec!['/', 'h', '6'])
}

fn push_end_line(acc: &mut Vec<char>)
    ensures
        final(acc)@ == end_line(old(acc)@),
{
    let n: usize = acc.len();
    if !(n > 0 && acc[n - 1] == '\n') {
        acc.push('\n');
    }
}

fn push_tag(acc: &mut Vec<char>, t: &Vec<char>)
    ensures
        final(acc)@ == apply_tag(old(acc)@, t@),
{
    if has_prefix(t, vec!['!', '-', '-']) {
    } else if eq_chars(t, &vec!['b', 'r']) || eq_chars(t, &vec!['b', 'r', '/']) {
        acc.push('\n');
    } else if eq_chars(t, &vec!['h', 'r']) || eq_chars(t, &vec!['h', 'r', '/']) {
        push_end_line(acc);
    } else if eq_chars(t, &vec!['l', 'i']) {
        let n: usize = acc.len();
        if n > 0 && acc[n - 1] != '\n' {
            acc.push('\n');
        }
        let ghost before = acc@;
        acc.push('\u{2022}');
        acc.push(' ');
        assert(acc@ =~= before + bullet());
    } else if closes_block_tag(t) {
        push_end_line(acc);
    }
}

fn decode_entity_chars(s0: &Vec<char>) -> (r: Vec<char>)
    ensures
        r@ == spec_decode_html_entities(s0@),
{
    let (p1, t1) = (vec!['&', 'l', 't', ';'], vec!['<']);
    let (p2, t2) = (vec!['&', 'g', 't', ';'], vec!['>']);
    let (p3, t3) = (vec!['&', 'a', 'm', 'p', ';'], vec!['&']);
    let (p4, t4) = (vec!['&', 'q', 'u', 'o', 't', ';'], vec!['"']);
    let (p5, t5) = (vec!['&', '#', '3', '9', ';'], vec!['\'']);
    let (p6, t6) = (vec!['&', 'n', 'b', 's', 'p', ';'], vec![' ']);
    assert(p1@ =~= seq!['&', 'l', 't', ';'] && t1@ =~= seq!['<']);
    assert(p2@ =~= seq!['&', 'g', 't', ';'] && t2@ =~= seq!['>']);
    assert(p3@ =~= seq!['&', 'a', 'm', 'p', ';'] && t3@ =~= seq!['&']);
    assert(p4@ =~= seq!['&', 'q', 'u', 'o', 't', ';'] && t4@ =~= seq!['"']);
    assert(p5@ =~= seq!['&', '#', '3', '9', ';'] && t5@ =~= seq!['\'']);
    assert(p6@ =~= seq!['&', 'n', 'b', 's', 'p', ';'] && t6@ =~= seq![' ']);
    let s1 = replace_chars(s0, &p1, &t1);
    let s2 = replace_chars(&s1, &p2, &t2);
    let s3 = replace_chars(&s2, &p3, &t3);
    let s4 = replace_chars(&s3, &p4, &t4);
    let s5 = replace_chars(&s4, &p5, &t5);
    replace_chars(&s5, &p6, &t6)
}

/// Decode the entities `&lt;`, `&gt;`, `&amp;`, `&quot;`, `&#39;` and
/// `&nbsp;`, in that order.
pub fn decode_html_entities(text: &str) -> (r: String)
    ensures
        r@ == spec_decode_html_entities(text@),
{
    let s = chars_of(text);
    let d = decode_entity_chars(&s);
    string_of(&d)
}

/// The text displayed for an HTML fragment: tags dropped (`br`, `hr`, `li`
/// and closing block tags turned into line breaks and bullets, comments
/// ignored), entities decoded, surrounding whitespace trimmed.
pub fn html_to_display_text(html: &str) -> (r: String)
    ensures
        r@ == spec_html_to_display_text(html@),
{
    let s = chars_of(html);
    let n: usize = s.len();
    let mut out: Vec<char> = Vec::new();
    let mut i: usize = 0;
    assert(s@.skip(0) =~= s@);
    while i < n
        invariant
            n == s@.len(),
            i <= n,
            display_scan(s@, Seq::empty()) == display_scan(s@.skip(i as int), out@),
        decreases n - i,
    {
        let ghost rest = s@.skip(i as int);
        if s[i] == '<' {
            let mut j: usize = i + 1;
            assert(rest.drop_first() =~= s@.skip(i + 1));
            assert(s@.skip(j as int) =~= s@.skip(i + 1));
            while j < n && s[j] != '>'
                invariant
                    n == s@.len(),
                    i < j <= n,
                    tag_body_len(s@.skip(i + 1)) == (j - i - 1) + tag_body_len(
                        s@.skip(j as int),
                    ),
                decreases n - j,
            {
                assert(s@.skip(j as int).drop_first() =~= s@.skip(j + 1));
                j = j + 1;
            }
            let tag = subrange_chars(&s, i + 1, j);
            let trimmed = trim(&tag);
            let norm = to_ascii_lowercase(&trimmed);
            let ghost before = out@;
            push_tag(&mut out, &norm);
            proof {
                let body = rest.drop_first();
                assert(body.take((j - i - 1) as int) =~= tag@);
                if j < n {
                    assert(body.skip(j - i) =~= s@.skip(j + 1));
                }
            }
            if j < n {
                i = j + 1;
            } else {
                i = n;
                assert(s@.skip(n as int) =~= Seq::<char>::empty());
            }
        } else {
            assert(rest.drop_first() =~= s@.skip(i + 1));
            out.push(s[i]);
            i = i + 1;
        }
    }
    assert(s@.skip(n as int) =~= Seq::<char>::empty());
    let lines = trim_matches(&out, '\n');
    let decoded = decode_entity_chars(&lines);
    let t = trim(&decoded);
    string_of(&t)
}

/// The text displayed for an HTML fragment never starts or ends with
/// whitespace.
pub proof fn lemma_display_text_trimmed(html: Seq<char>)
    ensures
        ({
            let d = spec_html_to_display_text(html);
            d.len() > 0 ==> !unicode_whitespace(d[0]) && !unicode_whitespace(d.last())
        }),
{
    lemma_trim_ws_trimmed(spec_decode_html_entities(trim_char(display_scan(html, Seq::empty()), '\n')));
}

/// Text without a `<` is displayed as it is: scanning it and then `rest`
/// is scanning `rest` after it.
proof fn lemma_scan_plain_prefix(t: Seq<char>, rest: Seq<char>, acc: Seq<char>)
    requires
        forall|i: int| 0 <= i < t.len() ==> t[i] != '<',
    ensures
        display_scan(t + rest, acc) == display_scan(rest, acc + t),
    decreases t.len(),
{
    if t.len() == 0 {
        assert(t + rest =~= rest);
        assert(acc + t =~= acc);
    } else {
        assert((t + rest)[0] == t[0]);
        assert((t + rest).drop_first() =~= t.drop_first() + rest);
        lemma_scan_plain_prefix(t.drop_first(), rest, acc.push(t[0]));
        assert(acc.push(t[0]) + t.drop_first() =~= acc + t);
    }
}

/// A `<br>` or `<br/>` tag is displayed as a line break: after text without
/// tags, either tag followed by anything displays exactly as a line break
/// followed by the same.
pub proof fn lemma_br_is_a_line_break(a: Seq<char>, b: Seq<char>)
    requires
        forall|i: int| 0 <= i < a.len() ==> a[i] != '<',
    ensures
        spec_html_to_display_text(a + seq!['<', 'b', 'r', '/', '>'] + b)
            == spec_html_to_display_text(a + seq!['\n'] + b),
        spec_html_to_display_text(a + seq!['<', 'b', 'r', '>'] + b)
            == spec_html_to_display_text(a + seq!['\n'] + b),
{
    let e = Seq::<char>::empty();
    let nl = a + seq!['\n'];
    assert forall|i: int| 0 <= i < nl.len() implies nl[i] != '<' by {
        if i < a.len() {
            assert(nl[i] == a[i]);
        }
    }
    assert(a + seq!['\n'] + b =~= nl + b);
    lemma_scan_plain_prefix(nl, b, e);
    assert(e + nl =~= nl);
    assert(seq!['<', 'b', 'r', '/', '>'] =~= seq!['<'] + seq!['b', 'r', '/'] + seq!['>']);
    assert(seq!['<', 'b', 'r', '>'] =~= seq!['<'] + seq!['b', 'r'] + seq!['>']);
    lemma_br_tag(a, b, seq!['<', 'b', 'r', '/', '>'], seq!['b', 'r', '/']);
    lemma_br_tag(a, b, seq!['<', 'b', 'r', '>'], seq!['b', 'r']);
}

proof fn lemma_br_tag(a: Seq<char>, b: Seq<char>, tag: Seq<char>, body: Seq<char>)
    requires
        forall|i: int| 0 <= i < a.len() ==> a[i] != '<',
        tag == seq!['<'] + body + seq!['>'],
        body == seq!['b', 'r', '/'] || body == seq!['b', 'r'],
    ensures
        display_scan(a + tag + b, Seq::empty()) == display_scan(b, a + seq!['\n']),
{
    let e = Seq::<char>::empty();
    assert(a + tag + b =~= a + (tag + b));
    lemma_scan_plain_prefix(a, tag + b, e);
    assert(e + a =~= a);
    let s = tag + b;
    let rest_body = s.drop_first();
    assert(s[0] == '<');
    assert(rest_body =~= body + (seq!['>'] + b));
    assert((seq!['>'] + b)[0] == '>');
    lemma_body_len(body, seq!['>'] + b);
    let k = tag_body_len(rest_body);
    assert(k == body.len());
    assert(rest_body.take(k as int) =~= body);
    assert(k < rest_body.len());
    assert(rest_body.skip((k + 1) as int) =~= b);
    assert(trim_start_ws(body) == body);
    assert(trim_end_ws(body) == body);
    assert(trim_ws(body) == body);
    assert(ascii_lowercase(body) =~= body);
    assert(!is_prefix(seq!['!', '-', '-'], body));
    assert(apply_tag(a, body) == a.push('\n'));
    assert(a.push('\n') =~= a + seq!['\n']);
    assert(display_scan(s, a) == display_scan(b, apply_tag(a, ascii_lowercase(trim_ws(body)))));
}

proof fn lemma_body_len(body: Seq<char>, rest: Seq<char>)
    requires
        forall|i: int| 0 <= i < body.len() ==> body[i] != '>',
        rest.len() > 0 && rest[0] == '>',
    ensures
        tag_body_len(body + rest) == body.len(),
    decreases body.len(),
{
    if body.len() == 0 {
        assert(body + rest =~= rest);
    } else {
        assert((body + rest).drop_first() =~= body.drop_first() + rest);
        lemma_body_len(body.drop_first(), rest);
    }
}

} // verus!
