//! What following a link does, and heading anchors.

use vstd::prelude::*;
use crate::paths::before_first;
use crate::text::{
    chars_of, ends_with, eq_chars, is_alphanumeric, is_prefix, is_suffix, matches_at,
    starts_with, string_of, to_lowercase, unicode_alphanumeric, unicode_lowercase,
};
use std::path::Path;

verus! {

broadcast use vstd::string::group_string_axioms;

/// What following a link does.
#[derive(Debug, PartialEq)]
pub enum LinkAction {
    /// Open another markdown file in the viewer.
    NavigateMarkdown(String),
    /// Open a plain text file in the viewer.
    NavigateTextFile(String),
    /// Scroll to a heading anchor of the current document.
    ScrollToAnchor(String),
    /// Hand the link to the system (web pages, mail, other files).
    OpenExternal(String),
}

/// The mathematical value of a [`LinkAction`].
pub enum LinkTarget {
    NavigateMarkdown(Seq<char>),
    NavigateTextFile(Seq<char>),
    ScrollToAnchor(Seq<char>),
    OpenExternal(Seq<char>),
}

impl View for LinkAction {
    type V = LinkTarget;

    open spec fn view(&self) -> LinkTarget {
        match self {
            LinkAction::NavigateMarkdown(p) => LinkTarget::NavigateMarkdown(p@),
            LinkAction::NavigateTextFile(p) => LinkTarget::NavigateTextFile(p@),
            LinkAction::ScrollToAnchor(a) => LinkTarget::ScrollToAnchor(a@),
            LinkAction::OpenExternal(u) => LinkTarget::OpenExternal(u@),
        }
    }
}

/// Extensions of markdown files.
pub open spec fn markdown_extensions() -> Seq<&'static str> {
    seq!["md", "markdown", "mdown", "mkd", "mkdn"]
}

/// Extensions of plain text files the viewer shows itself.
pub open spec fn text_extensions() -> Seq<&'static str> {
    seq![
        "txt", "text", "log", "cfg", "conf", "ini", "toml", "yaml", "yml", "json", "xml", "csv",
        "sh", "bash", "zsh", "fish", "py", "rs", "js", "ts", "c", "h", "cpp", "hpp", "java", "go",
        "rb", "pl",
    ]
}

/// Extensions of image files.
pub open spec fn image_extensions() -> Seq<&'static str> {
    seq!["png", "jpg", "jpeg", "gif", "svg", "webp", "bmp", "ico"]
}

pub open spec fn listed(list: Seq<&'static str>, e: Seq<char>) -> bool {
    exists|i: int| 0 <= i < list.len() && (#[trigger] list[i])@ == e
}

fn in_list(list: &Vec<&'static str>, e: &[char]) -> (b: bool)
    ensures
        b == listed(list@, e@),
{
    for i in 0..list.len()
        invariant
            forall|j: int| 0 <= j < i ==> (#[trigger] list@[j])@ != e@,
    {
        if eq_chars(&chars_of(list[i]), e) {
            return true;
        }
    }
    false
}

/// Whether `s` contains `pat` somewhere.
pub open spec fn contains_seq(s: Seq<char>, pat: Seq<char>) -> bool {
    exists|i: int| 0 <= i <= s.len() && #[trigger] is_prefix(pat, s.skip(i))
}

fn contains_chars(s: &[char], pat: &[char]) -> (b: bool)
    ensures
        b == contains_seq(s@, pat@),
{
    let n: usize = s.len();
    let mut i: usize = 0;
    while i < n
        invariant
            n == s@.len(),
            i <= n,
            forall|j: int| 0 <= j < i ==> !#[trigger] is_prefix(pat@, s@.skip(j)),
        decreases n - i,
    {
        if matches_at(s, i, pat) {
            return true;
        }
        i = i + 1;
    }
    matches_at(s, n, pat)
}

/// Whether a URL names an image file, by the extension of its path (the
/// part before any `?`), case-insensitively.
pub open spec fn spec_is_image_url(url: Seq<char>) -> bool {
    let lower = unicode_lowercase(before_first(url, '?'));
    exists|i: int|
        0 <= i < image_extensions().len() && is_suffix(
            seq!['.'] + (#[trigger] image_extensions()[i])@,
            lower,
        )
}

/// Whether a URL points to an image file.
pub fn is_image_url(url: &str) -> (b: bool)
    ensures
        b == spec_is_image_url(url@),
{
    let cs = chars_of(url);
    let path = crate::paths::prefix_before(&cs, '?');
    let lower = chars_of(to_lowercase(string_of(&path).as_str()).as_str());
    let list = vec!["png", "jpg", "jpeg", "gif", "svg", "webp", "bmp", "ico"];
    assert(list@ =~= image_extensions());
    for i in 0..list.len()
        invariant
            list@ == image_extensions(),
            lower@ == unicode_lowercase(before_first(url@, '?')),
            forall|j: int|
                0 <= j < i ==> !is_suffix(seq!['.'] + (#[trigger] list@[j])@, lower@),
    {
        let mut dotted: Vec<char> = Vec::new();
        dotted.push('.');
        let ext = chars_of(list[i]);
        let mut k: usize = 0;
        while k < ext.len()
            invariant
                k <= ext@.len(),
                dotted@ == seq!['.'] + ext@.take(k as int),
            decreases ext@.len() - k,
        {
            dotted.push(ext[k]);
            assert(ext@.take(k + 1) =~= ext@.take(k as int).push(ext@[k as int]));
            k = k + 1;
        }
        assert(ext@.take(ext@.len() as int) =~= ext@);
        if ends_with(&lower, &dotted) {
            return true;
        }
    }
    false
}

/// `Path::join` (the result as a string): `rel` appended to `base` as the
/// target platform's path rules join them.
pub uninterp spec fn path_joined(base: Seq<char>, rel: Seq<char>) -> Seq<char>;

/// `Path::extension` (as a string): the text after the final `.` of the
/// path's file name, if it has one.
pub uninterp spec fn path_extension(path: Seq<char>) -> Option<Seq<char>>;

/// `Path::join`; an absolute `rel` replaces `base`.
#[verifier::external_body]
fn join_path(base: &str, rel: &str) -> (r: String)
    ensures
        r@ == path_joined(base@, rel@),
{
    Path::new(base).join(rel).to_string_lossy().to_string()
}

/// `Path::extension`.
#[verifier::external_body]
fn extension_of(path: &str) -> (r: Option<String>)
    ensures
        r is Some <==> path_extension(path@) is Some,
        r matches Some(e) ==> e@ == path_extension(path@)->0,
{
    Path::new(path).extension().map(|e| e.to_string_lossy().to_string())
}

/// What following the link `url` from a document in `base_dir` does:
/// `#anchor` scrolls to the anchor; `http://`, `https://`, `mailto:` and
/// any other `scheme://` URL is handed to the system; a local path (without
/// its `#fragment`) is resolved against `base_dir` and opened in the viewer
/// when its extension is a markdown or text one (case-insensitively), and
/// handed to the system otherwise.
pub open spec fn spec_classify_link(url: Seq<char>, base_dir: Seq<char>) -> LinkTarget {
    if url.len() > 0 && url[0] == '#' {
        LinkTarget::ScrollToAnchor(url.drop_first())
    } else if is_prefix("http://"@, url) || is_prefix("https://"@, url) {
        LinkTarget::OpenExternal(url)
    } else if contains_seq(url, "://"@) || is_prefix("mailto:"@, url) {
        LinkTarget::OpenExternal(url)
    } else {
        let resolved = path_joined(base_dir, before_first(url, '#'));
        match path_extension(resolved) {
            Some(e) => {
                let lower = unicode_lowercase(e);
                if listed(markdown_extensions(), lower) {
                    LinkTarget::NavigateMarkdown(resolved)
                } else if listed(text_extensions(), lower) {
                    LinkTarget::NavigateTextFile(resolved)
                } else {
                    LinkTarget::OpenExternal(url)
                }
            },
            None => LinkTarget::OpenExternal(url),
        }
    }
}

/// Classify a link URL: what following it from a document in `base_dir`
/// does.
pub fn classify_link(url: &str, base_dir: &str) -> (r: LinkAction)
    ensures
        r@ == spec_classify_link(url@, base_dir@),
{
    let cs = chars_of(url);
    if cs.len() > 0 && cs[0] == '#' {
        let mut anchor: Vec<char> = Vec::new();
        for i in 1..cs.len()
            invariant
                1 <= cs@.len(),
                anchor@ == cs@.subrange(1, i as int),
        {
            anchor.push(cs[i]);
            assert(cs@.subrange(1, i + 1) =~= cs@.subrange(1, i as int).push(cs@[i as int]));
        }
        assert(cs@.subrange(1, cs@.len() as int) =~= cs@.drop_first());
        return LinkAction::ScrollToAnchor(string_of(&anchor));
    }
    if starts_with(&cs, &chars_of("http://")) || starts_with(&cs, &chars_of("https://")) {
        return LinkAction::OpenExternal(url.to_string());
    }
    if contains_chars(&cs, &chars_of("://")) || starts_with(&cs, &chars_of("mailto:")) {
        return LinkAction::OpenExternal(url.to_string());
    }
    let path_part = string_of(&crate::paths::prefix_before(&cs, '#'));
    let resolved = join_path(base_dir, path_part.as_str());
    match extension_of(resolved.as_str()) {
        Some(ext) => {
            let lower = chars_of(to_lowercase(ext.as_str()).as_str());
            let markdown = vec!["md", "markdown", "mdown", "mkd", "mkdn"];
            assert(markdown@ =~= markdown_extensions());
            let text = vec![
                "txt", "text", "log", "cfg", "conf", "ini", "toml", "yaml", "yml", "json", "xml",
                "csv", "sh", "bash", "zsh", "fish", "py", "rs", "js", "ts", "c", "h", "cpp", "hpp",
                "java", "go", "rb", "pl",
            ];
            assert(text@ =~= text_extensions());
            if in_list(&markdown, &lower) {
                LinkAction::NavigateMarkdown(resolved)
            } else if in_list(&text, &lower) {
                LinkAction::NavigateTextFile(resolved)
            } else {
                LinkAction::OpenExternal(url.to_string())
            }
        },
        None => LinkAction::OpenExternal(url.to_string()),
    }
}

/// The characters of a heading that survive into its anchor: letters and
/// digits stay, spaces and hyphens become hyphens, everything else goes.
pub open spec fn anchor_chars(s: Seq<char>) -> Seq<char>
    decreases s.len(),
{
    if s.len() == 0 {
        s
    } else {
        let rest = anchor_chars(s.drop_last());
        let c = s.last();
        if unicode_alphanumeric(c) {
            rest.push(c)
        } else if c == ' ' || c == '-' {
            rest.push('-')
        } else {
            rest
        }
    }
}

/// `s` without its leading hyphens.
pub open spec fn trim_leading_dashes(s: Seq<char>) -> Seq<char>
    decreases s.len(),
{
    if s.len() > 0 && s[0] == '-' {
        trim_leading_dashes(s.drop_first())
    } else {
        s
    }
}

/// `s` without its trailing hyphens.
pub open spec fn trim_trailing_dashes(s: Seq<char>) -> Seq<char>
    decreases s.len(),
{
    if s.len() > 0 && s.last() == '-' {
        trim_trailing_dashes(s.drop_last())
    } else {
        s
    }
}

/// The GitHub-style anchor of a heading: lowercased, spaces turned into
/// hyphens, other punctuation dropped, no hyphen at either end.
pub open spec fn spec_heading_to_anchor(text: Seq<char>) -> Seq<char> {
    trim_trailing_dashes(trim_leading_dashes(anchor_chars(unicode_lowercase(text))))
}

/// Generate an anchor ID from heading text (GitHub-style).
pub fn heading_to_anchor(text: &str) -> (r: String)
    ensures
        r@ == spec_heading_to_anchor(text@),
{
    let lower = chars_of(to_lowercase(text).as_str());
    let mut kept: Vec<char> = Vec::new();
    for i in 0..lower.len()
        invariant
            kept@ == anchor_chars(lower@.take(i as int)),
    {
        let c = lower[i];
        assert(lower@.take(i + 1).drop_last() =~= lower@.take(i as int));
        assert(lower@.take(i + 1).last() == c);
        if is_alphanumeric(c) {
            kept.push(c);
        } else if c == ' ' || c == '-' {
            kept.push('-');
        }
    }
    assert(lower@.take(lower@.len() as int) =~= lower@);
    let n: usize = kept.len();
    let mut start: usize = 0;
    assert(kept@.skip(0) =~= kept@);
    while start < n && kept[start] == '-'
        invariant
            n == kept@.len(),
            start <= n,
            trim_leading_dashes(kept@) == trim_leading_dashes(kept@.skip(start as int)),
        decreases n - start,
    {
        assert(kept@.skip(start as int).drop_first() =~= kept@.skip(start + 1));
        start = start + 1;
    }
    let mut end: usize = n;
    let ghost lead = kept@.skip(start as int);
    assert(kept@.skip(start as int) =~= kept@.subrange(start as int, n as int));
    while end > start && kept[end - 1] == '-'
        invariant
            n == kept@.len(),
            start <= end <= n,
            trim_trailing_dashes(lead) == trim_trailing_dashes(
                kept@.subrange(start as int, end as int),
            ),
            lead == kept@.subrange(start as int, n as int),
        decreases end,
    {
        assert(kept@.subrange(start as int, end as int).drop_last() =~= kept@.subrange(
            start as int,
            end - 1,
        ));
        end = end - 1;
    }
    let mut out: Vec<char> = Vec::new();
    let mut k: usize = start;
    while k < end
        invariant
            start <= k <= end <= n,
            n == kept@.len(),
            out@ == kept@.subrange(start as int, k as int),
        decreases end - k,
    {
        out.push(kept[k]);
        assert(kept@.subrange(start as int, k + 1) =~= kept@.subrange(start as int, k as int).push(
            kept@[k as int],
        ));
        k = k + 1;
    }
    string_of(&out)
}

/// Every character of an anchor is a letter, a digit or a hyphen, and an
/// anchor neither starts nor ends with a hyphen.
pub proof fn lemma_anchor_shape(text: Seq<char>)
    ensures
        ({
            let a = spec_heading_to_anchor(text);
            &&& forall|i: int|
                0 <= i < a.len() ==> unicode_alphanumeric(#[trigger] a[i]) || a[i] == '-'
            &&& a.len() > 0 ==> a[0] != '-' && a.last() != '-'
        }),
{
    let x = anchor_chars(unicode_lowercase(text));
    lemma_anchor_chars_shape(unicode_lowercase(text));
    let k = lemma_trim_leading(x);
    let t = x.skip(k);
    let m = lemma_trim_trailing(t);
    let a = t.take(m);
    assert forall|i: int| 0 <= i < a.len() implies unicode_alphanumeric(#[trigger] a[i]) || a[i]
        == '-' by {
        assert(a[i] == x[k + i]);
    }
    if a.len() > 0 {
        assert(a[0] == t[0]);
        assert(a.last() == t[m - 1]);
    }
}

/// An anchor is its own anchor whenever lowercasing leaves it as it is:
/// its letters and digits stay, its hyphens stay hyphens, and it has no
/// hyphen at either end to trim.
pub proof fn lemma_anchor_fixed_point(text: Seq<char>)
    requires
        unicode_lowercase(spec_heading_to_anchor(text)) == spec_heading_to_anchor(text),
    ensures
        spec_heading_to_anchor(spec_heading_to_anchor(text)) == spec_heading_to_anchor(text),
{
    let a = spec_heading_to_anchor(text);
    lemma_anchor_shape(text);
    lemma_anchor_chars_keep(a);
    assert(trim_leading_dashes(a) == a);
    assert(trim_trailing_dashes(a) == a);
}

/// A string of letters, digits and hyphens keeps all its characters.
proof fn lemma_anchor_chars_keep(s: Seq<char>)
    requires
        forall|i: int| 0 <= i < s.len() ==> unicode_alphanumeric(#[trigger] s[i]) || s[i] == '-',
    ensures
        anchor_chars(s) == s,
    decreases s.len(),
{
    if s.len() > 0 {
        let t = s.drop_last();
        assert forall|i: int| 0 <= i < t.len() implies unicode_alphanumeric(#[trigger] t[i])
            || t[i] == '-' by {
            assert(t[i] == s[i]);
        }
        lemma_anchor_chars_keep(t);
        assert(s.last() == s[s.len() - 1]);
        assert(t.push(s.last()) =~= s);
    }
}

proof fn lemma_anchor_chars_shape(s: Seq<char>)
    ensures
        forall|i: int|
            0 <= i < anchor_chars(s).len() ==> unicode_alphanumeric(#[trigger] anchor_chars(s)[i])
                || anchor_chars(s)[i] == '-',
    decreases s.len(),
{
    if s.len() > 0 {
        lemma_anchor_chars_shape(s.drop_last());
        let rest = anchor_chars(s.drop_last());
        let a = anchor_chars(s);
        assert forall|i: int| 0 <= i < a.len() implies unicode_alphanumeric(#[trigger] a[i])
            || a[i] == '-' by {
            if i < rest.len() {
                assert(a[i] == rest[i]);
            }
        }
    }
}

proof fn lemma_trim_leading(s: Seq<char>) -> (k: int)
    ensures
        0 <= k <= s.len(),
        trim_leading_dashes(s) == s.skip(k),
        s.skip(k).len() > 0 ==> s.skip(k)[0] != '-',
    decreases s.len(),
{
    if s.len() > 0 && s[0] == '-' {
        let k1 = lemma_trim_leading(s.drop_first());
        assert(s.drop_first().skip(k1) =~= s.skip(k1 + 1));
        k1 + 1
    } else {
        assert(s.skip(0) =~= s);
        0
    }
}

proof fn lemma_trim_trailing(s: Seq<char>) -> (m: int)
    ensures
        0 <= m <= s.len(),
        trim_trailing_dashes(s) == s.take(m),
        m > 0 ==> s[m - 1] != '-',
    decreases s.len(),
{
    if s.len() > 0 && s.last() == '-' {
        let m1 = lemma_trim_trailing(s.drop_last());
        assert(s.drop_last().take(m1) =~= s.take(m1));
        m1
    } else {
        assert(s.take(s.len() as int) =~= s);
        s.len() as int
    }
}

/// Links go where the viewer promises: an `#anchor` link scrolls to the
/// anchor, a web link is handed to the system even when it names a markdown
/// file, and a link to a local file with a markdown extension opens in the
/// viewer (resolved against the document's directory).
pub proof fn lemma_link_routing(url: Seq<char>, base_dir: Seq<char>)
    ensures
        url.len() > 0 && url[0] == '#' ==> spec_classify_link(url, base_dir)
            == LinkTarget::ScrollToAnchor(url.drop_first()),
        is_prefix("http://"@, url) || is_prefix("https://"@, url) ==> spec_classify_link(
            url,
            base_dir,
        ) == LinkTarget::OpenExternal(url),
        ({
            let resolved = path_joined(base_dir, before_first(url, '#'));
            &&& !(url.len() > 0 && url[0] == '#')
            &&& !contains_seq(url, "://"@)
            &&& !is_prefix("mailto:"@, url)
            &&& path_extension(resolved) matches Some(e) && listed(
                markdown_extensions(),
                unicode_lowercase(e),
            )
        }) ==> spec_classify_link(url, base_dir) == LinkTarget::NavigateMarkdown(
            path_joined(base_dir, before_first(url, '#')),
        ),
{
    reveal_strlit("http://");
    reveal_strlit("https://");
    reveal_strlit("://");
    if is_prefix("http://"@, url) {
        assert(url.take(7)[0] == url[0]);
        assert(url[4] == url.take(7)[4] && url[5] == url.take(7)[5] && url[6] == url.take(7)[6]);
        assert(url.skip(4).take(3) =~= "://"@);
        assert(is_prefix("://"@, url.skip(4)));
        assert(contains_seq(url, "://"@));
    }
    if is_prefix("https://"@, url) {
        assert(url.take(8)[0] == url[0]);
        assert(url[5] == url.take(8)[5] && url[6] == url.take(8)[6] && url[7] == url.take(8)[7]);
        assert(url.skip(5).take(3) =~= "://"@);
        assert(is_prefix("://"@, url.skip(5)));
        assert(contains_seq(url, "://"@));
    }
}

/// Every link that is not an `#anchor` and names a scheme (holds `://`
/// anywhere, as `ftp://host/notes.txt` does), and every `mailto:` link, is
/// handed to the system as it is, whatever its extension: it is never
/// resolved to a local file.
pub proof fn lemma_scheme_links_external(url: Seq<char>, base_dir: Seq<char>, i: int)
    requires
        !(url.len() > 0 && url[0] == '#'),
        (0 <= i && i + 3 <= url.len() && url[i] == ':' && url[i + 1] == '/' && url[i + 2]
            == '/') || (url.len() >= 7 && url.take(7) == seq!['m', 'a', 'i', 'l', 't', 'o', ':']),
    ensures
        spec_classify_link(url, base_dir) == LinkTarget::OpenExternal(url),
{
    reveal_strlit("://");
    reveal_strlit("mailto:");
    if 0 <= i && i + 3 <= url.len() && url[i] == ':' && url[i + 1] == '/' && url[i + 2] == '/' {
        assert(url.skip(i).take(3) =~= "://"@);
        assert(is_prefix("://"@, url.skip(i)));
        assert(contains_seq(url, "://"@));
    } else {
        assert(url.take(7) =~= "mailto:"@);
        assert(is_prefix("mailto:"@, url));
    }
}

/// A link made from a heading's anchor scrolls to that heading: `#` and the
/// anchor of a heading text is classified as scrolling to exactly that
/// anchor.
pub proof fn lemma_anchor_links_scroll(text: Seq<char>, base_dir: Seq<char>)
    ensures
        spec_classify_link(seq!['#'] + spec_heading_to_anchor(text), base_dir)
            == LinkTarget::ScrollToAnchor(spec_heading_to_anchor(text)),
{
    let url = seq!['#'] + spec_heading_to_anchor(text);
    assert(url[0] == '#');
    assert(url.drop_first() =~= spec_heading_to_anchor(text));
}

} // verus!
