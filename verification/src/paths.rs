//! Path helpers for documents addressed relative to a granted folder tree,
//! and display names of document URIs.

use vstd::prelude::*;
use crate::text::{
    chars_of, copy_chars, eq_chars, join_chars, join_with, replace_all, replace_chars, seqs_view,
    split_chars, split_on, string_of, to_lowercase, unicode_lowercase,
};

verus! {

broadcast use vstd::string::group_string_axioms;

/// The path segments after resolving `.` and `..` left to right: empty and
/// `.` segments are dropped, `..` removes the segment before it (and is
/// dropped at the root).
pub open spec fn resolve_segments(segs: Seq<Seq<char>>) -> Seq<Seq<char>>
    decreases segs.len(),
{
    if segs.len() == 0 {
        Seq::empty()
    } else {
        let out = resolve_segments(segs.drop_last());
        let s = segs.last();
        if s.len() == 0 || s == seq!['.'] {
            out
        } else if s == seq!['.', '.'] {
            if out.len() > 0 {
                out.drop_last()
            } else {
                out
            }
        } else {
            out.push(s)
        }
    }
}

pub open spec fn spec_normalize_rel(path: Seq<char>) -> Seq<char> {
    join_with(resolve_segments(split_on(path, '/')), '/')
}

/// Normalize a tree-relative path: drop empty and `.` segments and resolve
/// `..` against the preceding segment (a `..` at the root is dropped); a
/// leading `/` makes no difference.
pub fn normalize_rel(path: &str) -> (r: String)
    ensures
        r@ == spec_normalize_rel(path@),
{
    let cs = chars_of(path);
    let segs = split_chars(&cs, '/');
    let dot = chars_of(".");
    let dotdot = chars_of("..");
    proof {
        reveal_strlit(".");
        reveal_strlit("..");
    }
    assert(dot@ =~= seq!['.']);
    assert(dotdot@ =~= seq!['.', '.']);
    let mut out: Vec<Vec<char>> = Vec::new();
    for i in 0..segs.len()
        invariant
            dot@ == seq!['.'],
            dotdot@ == seq!['.', '.'],
            seqs_view(out@) == resolve_segments(seqs_view(segs@).take(i as int)),
    {
        let seg = &segs[i];
        let ghost prev = seqs_view(out@);
        assert(seqs_view(segs@).take(i + 1).drop_last() =~= seqs_view(segs@).take(i as int));
        assert(seqs_view(segs@).take(i + 1).last() == seg@);
        if seg.len() == 0 || eq_chars(seg, &dot) {
        } else if eq_chars(seg, &dotdot) {
            if out.len() > 0 {
                out.pop();
                assert(seqs_view(out@) =~= prev.drop_last());
            }
        } else {
            out.push(copy_chars(seg));
            assert(seqs_view(out@) =~= prev.push(seg@));
        }
    }
    assert(seqs_view(segs@).take(segs@.len() as int) =~= seqs_view(segs@));
    let joined = join_chars(&out, '/');
    string_of(&joined)
}

/// The characters of `s` before the first `c` (all of `s` if there is none).
pub open spec fn before_first(s: Seq<char>, c: char) -> Seq<char>
    decreases s.len(),
{
    if s.len() == 0 || s[0] == c {
        Seq::empty()
    } else {
        seq![s[0]] + before_first(s.drop_first(), c)
    }
}

/// The characters of `s` after the last `c` (all of `s` if there is none).
pub open spec fn after_last(s: Seq<char>, c: char) -> Seq<char>
    decreases s.len(),
{
    if s.len() == 0 {
        s
    } else if s.last() == c {
        Seq::empty()
    } else {
        after_last(s.drop_last(), c).push(s.last())
    }
}

pub open spec fn is_name_separator(c: char) -> bool {
    c == '/' || c == ':'
}

/// The characters after the last `/` or `:`.
pub open spec fn last_piece(s: Seq<char>) -> Seq<char>
    decreases s.len(),
{
    if s.len() == 0 {
        s
    } else if is_name_separator(s.last()) {
        Seq::empty()
    } else {
        last_piece(s.drop_last()).push(s.last())
    }
}

/// The last non-empty piece of `s` between `/` and `:` separators (empty
/// if there is none).
pub open spec fn last_name(s: Seq<char>) -> Seq<char>
    decreases s.len(),
{
    if s.len() == 0 {
        s
    } else if is_name_separator(s.last()) {
        last_name(s.drop_last())
    } else {
        last_piece(s)
    }
}

/// `%2F`, `%2f` decoded to `/` and `%3A`, `%3a` decoded to `:`, in that
/// order.
pub open spec fn decode_separators(s: Seq<char>) -> Seq<char> {
    replace_all(
        replace_all(
            replace_all(replace_all(s, seq!['%', '2', 'F'], seq!['/']), seq!['%', '2', 'f'], seq!['/']),
            seq!['%', '3', 'A'],
            seq![':'],
        ),
        seq!['%', '3', 'a'],
        seq![':'],
    )
}

pub open spec fn spec_uri_display_name(uri: Seq<char>) -> Seq<char> {
    let name = last_name(decode_separators(before_first(uri, '?')));
    if name.len() == 0 {
        "(unknown)"@
    } else {
        name
    }
}

pub(crate) fn prefix_before(s: &Vec<char>, c: char) -> (r: Vec<char>)
    ensures
        r@ == before_first(s@, c),
{
    let mut out: Vec<char> = Vec::new();
    let mut i: usize = 0;
    assert(s@.skip(0) =~= s@);
    assert(out@ + before_first(s@, c) =~= before_first(s@, c));
    while i < s.len() && s[i] != c
        invariant
            i <= s@.len(),
            before_first(s@, c) == out@ + before_first(s@.skip(i as int), c),
        decreases s@.len() - i,
    {
        let ghost rest = s@.skip(i as int);
        assert(rest.drop_first() =~= s@.skip(i + 1));
        out.push(s[i]);
        assert(before_first(s@, c) =~= out@ + before_first(s@.skip(i + 1), c));
        i = i + 1;
    }
    assert(before_first(s@.skip(i as int), c) =~= Seq::<char>::empty());
    assert(out@ + Seq::<char>::empty() =~= out@);
    out
}

proof fn lemma_last_piece_take(s: Seq<char>, i: int)
    requires
        0 <= i <= s.len(),
        forall|j: int| i <= j < s.len() ==> !is_name_separator(#[trigger] s[j]),
    ensures
        last_piece(s) == last_piece(s.take(i)) + s.skip(i),
    decreases s.len() - i,
{
    if i == s.len() {
        assert(s.take(i) =~= s);
        assert(s.skip(i) =~= Seq::<char>::empty());
        assert(last_piece(s) + Seq::<char>::empty() =~= last_piece(s));
    } else {
        lemma_last_piece_take(s, i + 1);
        let t = s.take(i + 1);
        assert(t.drop_last() =~= s.take(i));
        assert(t.last() == s[i]);
        assert(last_piece(t.drop_last()).push(s[i]) + s.skip(i + 1) =~= last_piece(s.take(i))
            + s.skip(i));
    }
}

proof fn lemma_last_name_take(s: Seq<char>, i: int)
    requires
        0 <= i <= s.len(),
        forall|j: int| i <= j < s.len() ==> is_name_separator(#[trigger] s[j]),
    ensures
        last_name(s) == last_name(s.take(i)),
    decreases s.len() - i,
{
    if i == s.len() {
        assert(s.take(i) =~= s);
    } else {
        lemma_last_name_take(s, i + 1);
        let t = s.take(i + 1);
        assert(t.drop_last() =~= s.take(i));
        assert(t.last() == s[i]);
    }
}

/// The last non-empty piece of `s` between `/` and `:` separators.
fn last_name_of(s: &Vec<char>) -> (r: Vec<char>)
    ensures
        r@ == last_name(s@),
{
    let mut i: usize = s.len();
    while i > 0 && (s[i - 1] == '/' || s[i - 1] == ':')
        invariant
            i <= s@.len(),
            forall|j: int| i <= j < s.len() ==> is_name_separator(#[trigger] s@[j]),
        decreases i,
    {
        i = i - 1;
    }
    proof {
        lemma_last_name_take(s@, i as int);
    }
    let end = i;
    while i > 0 && !(s[i - 1] == '/' || s[i - 1] == ':')
        invariant
            i <= end <= s@.len(),
            forall|j: int| i <= j < end ==> !is_name_separator(#[trigger] s@[j]),
        decreases i,
    {
        i = i - 1;
    }
    let ghost t = s@.take(end as int);
    proof {
        assert forall|j: int| i <= j < t.len() implies !is_name_separator(#[trigger] t[j]) by {
            assert(t[j] == s@[j]);
        }
        lemma_last_piece_take(t, i as int);
        assert(t.take(i as int) =~= s@.take(i as int));
        if i > 0 {
            let u = s@.take(i as int);
            assert(u.last() == s@[i - 1]);
            assert(last_piece(u) == Seq::<char>::empty());
        } else {
            assert(s@.take(0) =~= Seq::<char>::empty());
        }
        if end > 0 {
            assert(t.last() == s@[end - 1]);
        } else {
            assert(t =~= Seq::<char>::empty());
        }
    }
    let mut out: Vec<char> = Vec::new();
    let mut k: usize = i;
    while k < end
        invariant
            i <= k <= end <= s@.len(),
            out@ == s@.subrange(i as int, k as int),
        decreases end - k,
    {
        out.push(s[k]);
        assert(s@.subrange(i as int, k + 1) =~= s@.subrange(i as int, k as int).push(s@[k as int]));
        k = k + 1;
    }
    assert(t.skip(i as int) =~= s@.subrange(i as int, end as int));
    assert(Seq::<char>::empty() + t.skip(i as int) =~= t.skip(i as int));
    out
}

/// A human-readable name for a document URI, used when the content
/// provider gives none: the query string is dropped, the percent-encoded
/// separators `%2F` and `%3A` (in either case) are decoded, and the last
/// non-empty piece between `/` and `:` separators is the name; `(unknown)`
/// if there is none.
pub fn uri_display_name(uri: &str) -> (r: String)
    ensures
        r@ == spec_uri_display_name(uri@),
{
    let cs = chars_of(uri);
    let base = prefix_before(&cs, '?');
    let p1 = chars_of("%2F");
    let p2 = chars_of("%2f");
    let p3 = chars_of("%3A");
    let p4 = chars_of("%3a");
    let slash = chars_of("/");
    let colon = chars_of(":");
    proof {
        reveal_strlit("%2F");
        reveal_strlit("%2f");
        reveal_strlit("%3A");
        reveal_strlit("%3a");
        reveal_strlit("/");
        reveal_strlit(":");
    }
    assert(p1@ =~= seq!['%', '2', 'F']);
    assert(p2@ =~= seq!['%', '2', 'f']);
    assert(p3@ =~= seq!['%', '3', 'A']);
    assert(p4@ =~= seq!['%', '3', 'a']);
    assert(slash@ =~= seq!['/']);
    assert(colon@ =~= seq![':']);
    let d1 = replace_chars(&base, &p1, &slash);
    let d2 = replace_chars(&d1, &p2, &slash);
    let d3 = replace_chars(&d2, &p3, &colon);
    let d4 = replace_chars(&d3, &p4, &colon);
    let name = last_name_of(&d4);
    if name.len() == 0 {
        "(unknown)".to_string()
    } else {
        string_of(&name)
    }
}

/// Whether a path names a markdown file by its extension (the text after
/// the last `.`, compared case-insensitively): `md`, `markdown`, `mdown`,
/// `mkd` or `mkdn`. A path without a `.` has no extension.
pub open spec fn spec_is_markdown_path(path: Seq<char>) -> bool {
    let ext = unicode_lowercase(after_last(path, '.'));
    &&& path.contains('.')
    &&& ext == "md"@ || ext == "markdown"@ || ext == "mdown"@ || ext == "mkd"@ || ext == "mkdn"@
}

fn has_char(s: &Vec<char>, c: char) -> (b: bool)
    ensures
        b == s@.contains(c),
{
    for i in 0..s.len()
        invariant
            forall|j: int| 0 <= j < i ==> s@[j] != c,
    {
        if s[i] == c {
            assert(s@[i as int] == c);
            return true;
        }
    }
    false
}

fn suffix_after_last(s: &Vec<char>, c: char) -> (r: Vec<char>)
    ensures
        r@ == after_last(s@, c),
{
    let mut i: usize = s.len();
    assert(s@.take(s@.len() as int) =~= s@);
    assert(s@.skip(s@.len() as int) =~= Seq::<char>::empty());
    assert(after_last(s@, c) + Seq::<char>::empty() =~= after_last(s@, c));
    while i > 0 && s[i - 1] != c
        invariant
            i <= s@.len(),
            after_last(s@, c) == after_last(s@.take(i as int), c) + s@.skip(i as int),
        decreases i,
    {
        let ghost t = s@.take(i as int);
        assert(t.drop_last() =~= s@.take(i - 1));
        assert(t.last() == s@[i - 1]);
        assert(after_last(t.drop_last(), c).push(s@[i - 1]) + s@.skip(i as int) =~= after_last(
            s@.take(i - 1),
            c,
        ) + s@.skip(i - 1));
        i = i - 1;
    }
    if i > 0 {
        assert(s@.take(i as int).last() == s@[i - 1]);
    } else {
        assert(s@.take(0) =~= Seq::<char>::empty());
    }
    assert(Seq::<char>::empty() + s@.skip(i as int) =~= s@.skip(i as int));
    let mut out: Vec<char> = Vec::new();
    let mut k: usize = i;
    while k < s.len()
        invariant
            i <= k <= s@.len(),
            out@ == s@.subrange(i as int, k as int),
        decreases s@.len() - k,
    {
        out.push(s[k]);
        assert(s@.subrange(i as int, k + 1) =~= s@.subrange(i as int, k as int).push(s@[k as int]));
        k = k + 1;
    }
    assert(s@.skip(i as int) =~= s@.subrange(i as int, s@.len() as int));
    out
}

/// Whether a path names a markdown file (rather than plain text) by its
/// extension.
pub fn is_markdown_path(path: &str) -> (b: bool)
    ensures
        b == spec_is_markdown_path(path@),
{
    let cs = chars_of(path);
    if !has_char(&cs, '.') {
        return false;
    }
    let ext = suffix_after_last(&cs, '.');
    let ext_str = string_of(&ext);
    let lower = chars_of(to_lowercase(ext_str.as_str()).as_str());
    eq_chars(&lower, &chars_of("md")) || eq_chars(&lower, &chars_of("markdown")) || eq_chars(
        &lower,
        &chars_of("mdown"),
    ) || eq_chars(&lower, &chars_of("mkd")) || eq_chars(&lower, &chars_of("mkdn"))
}

// ---------------------------------------------------------------------------
// Normalizing twice changes nothing
// ---------------------------------------------------------------------------

/// Segments a normalized path consists of: non-empty, neither `.` nor `..`,
/// and free of the separator.
pub open spec fn clean_segments(segs: Seq<Seq<char>>) -> bool {
    forall|i: int|
        0 <= i < segs.len() ==> {
            let s = #[trigger] segs[i];
            &&& s.len() > 0
            &&& s != seq!['.']
            &&& s != seq!['.', '.']
            &&& !s.contains('/')
        }
}

pub open spec fn free_of(segs: Seq<Seq<char>>, sep: char) -> bool {
    forall|i: int| 0 <= i < segs.len() ==> !(#[trigger] segs[i]).contains(sep)
}

proof fn lemma_split_free_of(s: Seq<char>, sep: char)
    ensures
        free_of(split_on(s, sep), sep),
    decreases s.len(),
{
    if s.len() > 0 {
        lemma_split_free_of(s.drop_last(), sep);
        crate::text::lemma_split_nonempty(s.drop_last(), sep);
        let init = split_on(s.drop_last(), sep);
        if s.last() != sep {
            let last = init.last().push(s.last());
            assert(!last.contains(sep)) by {
                if last.contains(sep) {
                    let k = choose|k: int| 0 <= k < last.len() && last[k] == sep;
                    assert(init[init.len() - 1][k] == sep);
                }
            }
        } else {
            assert(!Seq::<char>::empty().contains(sep));
        }
    }
}

proof fn lemma_resolve_clean(segs: Seq<Seq<char>>)
    requires
        free_of(segs, '/'),
    ensures
        clean_segments(resolve_segments(segs)),
    decreases segs.len(),
{
    if segs.len() > 0 {
        lemma_resolve_clean(segs.drop_last());
    }
}

proof fn lemma_resolve_fixed(segs: Seq<Seq<char>>)
    requires
        clean_segments(segs),
    ensures
        resolve_segments(segs) == segs,
    decreases segs.len(),
{
    if segs.len() > 0 {
        let init = segs.drop_last();
        assert(clean_segments(init)) by {
            assert forall|i: int| 0 <= i < init.len() implies {
                let s = #[trigger] init[i];
                &&& s.len() > 0
                &&& s != seq!['.']
                &&& s != seq!['.', '.']
                &&& !s.contains('/')
            } by {
                assert(init[i] == segs[i]);
            }
        }
        lemma_resolve_fixed(init);
        let s = segs.last();
        assert(segs[segs.len() - 1] == s);
        assert(init.push(s) =~= segs);
    }
}

proof fn lemma_split_single(b: Seq<char>, sep: char)
    requires
        !b.contains(sep),
    ensures
        split_on(b, sep) == seq![b],
    decreases b.len(),
{
    if b.len() > 0 {
        let init = b.drop_last();
        assert(!init.contains(sep)) by {
            if init.contains(sep) {
                let k = choose|k: int| 0 <= k < init.len() && init[k] == sep;
                assert(b[k] == sep);
            }
        }
        lemma_split_single(init, sep);
        assert(b.last() != sep) by {
            assert(b[b.len() - 1] == b.last());
        }
        assert(init.push(b.last()) =~= b);
        assert(split_on(init, sep) == seq![init]);
        assert(split_on(b, sep) == split_on(init, sep).update(0, init.push(b.last())));
        assert(seq![init].update(0, init.push(b.last())) =~= seq![b]);
    } else {
        assert(b =~= Seq::<char>::empty());
    }
}

proof fn lemma_split_append(a: Seq<char>, b: Seq<char>, sep: char)
    requires
        !b.contains(sep),
    ensures
        split_on(a.push(sep) + b, sep) == split_on(a, sep).push(b),
    decreases b.len(),
{
    if b.len() == 0 {
        assert(a.push(sep) + b =~= a.push(sep));
        assert(a.push(sep).drop_last() =~= a);
        assert(b =~= Seq::<char>::empty());
    } else {
        let init = b.drop_last();
        assert(!init.contains(sep)) by {
            if init.contains(sep) {
                let k = choose|k: int| 0 <= k < init.len() && init[k] == sep;
                assert(b[k] == sep);
            }
        }
        lemma_split_append(a, init, sep);
        let whole = a.push(sep) + b;
        assert(whole.drop_last() =~= a.push(sep) + init);
        assert(whole.last() == b.last());
        assert(b.last() != sep) by {
            assert(b[b.len() - 1] == b.last());
        }
        assert(init.push(b.last()) =~= b);
        assert(split_on(whole, sep) == split_on(a.push(sep) + init, sep).update(
            split_on(a, sep).len() as int,
            init.push(b.last()),
        ));
        assert(split_on(a, sep).push(init).update(
            split_on(a, sep).len() as int,
            init.push(b.last()),
        ) =~= split_on(a, sep).push(b));
        assert(init.push(b.last()) =~= b);
    }
}

proof fn lemma_split_join(segs: Seq<Seq<char>>, sep: char)
    requires
        segs.len() >= 1,
        free_of(segs, sep),
    ensures
        split_on(join_with(segs, sep), sep) == segs,
    decreases segs.len(),
{
    if segs.len() == 1 {
        assert(!segs[0].contains(sep));
        lemma_split_single(segs[0], sep);
        assert(seq![segs[0]] =~= segs);
    } else {
        let init = segs.drop_last();
        assert(free_of(init, sep)) by {
            assert forall|i: int| 0 <= i < init.len() implies !(#[trigger] init[i]).contains(
                sep,
            ) by {
                assert(init[i] == segs[i]);
            }
        }
        lemma_split_join(init, sep);
        assert(segs[segs.len() - 1] == segs.last());
        lemma_split_append(join_with(init, sep), segs.last(), sep);
        assert(init.push(segs.last()) =~= segs);
    }
}

/// Normalizing a normalized path gives it back unchanged.
pub proof fn lemma_normalize_rel_idempotent(path: Seq<char>)
    ensures
        spec_normalize_rel(spec_normalize_rel(path)) == spec_normalize_rel(path),
{
    let r = resolve_segments(split_on(path, '/'));
    lemma_split_free_of(path, '/');
    lemma_resolve_clean(split_on(path, '/'));
    if r.len() == 0 {
        assert(split_on(Seq::<char>::empty(), '/') == seq![Seq::<char>::empty()]);
        assert(seq![Seq::<char>::empty()].drop_last() =~= Seq::<Seq<char>>::empty());
        let e = seq![Seq::<char>::empty()];
        assert(e.last() == Seq::<char>::empty());
        assert(e.last().len() == 0);
        assert(resolve_segments(e) == resolve_segments(e.drop_last()));
        assert(resolve_segments(e) == Seq::<Seq<char>>::empty());
    } else {
        assert(free_of(r, '/')) by {
            assert forall|i: int| 0 <= i < r.len() implies !(#[trigger] r[i]).contains('/') by {
                let s = r[i];
            }
        }
        lemma_split_join(r, '/');
        lemma_resolve_fixed(r);
    }
}

/// A normalized path has no empty, `.` or `..` segment: it neither starts
/// nor ends with `/`, holds no `//`, and every `..` in the input has been
/// resolved.
pub proof fn lemma_normalize_rel_clean(path: Seq<char>)
    ensures
        clean_segments(resolve_segments(split_on(path, '/'))),
        spec_normalize_rel(path) == join_with(resolve_segments(split_on(path, '/')), '/'),
{
    lemma_split_free_of(path, '/');
    lemma_resolve_clean(split_on(path, '/'));
}

proof fn lemma_last_piece_has_no_separator(s: Seq<char>)
    ensures
        forall|i: int|
            0 <= i < last_piece(s).len() ==> !is_name_separator(#[trigger] last_piece(s)[i]),
    decreases s.len(),
{
    if s.len() > 0 && !is_name_separator(s.last()) {
        lemma_last_piece_has_no_separator(s.drop_last());
        let p = last_piece(s.drop_last());
        assert forall|i: int| 0 <= i < p.push(s.last()).len() implies !is_name_separator(
            #[trigger] p.push(s.last())[i],
        ) by {
            if i < p.len() {
                assert(p.push(s.last())[i] == p[i]);
            }
        }
    }
}

proof fn lemma_last_name_has_no_separator(s: Seq<char>)
    ensures
        forall|i: int|
            0 <= i < last_name(s).len() ==> !is_name_separator(#[trigger] last_name(s)[i]),
    decreases s.len(),
{
    if s.len() > 0 {
        if is_name_separator(s.last()) {
            lemma_last_name_has_no_separator(s.drop_last());
            assert(last_name(s) == last_name(s.drop_last()));
        } else {
            lemma_last_piece_has_no_separator(s);
            assert(last_name(s) == last_piece(s));
        }
    }
}

/// A display name is never empty and is a single name: it holds no `/` and
/// no `:`.
pub proof fn lemma_display_name_is_one_name(uri: Seq<char>)
    ensures
        spec_uri_display_name(uri).len() > 0,
        forall|i: int|
            0 <= i < spec_uri_display_name(uri).len() ==> !is_name_separator(
                #[trigger] spec_uri_display_name(uri)[i],
            ),
{
    reveal_strlit("(unknown)");
    lemma_last_name_has_no_separator(decode_separators(before_first(uri, '?')));
}

} // verus!
