//! Syntax highlighting of code blocks with syntect, and the cache of what
//! was highlighted.

use vstd::prelude::*;
use syntect::easy::HighlightLines;
use syntect::highlighting::ThemeSet;
use syntect::parsing::{SyntaxReference, SyntaxSet};
use std::collections::hash_map::DefaultHasher;
use std::hash::{Hash, Hasher};
use crate::text::{chars_of, push_char, string_of, subrange_chars};
use crate::theme::{gray, rgb, Color};

verus! {

broadcast use vstd::string::group_string_axioms;

#[verifier::external_type_specification]
#[verifier::external_body]
pub struct ExSyntaxSet(SyntaxSet);

#[verifier::external_type_specification]
#[verifier::external_body]
pub struct ExThemeSet(ThemeSet);

#[verifier::external_type_specification]
#[verifier::external_body]
pub struct ExSyntaxReference(SyntaxReference);

/// One highlighted token of a line: its text, its foreground colour and the
/// bits of its font style (1 bold, 2 underline, 4 italic).
pub struct StyledSpan {
    pub text: String,
    pub r: u8,
    pub g: u8,
    pub b: u8,
    pub font_style: u8,
}

/// `SyntaxSet::load_defaults_newlines`: the bundled syntaxes, for lines that
/// keep their line endings.
#[verifier::external_body]
fn load_syntax_set() -> SyntaxSet {
    SyntaxSet::load_defaults_newlines()
}

/// `ThemeSet::load_defaults`: the bundled themes.
#[verifier::external_body]
fn load_theme_set() -> ThemeSet {
    ThemeSet::load_defaults()
}

/// Whether syntect's bundled theme set (`ThemeSet::load_defaults`) holds a
/// theme of this name.
pub uninterp spec fn theme_known(name: Seq<char>) -> bool;

/// Whether syntect's bundled syntax set (`SyntaxSet::load_defaults_newlines`)
/// has a syntax for this token (`find_syntax_by_token`: by file extension,
/// else by name in any case).
pub uninterp spec fn token_known(token: Seq<char>) -> bool;

/// What `HighlightLines::highlight_line` gives for each of `lines`, fed in
/// order to one `HighlightLines` made with the bundled syntax of `token`
/// (the plain text syntax for `None`) and the bundled theme named `theme`:
/// the tokens of each line, `None` for a line that failed.
pub uninterp spec fn syntect_outcomes(
    token: Option<Seq<char>>,
    theme: Seq<char>,
    lines: Seq<Seq<char>>,
) -> Seq<Option<Seq<SpanV>>>;

/// Whether the highlighter's theme set holds a theme of this name
/// (`BTreeMap::contains_key` on `ThemeSet::themes`). A `Highlighter` only
/// ever holds the bundled set.
#[verifier::external_body]
fn has_theme(h: &Highlighter, name: &str) -> (b: bool)
    ensures
        b == theme_known(name@),
{
    h.theme_set.themes.contains_key(name)
}

/// `SyntaxSet::find_syntax_by_token` on the highlighter's (bundled) syntax
/// set: found exactly when the token is known.
#[verifier::external_body]
fn find_syntax_by_token<'a>(h: &'a Highlighter, token: &str) -> (r: Option<&'a SyntaxReference>)
    ensures
        r is Some <==> token_known(token@),
{
    h.syntax_set.find_syntax_by_token(token)
}

/// syntect's highlighting of the lines of one piece of code: a
/// `HighlightLines` is made with the syntax of `token` (`find_syntax_by_token`,
/// or `find_syntax_plain_text` for `None`) and the named theme, and each line
/// is passed to `highlight_line` in order; each result's tokens are turned
/// into [`StyledSpan`]s, a failed line into `None`. The results of a line
/// depend on the lines before it, so all lines go through this one item.
/// The texts of a line's tokens make up the line, as syntect documents for
/// the iterator behind `highlight_line` (`HighlightIterator::next`).
/// The bundled syntax set has a plain text syntax, so that lookup does not
/// fail; the theme and a given token must be known.
#[verifier::external_body]
fn syntect_highlight(
    h: &Highlighter,
    token: Option<&str>,
    theme_name: &str,
    lines: &Vec<String>,
) -> (r: Vec<Option<Vec<StyledSpan>>>)
    requires
        theme_known(theme_name@),
        token matches Some(t) ==> token_known(t@),
    ensures
        r@.len() == lines@.len(),
        outcomes_view(r@) == syntect_outcomes(opt_str(token), theme_name@, strings_view(lines@)),
        tokens_make_lines(strings_view(lines@), outcomes_view(r@)),
{
    let syntax = match token {
        Some(t) => h.syntax_set.find_syntax_by_token(t).unwrap(),
        None => h.syntax_set.find_syntax_plain_text(),
    };
    let mut highlighter = HighlightLines::new(syntax, &h.theme_set.themes[theme_name]);
    let mut out = Vec::new();
    for line in lines {
        out.push(highlighter.highlight_line(line, &h.syntax_set).ok().map(|tokens| tokens.into_iter().map(|(style, text)| StyledSpan {
            text: text.to_string(), r: style.foreground.r, g: style.foreground.g, b: style.foreground.b, font_style: style.font_style.bits(),
        }).collect()));
    }
    out
}

/// The hash of a string by the standard library's `DefaultHasher` (created
/// with `new`, so the same for every run of a given build).
pub uninterp spec fn str_hash(s: Seq<char>) -> u64;

/// The `DefaultHasher` hash of a string, as the highlight cache keys code by.
#[verifier::external_body]
pub(crate) fn hash_str(s: &str) -> (h: u64)
    ensures
        h == str_hash(s@),
{
    let mut hasher = DefaultHasher::new();
    s.hash(&mut hasher);
    hasher.finish()
}

/// The length of the first line of `s` with its `\n` (all of `s` if it has
/// none).
pub open spec fn first_line_len(s: Seq<char>) -> nat
    decreases s.len(),
{
    if s.len() == 0 {
        0
    } else if s[0] == '\n' {
        1
    } else {
        1 + first_line_len(s.drop_first())
    }
}

/// A first line is never longer than the text, and a non-empty text has a
/// non-empty first line.
pub proof fn lemma_first_line_len(s: Seq<char>)
    ensures
        first_line_len(s) <= s.len(),
        s.len() > 0 ==> first_line_len(s) >= 1,
    decreases s.len(),
{
    if s.len() > 0 && s[0] != '\n' {
        lemma_first_line_len(s.drop_first());
    }
}

/// The lines of `s`, each with its line ending (as syntect's
/// `LinesWithEndings` yields them): the last one ends without one if `s`
/// does not end with `\n`.
pub open spec fn lines_with_endings(s: Seq<char>) -> Seq<Seq<char>>
    decreases s.len(),
{
    if s.len() == 0 {
        Seq::empty()
    } else {
        let k = first_line_len(s);
        proof {
            lemma_first_line_len(s);
        }
        seq![s.take(k as int)] + lines_with_endings(s.skip(k as int))
    }
}

/// The concatenation of a sequence of strings.
pub open spec fn concat_all(parts: Seq<Seq<char>>) -> Seq<char>
    decreases parts.len(),
{
    if parts.len() == 0 {
        Seq::empty()
    } else {
        parts[0] + concat_all(parts.drop_first())
    }
}

/// The lines of a text, put back together, are the text.
pub proof fn lemma_lines_rejoin(s: Seq<char>)
    ensures
        concat_all(lines_with_endings(s)) == s,
    decreases s.len(),
{
    if s.len() > 0 {
        lemma_first_line_len(s);
        let k = first_line_len(s);
        lemma_lines_rejoin(s.skip(k as int));
        let ls = lines_with_endings(s);
        assert(ls.drop_first() =~= lines_with_endings(s.skip(k as int)));
        assert(s.take(k as int) + s.skip(k as int) =~= s);
    }
}

fn split_lines_with_endings(code: &str) -> (lines: Vec<String>)
    ensures
        Seq::new(lines@.len(), |i: int| lines@[i]@) == lines_with_endings(code@),
{
    let cs = chars_of(code);
    let n: usize = cs.len();
    let mut lines: Vec<String> = Vec::new();
    let mut i: usize = 0;
    assert(cs@.skip(0) =~= cs@);
    assert(Seq::new(lines@.len(), |k: int| lines@[k]@) + lines_with_endings(cs@.skip(0))
        =~= lines_with_endings(cs@));
    while i < n
        invariant
            n == cs@.len(),
            i <= n,
            cs@ == code@,
            Seq::new(lines@.len(), |k: int| lines@[k]@) + lines_with_endings(cs@.skip(i as int))
                == lines_with_endings(code@),
        decreases n - i,
    {
        let ghost rest = cs@.skip(i as int);
        let mut j: usize = i;
        assert(cs@.skip(j as int) =~= rest);
        while j < n && cs[j] != '\n'
            invariant
                n == cs@.len(),
                i <= j <= n,
                rest == cs@.skip(i as int),
                first_line_len(rest) == (j - i) + first_line_len(cs@.skip(j as int)),
            decreases n - j,
        {
            assert(cs@.skip(j as int).drop_first() =~= cs@.skip(j + 1));
            j = j + 1;
        }
        let end: usize = if j < n {
            j + 1
        } else {
            j
        };
        proof {
            if j < n {
                assert(first_line_len(cs@.skip(j as int)) == 1);
            } else {
                assert(cs@.skip(j as int).len() == 0);
            }
        }
        let line = subrange_chars(&cs, i, end);
        assert(line@ =~= rest.take((end - i) as int));
        let ghost before = Seq::new(lines@.len(), |k: int| lines@[k]@);
        lines.push(string_of(&line));
        assert(rest.skip((end - i) as int) =~= cs@.skip(end as int));
        assert(Seq::new(lines@.len(), |k: int| lines@[k]@) =~= before.push(line@));
        assert(before.push(line@) + lines_with_endings(cs@.skip(end as int)) =~= before + (seq![
            line@,
        ] + lines_with_endings(cs@.skip(end as int))));
        i = end;
    }
    assert(lines_with_endings(cs@.skip(n as int)) =~= Seq::<Seq<char>>::empty()) by {
        assert(cs@.skip(n as int).len() == 0);
    }
    assert(Seq::new(lines@.len(), |k: int| lines@[k]@) + Seq::<Seq<char>>::empty() =~= Seq::new(
        lines@.len(),
        |k: int| lines@[k]@,
    ));
    lines
}

/// A stretch of highlighted code drawn in one format (in the monospace
/// font).
#[derive(Debug)]
pub struct CodeRun {
    pub text: String,
    pub color: Color,
    pub italics: bool,
    /// Underlined with a line of the text colour.
    pub underline: bool,
}

/// The mathematical value of a [`CodeRun`].
pub struct CodeRunV {
    pub text: Seq<char>,
    pub color: Color,
    pub italics: bool,
    pub underline: bool,
}

impl View for CodeRun {
    type V = CodeRunV;

    open spec fn view(&self) -> CodeRunV {
        CodeRunV { text: self.text@, color: self.color, italics: self.italics, underline: self.underline }
    }
}

/// The mathematical value of a [`StyledSpan`].
pub struct SpanV {
    pub text: Seq<char>,
    pub r: u8,
    pub g: u8,
    pub b: u8,
    pub font_style: u8,
}

pub open spec fn span_view(s: StyledSpan) -> SpanV {
    SpanV { text: s.text@, r: s.r, g: s.g, b: s.b, font_style: s.font_style }
}

pub open spec fn spans_view(v: Seq<StyledSpan>) -> Seq<SpanV> {
    Seq::new(v.len(), |k: int| span_view(v[k]))
}

pub open spec fn outcome_view(o: Option<Vec<StyledSpan>>) -> Option<Seq<SpanV>> {
    match o {
        Some(v) => Some(spans_view(v@)),
        None => None,
    }
}

pub open spec fn outcomes_view(v: Seq<Option<Vec<StyledSpan>>>) -> Seq<Option<Seq<SpanV>>> {
    Seq::new(v.len(), |k: int| outcome_view(v[k]))
}

pub open spec fn strings_view(v: Seq<String>) -> Seq<Seq<char>> {
    Seq::new(v.len(), |k: int| v[k]@)
}

pub open spec fn opt_str(o: Option<&str>) -> Option<Seq<char>> {
    match o {
        Some(s) => Some(s@),
        None => None,
    }
}

pub open spec fn code_runs_view(v: Seq<CodeRun>) -> Seq<CodeRunV> {
    Seq::new(v.len(), |k: int| v[k]@)
}

/// Code shown without highlighting: grey, upright, not underlined.
pub open spec fn plain_code_run(text: Seq<char>) -> CodeRunV {
    CodeRunV { text, color: gray(160), italics: false, underline: false }
}

/// The run of a highlighted token: its colour, italic when its font style
/// has the italic bit (4), underlined when it has the underline bit (2).
pub open spec fn span_run(s: SpanV) -> CodeRunV {
    CodeRunV {
        text: s.text,
        color: rgb(s.r, s.g, s.b),
        italics: s.font_style & 4 != 0,
        underline: s.font_style & 2 != 0,
    }
}

/// The runs of one line: its tokens, or the plain line if highlighting it
/// failed.
pub open spec fn line_runs(line: Seq<char>, outcome: Option<Seq<SpanV>>) -> Seq<CodeRunV> {
    match outcome {
        None => seq![plain_code_run(line)],
        Some(spans) => Seq::new(spans.len(), |k: int| span_run(spans[k])),
    }
}

/// The runs of the lines of a piece of code, given what highlighting each
/// line gave.
pub open spec fn code_runs(lines: Seq<Seq<char>>, outcomes: Seq<Option<Seq<SpanV>>>) -> Seq<
    CodeRunV,
>
    decreases lines.len(),
{
    if lines.len() == 0 {
        Seq::empty()
    } else {
        code_runs(lines.drop_last(), outcomes.take(lines.len() - 1)) + line_runs(
            lines.last(),
            outcomes[lines.len() - 1],
        )
    }
}

fn push_code_run(runs: &mut Vec<CodeRun>, run: CodeRun)
    ensures
        code_runs_view(final(runs)@) == code_runs_view(old(runs)@).push(run@),
{
    runs.push(run);
    assert(code_runs_view(runs@) =~= code_runs_view(old(runs)@).push(run@));
}

fn plain_run(text: &str) -> (r: CodeRun)
    ensures
        r@ == plain_code_run(text@),
{
    CodeRun { text: string_of(&chars_of(text)), color: Color::from_gray(160), italics: false, underline: false }
}

fn push_line_runs(runs: &mut Vec<CodeRun>, line: &String, outcome: &Option<Vec<StyledSpan>>)
    ensures
        code_runs_view(final(runs)@) == code_runs_view(old(runs)@) + line_runs(
            line@,
            outcome_view(*outcome),
        ),
{
    match outcome {
        None => {
            push_code_run(runs, plain_run(line.as_str()));
            assert(code_runs_view(runs@) =~= code_runs_view(old(runs)@) + line_runs(line@, None));
        },
        Some(spans) => {
            let ghost sv = spans_view(spans@);
            let ghost r0 = code_runs_view(runs@);
            for k in 0..spans.len()
                invariant
                    sv == spans_view(spans@),
                    code_runs_view(runs@) == r0 + Seq::new(k as nat, |j: int| span_run(sv[j])),
            {
                let sp = &spans[k];
                let bits: u8 = sp.font_style;
                push_code_run(
                    runs,
                    CodeRun {
                        text: sp.text.clone(),
                        color: Color::from_rgb(sp.r, sp.g, sp.b),
                        italics: bits & 4 != 0,
                        underline: bits & 2 != 0,
                    },
                );
                assert(code_runs_view(runs@) =~= r0 + Seq::new((k + 1) as nat, |j: int| span_run(sv[j])));
            }
        },
    }
}

/// syntect's loaded syntaxes and themes, and the runs of the code already
/// highlighted.
pub struct Highlighter {
    syntax_set: SyntaxSet,
    theme_set: ThemeSet,
    cache: Vec<CacheEntry>,
}

struct CacheEntry {
    hash: u64,
    language: String,
    theme: String,
    runs: Vec<CodeRun>,
    /// The code and the language the runs were made from.
    source: Ghost<(Seq<char>, Option<Seq<char>>)>,
}

/// A cache entry: its key (the hash of the code, the language or the empty
/// string, the theme name), the runs stored under it, and the code and
/// language they were made from.
pub struct CacheEntryV {
    pub hash: u64,
    pub language: Seq<char>,
    pub theme: Seq<char>,
    pub runs: Seq<CodeRunV>,
    pub code: Seq<char>,
    pub requested: Option<Seq<char>>,
}

spec fn entry_view(e: CacheEntry) -> CacheEntryV {
    CacheEntryV {
        hash: e.hash,
        language: e.language@,
        theme: e.theme@,
        runs: code_runs_view(e.runs@),
        code: e.source@.0,
        requested: e.source@.1,
    }
}

/// The first entry stored under a key.
pub open spec fn cache_lookup(entries: Seq<CacheEntryV>, hash: u64, language: Seq<char>, theme: Seq<char>) -> Option<
    CacheEntryV,
>
    decreases entries.len(),
{
    if entries.len() == 0 {
        None
    } else if entries[0].hash == hash && entries[0].language == language && entries[0].theme
        == theme {
        Some(entries[0])
    } else {
        cache_lookup(entries.drop_first(), hash, language, theme)
    }
}

/// The key under which a language is cached: its token, or the empty string.
pub open spec fn language_key(language: Option<Seq<char>>) -> Seq<char> {
    match language {
        Some(l) => l,
        None => Seq::empty(),
    }
}

/// The syntax a code block is highlighted with: the one of its language's
/// token when syntect knows it (`Some` of the token), else plain text.
pub open spec fn chosen_token(language: Option<Seq<char>>) -> Option<Seq<char>> {
    match language {
        Some(l) => if token_known(l) {
            Some(l)
        } else {
            None
        },
        None => None,
    }
}

/// The runs of a code block: the plain code when the theme is unknown, else
/// the runs of its lines (with their endings) as syntect highlights them with
/// the chosen syntax and the theme.
pub open spec fn spec_code_runs_for(code: Seq<char>, language: Option<Seq<char>>, theme: Seq<char>) -> Seq<
    CodeRunV,
> {
    if !theme_known(theme) {
        seq![plain_code_run(code)]
    } else {
        let lines = lines_with_endings(code);
        code_runs(lines, syntect_outcomes(chosen_token(language), theme, lines))
    }
}

/// Whether a cache entry holds what highlighting its code gives, under the
/// key of that code and language.
pub open spec fn entry_consistent(e: CacheEntryV) -> bool {
    &&& e.hash == str_hash(e.code)
    &&& e.language == language_key(e.requested)
    &&& e.runs == spec_code_runs_for(e.code, e.requested, e.theme)
    &&& code_text(e.runs) == e.code
}

/// The entry that highlighting a code block afresh stores.
pub open spec fn fresh_entry(code: Seq<char>, language: Option<Seq<char>>, theme: Seq<char>) -> CacheEntryV {
    CacheEntryV {
        hash: str_hash(code),
        language: language_key(language),
        theme,
        runs: spec_code_runs_for(code, language, theme),
        code,
        requested: language,
    }
}

/// The entry found in the cache for a code block: the first one under the
/// key of its hash, its language and the theme.
pub open spec fn cached_for(
    entries: Seq<CacheEntryV>,
    code: Seq<char>,
    language: Option<Seq<char>>,
    theme: Seq<char>,
) -> Option<CacheEntryV> {
    cache_lookup(entries, str_hash(code), language_key(language), theme)
}

/// What [`Highlighter::highlight`] returns for a code block: the runs cached
/// under its key, else the runs of highlighting it afresh.
pub open spec fn highlight_result(
    entries: Seq<CacheEntryV>,
    code: Seq<char>,
    language: Option<Seq<char>>,
    theme: Seq<char>,
) -> Seq<CodeRunV> {
    match cached_for(entries, code, language, theme) {
        Some(e) => e.runs,
        None => spec_code_runs_for(code, language, theme),
    }
}

/// The cache after [`Highlighter::highlight`]: unchanged on a hit, with the
/// fresh entry added on a miss.
pub open spec fn highlight_entries(
    entries: Seq<CacheEntryV>,
    code: Seq<char>,
    language: Option<Seq<char>>,
    theme: Seq<char>,
) -> Seq<CacheEntryV> {
    match cached_for(entries, code, language, theme) {
        Some(_) => entries,
        None => entries.push(fresh_entry(code, language, theme)),
    }
}

pub open spec fn entries_consistent(entries: Seq<CacheEntryV>) -> bool {
    forall|k: int| 0 <= k < entries.len() ==> entry_consistent(#[trigger] entries[k])
}

impl Highlighter {
    /// The cache's entries, oldest first.
    pub closed spec fn entries(&self) -> Seq<CacheEntryV> {
        Seq::new(self.cache@.len(), |k: int| entry_view(self.cache@[k]))
    }

    #[verifier::type_invariant]
    spec fn cache_consistent(self) -> bool {
        entries_consistent(self.entries())
    }

    /// A highlighter with syntect's bundled syntaxes and themes and nothing
    /// cached.
    pub fn new() -> (h: Highlighter)
        ensures
            h.entries().len() == 0,
    {
        let h = Highlighter { syntax_set: load_syntax_set(), theme_set: load_theme_set(), cache: Vec::new() };
        assert(h.entries() =~= Seq::<CacheEntryV>::empty());
        h
    }

    /// Whether nothing is cached.
    pub fn is_cache_empty(&self) -> (b: bool)
        ensures
            b == (self.entries().len() == 0),
    {
        self.cache.len() == 0
    }

    /// Forget everything highlighted so far (on a theme change or a reload).
    pub fn clear_cache(&mut self)
        ensures
            final(self).entries().len() == 0,
    {
        self.cache = Vec::new();
        assert(self.entries() =~= Seq::<CacheEntryV>::empty());
    }

    /// Highlight `code` in `language` with the syntect theme `theme_name`:
    /// code in an unknown theme is shown plain; otherwise it is split into
    /// lines with their endings and the lines are highlighted in order (with
    /// the syntax of the language's token if syntect knows it, else plain
    /// text), a line that fails being shown plain.
    pub fn build_code_runs(&self, code: &str, language: Option<&str>, theme_name: &str) -> (runs: Vec<
        CodeRun,
    >)
        ensures
            code_runs_view(runs@) == spec_code_runs_for(code@, opt_str(language), theme_name@),
            code_text(code_runs_view(runs@)) == code@,
    {
        let mut runs: Vec<CodeRun> = Vec::new();
        if !has_theme(self, theme_name) {
            push_code_run(&mut runs, plain_run(code));
            assert(code_runs_view(runs@) =~= seq![plain_code_run(code@)]);
            proof {
                lemma_plain_reads_as_code(code@);
            }
            return runs;
        }
        let token = match language {
            Some(l) => match find_syntax_by_token(self, l) {
                Some(_) => Some(l),
                None => None,
            },
            None => None,
        };
        assert(opt_str(token) == chosen_token(opt_str(language)));
        let lines = split_lines_with_endings(code);
        let outcomes = syntect_highlight(self, token, theme_name, &lines);
        let ghost lv = strings_view(lines@);
        let ghost ov = outcomes_view(outcomes@);
        assert(lv == lines_with_endings(code@));
        assert(ov.len() == lv.len());
        for i in 0..lines.len()
            invariant
                lv == strings_view(lines@),
                ov == outcomes_view(outcomes@),
                ov.len() == lv.len(),
                code_runs_view(runs@) == code_runs(lv.take(i as int), ov.take(i as int)),
        {
            assert(ov[i as int] == outcome_view(outcomes@[i as int]));
            push_line_runs(&mut runs, &lines[i], &outcomes[i]);
            proof {
                assert(lv.take(i + 1).drop_last() =~= lv.take(i as int));
                assert(ov.take(i + 1).take(i as int) =~= ov.take(i as int));
                assert(lv.take(i + 1).last() == lines@[i as int]@);
                assert(ov.take(i + 1)[i as int] == ov[i as int]);
            }
        }
        assert(lv.take(lv.len() as int) =~= lv);
        assert(ov.take(ov.len() as int) =~= ov);
        proof {
            lemma_highlighted_reads_as_code(code@, ov);
        }
        runs
    }

    /// Highlight a code block, reusing the runs cached under the same key
    /// (the hash of the code, the language or the empty string, the theme
    /// name) if there are any, and caching fresh runs otherwise. Every entry
    /// of the cache holds what highlighting its own code gives.
    pub fn highlight(&mut self, code: &str, language: Option<&str>, theme_name: &str) -> (runs: Vec<
        CodeRun,
    >)
        ensures
            entries_consistent(old(self).entries()),
            entries_consistent(final(self).entries()),
            code_runs_view(runs@) == highlight_result(
                old(self).entries(),
                code@,
                opt_str(language),
                theme_name@,
            ),
            final(self).entries() == highlight_entries(
                old(self).entries(),
                code@,
                opt_str(language),
                theme_name@,
            ),
            code_text(code_runs_view(runs@)) == (match cached_for(
                old(self).entries(),
                code@,
                opt_str(language),
                theme_name@,
            ) {
                Some(e) => e.code,
                None => code@,
            }),
    {
        proof {
            use_type_invariant(&*self);
        }
        let hash = hash_str(code);
        let lang_key = match language {
            Some(l) => string_of(&chars_of(l)),
            None => String::new(),
        };
        let theme_key = string_of(&chars_of(theme_name));
        let ghost es = self.entries();
        let n: usize = self.cache.len();
        let mut k: usize = 0;
        assert(es.skip(0) =~= es);
        while k < n
            invariant
                n == self.cache@.len(),
                k <= n,
                es == self.entries(),
                es == old(self).entries(),
                entries_consistent(es),
                *self == *old(self),
                hash == str_hash(code@),
                lang_key@ == language_key(opt_str(language)),
                theme_key@ == theme_name@,
                cache_lookup(es, hash, lang_key@, theme_key@) == cache_lookup(
                    es.skip(k as int),
                    hash,
                    lang_key@,
                    theme_key@,
                ),
            decreases n - k,
        {
            let e = &self.cache[k];
            assert(es[k as int] == entry_view(self.cache@[k as int]));
            assert(es.skip(k as int)[0] == es[k as int]);
            if e.hash == hash && e.language == lang_key && e.theme == theme_key {
                return copy_code_runs(&e.runs);
            }
            assert(es.skip(k as int).drop_first() =~= es.skip(k + 1));
            k = k + 1;
        }
        assert(es.skip(n as int).len() == 0);
        let runs = self.build_code_runs(code, language, theme_name);
        let stored = copy_code_runs(&runs);
        let ghost entry = CacheEntryV {
            hash: str_hash(code@),
            language: language_key(opt_str(language)),
            theme: theme_name@,
            runs: code_runs_view(runs@),
            code: code@,
            requested: opt_str(language),
        };
        let mut cache: Vec<CacheEntry> = Vec::new();
        std::mem::swap(&mut cache, &mut self.cache);
        cache.push(
            CacheEntry {
                hash,
                language: lang_key,
                theme: theme_key,
                runs: stored,
                source: Ghost((code@, opt_str(language))),
            },
        );
        assert(Seq::new(cache@.len(), |k: int| entry_view(cache@[k])) =~= es.push(entry));
        proof {
            lemma_build_is_consistent(code@, opt_str(language), theme_name@, entry);
        }
        self.cache = cache;
        assert(self.entries() =~= es.push(entry));
        runs
    }
}

fn copy_code_runs(runs: &Vec<CodeRun>) -> (c: Vec<CodeRun>)
    ensures
        code_runs_view(c@) == code_runs_view(runs@),
{
    let mut c: Vec<CodeRun> = Vec::new();
    for k in 0..runs.len()
        invariant
            code_runs_view(c@) == code_runs_view(runs@).take(k as int),
    {
        let r = &runs[k];
        push_code_run(
            &mut c,
            CodeRun { text: r.text.clone(), color: r.color, italics: r.italics, underline: r.underline },
        );
        assert(code_runs_view(runs@).take(k + 1) =~= code_runs_view(runs@).take(k as int).push(
            runs@[k as int]@,
        ));
    }
    assert(code_runs_view(runs@).take(runs@.len() as int) =~= code_runs_view(runs@));
    c
}

proof fn lemma_build_is_consistent(
    code: Seq<char>,
    language: Option<Seq<char>>,
    theme: Seq<char>,
    e: CacheEntryV,
)
    requires
        e.hash == str_hash(code),
        e.language == language_key(language),
        e.theme == theme,
        e.runs == spec_code_runs_for(code, language, theme),
        code_text(e.runs) == code,
        e.code == code,
        e.requested == language,
    ensures
        entry_consistent(e),
        e == fresh_entry(code, language, theme),
{
}

/// Once a code block has been highlighted, highlighting it again with the
/// same language and theme gives the same runs, until the cache is cleared:
/// the entry stored for its key is the one found.
pub proof fn lemma_cache_returns_stored(entries: Seq<CacheEntryV>, e: CacheEntryV)
    requires
        cache_lookup(entries, e.hash, e.language, e.theme) is None,
    ensures
        cache_lookup(entries.push(e), e.hash, e.language, e.theme) == Some(e),
    decreases entries.len(),
{
    if entries.len() > 0 {
        lemma_cache_returns_stored(entries.drop_first(), e);
        assert(entries.push(e).drop_first() =~= entries.drop_first().push(e));
    } else {
        assert(entries.push(e)[0] == e);
    }
}

proof fn lemma_lookup_in_entries(entries: Seq<CacheEntryV>, hash: u64, language: Seq<char>, theme: Seq<char>)
    ensures
        cache_lookup(entries, hash, language, theme) matches Some(e) ==> exists|k: int|
            0 <= k < entries.len() && #[trigger] entries[k] == e && e.hash == hash && e.language
                == language && e.theme == theme,
    decreases entries.len(),
{
    if entries.len() > 0 && !(entries[0].hash == hash && entries[0].language == language
        && entries[0].theme == theme) {
        lemma_lookup_in_entries(entries.drop_first(), hash, language, theme);
        if let Some(e) = cache_lookup(entries, hash, language, theme) {
            let k = choose|k: int|
                0 <= k < entries.drop_first().len() && #[trigger] entries.drop_first()[k] == e;
            assert(entries[k + 1] == e);
        }
    } else if entries.len() > 0 {
        assert(entries[0] == entries[0]);
    }
}

/// Each token of a highlighted line becomes one run, in order: the token's
/// text in the token's foreground colour (its red, green and blue channels,
/// opaque), italic exactly when its font style has the italic bit (4) and
/// underlined exactly when it has the underline bit (2). A line that failed
/// is one grey, upright run of the whole line.
pub proof fn lemma_token_runs(line: Seq<char>, spans: Seq<SpanV>)
    ensures
        line_runs(line, Some(spans)).len() == spans.len(),
        forall|k: int|
            0 <= k < spans.len() ==> {
                let r = #[trigger] line_runs(line, Some(spans))[k];
                &&& r.text == spans[k].text
                &&& r.color == Color { r: spans[k].r, g: spans[k].g, b: spans[k].b, a: 255 }
                &&& r.italics == (spans[k].font_style & 4 != 0)
                &&& r.underline == (spans[k].font_style & 2 != 0)
            },
        line_runs(line, None) == seq![
            CodeRunV {
                text: line,
                color: Color { r: 160, g: 160, b: 160, a: 255 },
                italics: false,
                underline: false,
            },
        ],
{
}

/// Highlighting the same code block twice in a row gives the same runs, and
/// the second call leaves the cache as the first left it.
pub proof fn lemma_highlight_twice(
    entries: Seq<CacheEntryV>,
    code: Seq<char>,
    language: Option<Seq<char>>,
    theme: Seq<char>,
)
    ensures
        highlight_result(highlight_entries(entries, code, language, theme), code, language, theme)
            == highlight_result(entries, code, language, theme),
        highlight_entries(highlight_entries(entries, code, language, theme), code, language, theme)
            == highlight_entries(entries, code, language, theme),
{
    if cached_for(entries, code, language, theme) is None {
        lemma_cache_returns_stored(entries, fresh_entry(code, language, theme));
    }
}

/// With nothing cached (a new highlighter, or after `clear_cache`), a code
/// block is highlighted afresh.
pub proof fn lemma_empty_cache_builds_fresh(code: Seq<char>, language: Option<Seq<char>>, theme: Seq<char>)
    ensures
        highlight_result(Seq::empty(), code, language, theme) == spec_code_runs_for(
            code,
            language,
            theme,
        ),
        highlight_entries(Seq::empty(), code, language, theme) == seq![
            fresh_entry(code, language, theme),
        ],
{
    assert(Seq::<CacheEntryV>::empty().push(fresh_entry(code, language, theme)) =~= seq![
        fresh_entry(code, language, theme),
    ]);
}

/// The cache is invisible unless two code blocks collide: when the entry
/// that a consistent cache holds under the key of `code` in `language` and
/// `theme` (if any) was made from that same code and language, highlighting
/// gives what it gives with nothing cached, that is what highlighting the
/// code afresh gives; so clearing the cache changes no result.
pub proof fn lemma_cache_invisible(
    entries: Seq<CacheEntryV>,
    code: Seq<char>,
    language: Option<Seq<char>>,
    theme: Seq<char>,
)
    requires
        entries_consistent(entries),
        cached_for(entries, code, language, theme) matches Some(e) ==> e.code == code
            && e.requested == language,
    ensures
        highlight_result(entries, code, language, theme) == highlight_result(
            Seq::empty(),
            code,
            language,
            theme,
        ),
{
    lemma_lookup_in_entries(entries, str_hash(code), language_key(language), theme);
    if let Some(e) = cached_for(entries, code, language, theme) {
        let k = choose|k: int| 0 <= k < entries.len() && #[trigger] entries[k] == e;
        assert(entry_consistent(entries[k]));
    }
}

/// The text of a sequence of runs, one after the other.
pub open spec fn code_text(runs: Seq<CodeRunV>) -> Seq<char>
    decreases runs.len(),
{
    if runs.len() == 0 {
        Seq::empty()
    } else {
        runs[0].text + code_text(runs.drop_first())
    }
}

/// The texts of a line's tokens.
pub open spec fn span_texts(spans: Seq<SpanV>) -> Seq<Seq<char>> {
    Seq::new(spans.len(), |k: int| spans[k].text)
}

/// One outcome per line, and the texts of the tokens of each line that was
/// highlighted make up that line.
pub open spec fn tokens_make_lines(lines: Seq<Seq<char>>, o: Seq<Option<Seq<SpanV>>>) -> bool {
    &&& o.len() == lines.len()
    &&& forall|i: int|
        0 <= i < o.len() ==> (#[trigger] o[i] matches Some(sp) ==> concat_all(span_texts(sp))
            == lines[i])
}

proof fn lemma_code_text_concat(a: Seq<CodeRunV>, b: Seq<CodeRunV>)
    ensures
        code_text(a + b) == code_text(a) + code_text(b),
    decreases a.len(),
{
    if a.len() == 0 {
        assert(a + b =~= b);
    } else {
        lemma_code_text_concat(a.drop_first(), b);
        assert((a + b).drop_first() =~= a.drop_first() + b);
        assert(a[0].text + (code_text(a.drop_first()) + code_text(b)) =~= (a[0].text + code_text(
            a.drop_first(),
        )) + code_text(b));
    }
}

proof fn lemma_concat_all_push(parts: Seq<Seq<char>>, x: Seq<char>)
    ensures
        concat_all(parts.push(x)) == concat_all(parts) + x,
    decreases parts.len(),
{
    if parts.len() == 0 {
        assert(parts.push(x).drop_first() =~= Seq::<Seq<char>>::empty());
        assert(concat_all(Seq::<Seq<char>>::empty()) == Seq::<char>::empty());
        assert(concat_all(parts.push(x)) =~= x + Seq::<char>::empty());
    } else {
        lemma_concat_all_push(parts.drop_first(), x);
        assert(parts.push(x).drop_first() =~= parts.drop_first().push(x));
        assert(parts[0] + (concat_all(parts.drop_first()) + x) =~= (parts[0] + concat_all(
            parts.drop_first(),
        )) + x);
    }
}

proof fn lemma_span_runs_text(spans: Seq<SpanV>)
    ensures
        code_text(Seq::new(spans.len(), |k: int| span_run(spans[k]))) == concat_all(span_texts(spans)),
    decreases spans.len(),
{
    if spans.len() > 0 {
        lemma_span_runs_text(spans.drop_first());
        assert(Seq::new(spans.len(), |k: int| span_run(spans[k])).drop_first() =~= Seq::new(
            spans.drop_first().len(),
            |k: int| span_run(spans.drop_first()[k]),
        ));
        assert(span_texts(spans).drop_first() =~= span_texts(spans.drop_first()));
    }
}

proof fn lemma_code_runs_text(lines: Seq<Seq<char>>, o: Seq<Option<Seq<SpanV>>>)
    requires
        o.len() == lines.len(),
        forall|i: int|
            0 <= i < o.len() ==> (#[trigger] o[i] matches Some(sp) ==> concat_all(span_texts(sp))
                == lines[i]),
    ensures
        code_text(code_runs(lines, o)) == concat_all(lines),
    decreases lines.len(),
{
    if lines.len() > 0 {
        let n = lines.len() - 1;
        let o2 = o.take(n as int);
        assert forall|i: int| 0 <= i < o2.len() implies (#[trigger] o2[i] matches Some(sp)
            ==> concat_all(span_texts(sp)) == lines.drop_last()[i]) by {
            assert(o2[i] == o[i]);
        }
        lemma_code_runs_text(lines.drop_last(), o2);
        let last = line_runs(lines.last(), o[n as int]);
        lemma_code_text_concat(code_runs(lines.drop_last(), o2), last);
        match o[n as int] {
            None => {
                assert(last.drop_first() =~= Seq::<CodeRunV>::empty());
                assert(code_text(Seq::<CodeRunV>::empty()) == Seq::<char>::empty());
                assert(code_text(last) =~= lines.last() + Seq::<char>::empty());
            },
            Some(sp) => {
                lemma_span_runs_text(sp);
            },
        }
        lemma_concat_all_push(lines.drop_last(), lines.last());
        assert(lines.drop_last().push(lines.last()) =~= lines);
    }
}

/// Highlighted code reads as the code: when every line whose highlighting
/// succeeded came back as tokens whose texts make up the line, the runs of
/// all lines, one after the other, spell the code; so does code shown plain.
pub proof fn lemma_highlighted_reads_as_code(code: Seq<char>, o: Seq<Option<Seq<SpanV>>>)
    requires
        tokens_make_lines(lines_with_endings(code), o),
    ensures
        code_text(code_runs(lines_with_endings(code), o)) == code,
        code_text(seq![plain_code_run(code)]) == code,
{
    lemma_code_runs_text(lines_with_endings(code), o);
    lemma_lines_rejoin(code);
    lemma_plain_reads_as_code(code);
}

/// Code shown plain reads as the code.
pub proof fn lemma_plain_reads_as_code(code: Seq<char>)
    ensures
        code_text(seq![plain_code_run(code)]) == code,
{
    assert(seq![plain_code_run(code)].drop_first() =~= Seq::<CodeRunV>::empty());
    assert(code_text(Seq::<CodeRunV>::empty()) == Seq::<char>::empty());
    assert(code_text(seq![plain_code_run(code)]) =~= code + Seq::<char>::empty());
}

} // verus!
