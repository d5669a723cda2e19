//! The document the viewer shows: its text, its parsed elements, its table of
//! contents and the error to show in its place, and how they change when the
//! file is read again.

use vstd::prelude::*;
use crate::document::{blocks_view, MdElement};
use crate::events::cmark_events;
use crate::layout::{extract_toc, spec_toc, toc_view};
use crate::parser::{document, parse_markdown, MARKDOWN_OPTIONS};
use crate::text::{push_char, push_str};

verus! {

broadcast use vstd::string::group_string_axioms;

/// The document currently shown.
pub struct DocumentState {
    /// The text last read from the file.
    pub content: String,
    /// The parsed document.
    pub elements: Vec<MdElement>,
    /// Its table of contents (level, text, anchor).
    pub toc: Vec<(u8, String, String)>,
    /// The error shown instead of the document, if any.
    pub error: Option<String>,
}

/// The markdown shown for a plain text file: a heading with the file name
/// and the text in a code block tagged with the file's extension.
pub open spec fn spec_plain_text_markdown(name: Seq<char>, ext: Seq<char>, content: Seq<char>) -> Seq<char> {
    seq!['#', ' '] + name + seq!['\n', '\n', '`', '`', '`'] + ext + seq!['\n'] + content + seq![
        '\n',
        '`',
        '`',
        '`',
    ]
}

/// Whether `d` is parsed from `text`: its elements are the document of
/// `text` and its table of contents is the one of those elements.
pub open spec fn parsed_from(d: DocumentState, text: Seq<char>) -> bool {
    &&& blocks_view(d.elements@) == document(cmark_events(text, MARKDOWN_OPTIONS))
    &&& toc_view(d.toc@) == spec_toc(blocks_view(d.elements@))
}

fn push_chars(s: &mut String, c: Vec<char>)
    ensures
        final(s)@ == old(s)@ + c@,
{
    let ghost before = s@;
    for i in 0..c.len()
        invariant
            s@ == before + c@.take(i as int),
    {
        push_char(s, c[i]);
        assert(c@.take(i + 1) =~= c@.take(i as int).push(c@[i as int]));
    }
    assert(c@.take(c@.len() as int) =~= c@);
}

/// The markdown shown for a plain text file named `name` with extension
/// `ext`.
pub fn plain_text_markdown(name: &str, ext: &str, content: &str) -> (md: String)
    ensures
        md@ == spec_plain_text_markdown(name@, ext@, content@),
{
    let mut md = String::new();
    push_chars(&mut md, vec!['#', ' ']);
    push_str(&mut md, name);
    push_chars(&mut md, vec!['\n', '\n', '`', '`', '`']);
    push_str(&mut md, ext);
    push_chars(&mut md, vec!['\n']);
    push_str(&mut md, content);
    push_chars(&mut md, vec!['\n', '`', '`', '`']);
    assert(md@ =~= spec_plain_text_markdown(name@, ext@, content@));
    md
}

fn message(prefix: Vec<char>, detail: &str) -> (m: String)
    ensures
        m@ == prefix@ + detail@,
{
    let mut m = String::new();
    push_chars(&mut m, prefix);
    push_str(&mut m, detail);
    assert(m@ =~= prefix@ + detail@);
    m
}

pub open spec fn failed_to_read_prefix() -> Seq<char> {
    "Failed to read file: "@
}

pub open spec fn error_reading_prefix() -> Seq<char> {
    "Error reading file: "@
}

impl DocumentState {
    /// The document parsed from `text`.
    pub fn parsed(text: String) -> (d: DocumentState)
        ensures
            d.content@ == text@,
            parsed_from(d, text@),
            d.error is None,
    {
        let elements = parse_markdown(text.as_str());
        let toc = extract_toc(&elements);
        DocumentState { content: text, elements, toc, error: None }
    }

    /// An empty document in whose place `error` is shown.
    pub fn failed(error: String) -> (d: DocumentState)
        ensures
            d.content@.len() == 0,
            d.elements@.len() == 0,
            d.toc@.len() == 0,
            d.error matches Some(e) && e@ == error@,
    {
        DocumentState { content: String::new(), elements: Vec::new(), toc: Vec::new(), error: Some(error) }
    }

    /// The document of a file, from the outcome of reading it: parsed when
    /// it was read, otherwise empty with the reading error reported.
    pub fn open(read: Result<String, String>) -> (d: DocumentState)
        ensures
            read matches Ok(t) ==> d.content@ == t@ && parsed_from(d, t@) && d.error is None,
            read matches Err(e) ==> d.content@.len() == 0 && d.elements@.len() == 0
                && d.toc@.len() == 0,
            read matches Err(e) ==> (d.error matches Some(m) && m@ == failed_to_read_prefix()
                + e@),
    {
        match read {
            Ok(text) => DocumentState::parsed(text),
            Err(e) => {
                proof {
                    reveal_strlit("Failed to read file: ");
                }
                let m = message(
                    vec![
                        'F', 'a', 'i', 'l', 'e', 'd', ' ', 't', 'o', ' ', 'r', 'e', 'a', 'd', ' ',
                        'f', 'i', 'l', 'e', ':', ' ',
                    ],
                    e.as_str(),
                );
                DocumentState::failed(m)
            },
        }
    }

    /// Take in the file as read again. New text is parsed (wrapped as
    /// [`spec_plain_text_markdown`] for a plain text file named `name` with
    /// extension `ext`) and the error cleared; the same text only clears the
    /// error; a reading error is reported and the document kept. Returns
    /// whether the document changed (so that what was derived from it must
    /// be dropped).
    pub fn reload(
        &mut self,
        read: Result<String, String>,
        is_plain_text: bool,
        name: &str,
        ext: &str,
    ) -> (changed: bool)
        ensures
            read matches Ok(t) ==> (changed <==> t@ != old(self).content@),
            read matches Ok(t) ==> final(self).error is None && final(self).content@ == t@,
            read matches Ok(t) ==> (changed ==> parsed_from(
                *final(self),
                if is_plain_text {
                    spec_plain_text_markdown(name@, ext@, t@)
                } else {
                    t@
                },
            )),
            read matches Ok(t) ==> (!changed ==> final(self).elements == old(self).elements
                && final(self).toc == old(self).toc),
            read is Err ==> !changed && final(self).content == old(self).content
                && final(self).elements == old(self).elements && final(self).toc == old(self).toc,
            read matches Err(e) ==> (final(self).error matches Some(m) && m@
                == error_reading_prefix() + e@),
    {
        match read {
            Ok(text) => {
                let changed = text != self.content;
                if changed {
                    let shown = if is_plain_text {
                        plain_text_markdown(name, ext, text.as_str())
                    } else {
                        text.clone()
                    };
                    self.elements = parse_markdown(shown.as_str());
                    self.toc = extract_toc(&self.elements);
                    self.content = text;
                }
                self.error = None;
                changed
            },
            Err(e) => {
                proof {
                    reveal_strlit("Error reading file: ");
                }
                self.error = Some(
                    message(
                        vec![
                            'E', 'r', 'r', 'o', 'r', ' ', 'r', 'e', 'a', 'd', 'i', 'n', 'g', ' ',
                            'f', 'i', 'l', 'e', ':', ' ',
                        ],
                        e.as_str(),
                    ),
                );
                false
            },
        }
    }
}

} // verus!
