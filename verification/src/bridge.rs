//! What the viewer makes of the replies of the Android document bridge: the
//! picker replies, the listing of a granted folder, display names, the reply
//! to an "open externally" request, and the text of a document that was read
//! as bytes. The calls themselves are made by the application shell.

use vstd::prelude::*;
use vstd::utf8::{decode_utf8, valid_utf8};
use crate::paths::{normalize_rel, spec_normalize_rel};
use crate::text::{
    ascii_lowercase, chars_of, is_alphanumeric, is_prefix, push_char, push_str, seqs_view,
    split_chars, split_on, starts_with, string_of, unicode_alphanumeric,
};

verus! {

broadcast use vstd::string::group_string_axioms;

/// The reply of a picker whose user dismissed it without choosing anything;
/// it can never be a real URI.
pub const PICKER_CANCELLED: &'static str = "";

/// The answer of a picker poll.
#[derive(Debug, PartialEq)]
pub enum PickerPoll {
    /// No answer yet: keep waiting.
    Waiting,
    /// The user dismissed the picker.
    Cancelled,
    /// The user picked the document or folder at this URI.
    Picked(String),
}

/// What a picker poll reply means: none yet, the cancel sentinel (the empty
/// string), or the picked URI.
pub fn picker_poll(reply: Option<String>) -> (p: PickerPoll)
    ensures
        reply is None ==> p == PickerPoll::Waiting,
        reply matches Some(s) ==> (s@.len() == 0 ==> p == PickerPoll::Cancelled),
        reply matches Some(s) ==> (s@.len() > 0 ==> p == PickerPoll::Picked(s)),
{
    match reply {
        None => PickerPoll::Waiting,
        Some(s) => {
            if s.as_str().is_empty() {
                PickerPoll::Cancelled
            } else {
                PickerPoll::Picked(s)
            }
        },
    }
}

/// Whether the reply to an "open externally" request says that the intent
/// was dispatched: it is `ok` in any ASCII case.
pub open spec fn spec_open_external(reply: Option<Seq<char>>) -> bool {
    match reply {
        Some(s) => ascii_lowercase(s) == seq!['o', 'k'],
        None => false,
    }
}

/// Whether the bridge's reply to an `openExternal` request reports that the
/// intent was dispatched (no reply counts as failure).
pub fn open_external(reply: Option<String>) -> (dispatched: bool)
    ensures
        dispatched == spec_open_external(
            match reply {
                Some(s) => Some(s@),
                None => None,
            },
        ),
{
    match reply {
        None => false,
        Some(s) => {
            let c = chars_of(s.as_str());
            let lower = crate::text::to_ascii_lowercase(&c);
            let ok = vec!['o', 'k'];
            crate::text::eq_chars(&lower, &ok)
        },
    }
}

/// A document's display name from the bridge's reply: `None` when there is
/// no reply or it is empty (the caller then falls back to
/// [`crate::paths::uri_display_name`]).
pub fn display_name(reply: Option<String>) -> (name: Option<String>)
    ensures
        name matches Some(n) ==> reply matches Some(s) && n@ == s@ && s@.len() > 0,
        name is None ==> (reply is None || reply->0@.len() == 0),
{
    match reply {
        None => None,
        Some(s) => {
            if s.as_str().is_empty() {
                None
            } else {
                Some(s)
            }
        },
    }
}

/// One line of a listing split at `\n`: a line followed by another loses a
/// carriage return that ends it (a `\r\n` line ending); the last line is
/// kept as it is.
pub open spec fn listing_line(parts: Seq<Seq<char>>, i: int) -> Seq<char> {
    if i + 1 < parts.len() && parts[i].len() > 0 && parts[i].last() == '\r' {
        parts[i].drop_last()
    } else {
        parts[i]
    }
}

/// The non-empty lines of the listing `s`, in order (its lines as
/// `str::lines` splits them, without the empty ones).
pub open spec fn listing_lines(s: Seq<char>) -> Seq<Seq<char>> {
    let parts = split_on(s, '\n');
    Seq::new(parts.len(), |i: int| listing_line(parts, i)).filter(|l: Seq<char>| l.len() > 0)
}

/// The tree-relative paths in a folder listing reply, one per non-empty
/// line; no reply lists nothing.
pub fn list_tree_markdown(listing: Option<String>) -> (paths: Vec<String>)
    ensures
        listing is None ==> paths@.len() == 0,
        listing matches Some(s) ==> Seq::new(paths@.len(), |k: int| paths@[k]@) == listing_lines(
            s@,
        ),
{
    let s = match listing {
        None => {
            return Vec::new();
        },
        Some(s) => s,
    };
    let cs = chars_of(s.as_str());
    let parts = split_chars(&cs, '\n');
    let ghost pv = seqs_view(parts@);
    let ghost lines = Seq::new(pv.len(), |i: int| listing_line(pv, i));
    let ghost keep = |l: Seq<char>| l.len() > 0;
    let mut out: Vec<String> = Vec::new();
    let n: usize = parts.len();
    for i in 0..n
        invariant
            n == parts@.len(),
            pv == seqs_view(parts@),
            pv == split_on(cs@, '\n'),
            lines == Seq::new(pv.len(), |i: int| listing_line(pv, i)),
            keep == (|l: Seq<char>| l.len() > 0),
            Seq::new(out@.len(), |k: int| out@[k]@) == lines.take(i as int).filter(keep),
    {
        let part = &parts[i];
        let m: usize = part.len();
        let end: usize = if i + 1 < n && m > 0 && part[m - 1] == '\r' {
            m - 1
        } else {
            m
        };
        let line = crate::text::subrange_chars(part, 0, end);
        assert(line@ =~= lines[i as int]);
        assert(lines.take(i + 1).drop_last() =~= lines.take(i as int));
        proof {
            reveal(Seq::filter);
        }
        if end > 0 {
            let ghost before = Seq::new(out@.len(), |k: int| out@[k]@);
            out.push(string_of(&line));
            assert(Seq::new(out@.len(), |k: int| out@[k]@) =~= before.push(line@));
        }
    }
    assert(lines.take(n as int) =~= lines);
    out
}

/// The text of `std::string::FromUtf8Error` for bytes that are not valid
/// UTF-8 (where the first invalid sequence starts and how long it is).
pub uninterp spec fn utf8_error_text(bytes: Seq<u8>) -> Seq<char>;

/// `String::from_utf8`, its error turned into its text: `Ok` exactly for
/// valid UTF-8, with the characters the bytes encode; `Err` with the error's
/// text otherwise.
#[verifier::external_body]
fn string_from_utf8(bytes: Vec<u8>) -> (r: Result<String, String>)
    ensures
        r is Ok <==> valid_utf8(bytes@),
        r matches Ok(s) ==> s@ == decode_utf8(bytes@),
        r matches Err(e) ==> e@ == utf8_error_text(bytes@),
{
    String::from_utf8(bytes).map_err(|e| e.to_string())
}

/// The message for a document that is not valid UTF-8.
pub open spec fn not_utf8_message(bytes: Seq<u8>) -> Seq<char> {
    "File is not valid UTF-8: "@ + utf8_error_text(bytes)
}

fn concat(a: &str, b: &str) -> (r: String)
    ensures
        r@ == a@ + b@,
{
    let mut s = String::new();
    push_str(&mut s, a);
    push_str(&mut s, b);
    assert(s@ =~= a@ + b@);
    s
}

/// A document's text from the outcome of reading its bytes: a read error
/// passes through, valid UTF-8 is decoded, anything else is refused with a
/// message that gives the decoding error.
pub fn read_to_string(bytes: Result<Vec<u8>, String>) -> (r: Result<String, String>)
    ensures
        bytes matches Err(e) ==> r matches Err(m) && m@ == e@,
        bytes matches Ok(b) ==> (valid_utf8(b@) <==> r is Ok),
        bytes matches Ok(b) ==> (r matches Ok(t) ==> t@ == decode_utf8(b@)),
        bytes matches Ok(b) ==> (r matches Err(m) ==> m@ == not_utf8_message(b@)),
{
    match bytes {
        Err(e) => Err(e),
        Ok(b) => {
            let ghost bv = b@;
            match string_from_utf8(b) {
                Ok(t) => Ok(t),
                Err(e) => {
                    let prefix = "File is not valid UTF-8: ";
                    Err(concat(prefix, e.as_str()))
                },
            }
        },
    }
}

/// A character of a display name as it may stand in a cache file name:
/// letters, digits, `.`, `-` and `_` are kept, anything else becomes `_`.
pub open spec fn file_name_char(c: char) -> char {
    if unicode_alphanumeric(c) || c == '.' || c == '-' || c == '_' {
        c
    } else {
        '_'
    }
}

pub open spec fn spec_cache_file_name(name: Seq<char>) -> Seq<char> {
    "mdview-"@ + Seq::new(name.len(), |i: int| file_name_char(name[i]))
}

/// The name under which a document picked by URI is cached in the app's
/// files directory: `mdview-` and its display name made safe.
pub fn cache_file_name(display_name: &str) -> (name: String)
    ensures
        name@ == spec_cache_file_name(display_name@),
{
    let prefix = "mdview-";
    let mut name = concat(prefix, "");
    proof {
        reveal_strlit("");
    }
    assert(name@ =~= prefix@);
    let cs = chars_of(display_name);
    for i in 0..cs.len()
        invariant
            name@ == prefix@ + Seq::new(i as nat, |k: int| file_name_char(cs@[k])),
    {
        let c = cs[i];
        let keep = is_alphanumeric(c) || c == '.' || c == '-' || c == '_';
        let ghost before = name@;
        push_char(&mut name, if keep { c } else { '_' });
        assert(name@ =~= prefix@ + Seq::new((i + 1) as nat, |k: int| file_name_char(cs@[k])));
    }
    name
}

/// One step of reading a document addressed by a path.
#[derive(Debug, PartialEq)]
pub enum ReadStep {
    /// Read this `content://` URI through the content resolver.
    ContentUri(String),
    /// Read the local file if it can be read; otherwise go on.
    LocalIfReadable,
    /// Resolve this path relative to the granted folder tree.
    TreeRelative { tree: String, rel: String },
    /// Read the local file.
    Local,
}

/// The mathematical value of a [`ReadStep`].
pub enum ReadStepV {
    ContentUri(Seq<char>),
    LocalIfReadable,
    TreeRelative { tree: Seq<char>, rel: Seq<char> },
    Local,
}

impl View for ReadStep {
    type V = ReadStepV;

    open spec fn view(&self) -> ReadStepV {
        match self {
            ReadStep::ContentUri(u) => ReadStepV::ContentUri(u@),
            ReadStep::LocalIfReadable => ReadStepV::LocalIfReadable,
            ReadStep::TreeRelative { tree, rel } => ReadStepV::TreeRelative { tree: tree@, rel: rel@ },
            ReadStep::Local => ReadStepV::Local,
        }
    }
}

/// How a document addressed by `path` is read, in order: a `content://` URI
/// through the resolver and nothing else; otherwise an absolute path is first
/// read locally if it can be (the cache of picked documents, which must win
/// over the granted folder), then, with a folder granted, the normalized path
/// is resolved in the folder, and without one the file is read locally.
pub open spec fn spec_read_plan(path: Seq<char>, is_absolute: bool, tree: Option<Seq<char>>) -> Seq<
    ReadStepV,
> {
    if is_prefix("content://"@, path) {
        seq![ReadStepV::ContentUri(path)]
    } else {
        let last = match tree {
            Some(t) => ReadStepV::TreeRelative { tree: t, rel: spec_normalize_rel(path) },
            None => ReadStepV::Local,
        };
        if is_absolute {
            seq![ReadStepV::LocalIfReadable, last]
        } else {
            seq![last]
        }
    }
}

/// The steps by which the document at `path` is read (see
/// [`spec_read_plan`]); `is_absolute` tells whether the path is absolute and
/// `tree` is the granted folder, if any.
pub fn read_plan(path: &str, is_absolute: bool, tree: Option<String>) -> (steps: Vec<ReadStep>)
    ensures
        Seq::new(steps@.len(), |k: int| steps@[k]@) == spec_read_plan(
            path@,
            is_absolute,
            match tree {
                Some(t) => Some(t@),
                None => None,
            },
        ),
{
    let ghost tv = match &tree {
        Some(t) => Some(t@),
        None => None,
    };
    let cs = chars_of(path);
    let scheme = chars_of("content://");
    let mut steps: Vec<ReadStep> = Vec::new();
    if starts_with(&cs, &scheme) {
        proof {
            reveal_strlit("");
        }
        let p = concat(path, "");
        assert(p@ =~= path@);
        steps.push(ReadStep::ContentUri(p));
    } else {
        if is_absolute {
            steps.push(ReadStep::LocalIfReadable);
        }
        match tree {
            Some(t) => steps.push(ReadStep::TreeRelative { tree: t, rel: normalize_rel(path) }),
            None => steps.push(ReadStep::Local),
        }
    }
    assert(Seq::new(steps@.len(), |k: int| steps@[k]@) =~= spec_read_plan(path@, is_absolute, tv));
    steps
}

/// The message for a `content://` URI that could not be read.
pub fn content_uri_error(path: &str) -> (m: String)
    ensures
        m@ == "Could not read content URI: "@ + path@,
{
    concat("Could not read content URI: ", path)
}

/// The message for a tree-relative path the granted folder does not hold.
pub fn tree_miss_error(rel: &str) -> (m: String)
    ensures
        m@ == "'"@ + rel@ + "' was not found in the opened folder"@,
{
    let quoted = concat("'", rel);
    concat(quoted.as_str(), "' was not found in the opened folder")
}

} // verus!
