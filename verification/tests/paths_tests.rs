use mdview::paths::{is_markdown_path, normalize_rel, uri_display_name};

#[test]
fn normalize_strips_current_dir() {
    assert_eq!(normalize_rel("./a/b.md"), "a/b.md");
    assert_eq!(normalize_rel("a/./b.md"), "a/b.md");
}

#[test]
fn normalize_resolves_parent() {
    assert_eq!(normalize_rel("sub/../other.md"), "other.md");
    assert_eq!(normalize_rel("a/b/../../c.md"), "c.md");
    assert_eq!(normalize_rel("a/b/../c.md"), "a/c.md");
}

#[test]
fn normalize_strips_leading_slash() {
    assert_eq!(normalize_rel("/notes/x.md"), "notes/x.md");
}

#[test]
fn normalize_collapses_empty_segments() {
    assert_eq!(normalize_rel("a//b.md"), "a/b.md");
    assert_eq!(normalize_rel(""), "");
    assert_eq!(normalize_rel("readme.md"), "readme.md");
}

#[test]
fn normalize_parent_above_root_is_dropped() {
    // `..` with nothing to pop is simply ignored.
    assert_eq!(normalize_rel("../x.md"), "x.md");
    assert_eq!(normalize_rel("../../x.md"), "x.md");
}

#[test]
fn uri_display_name_decodes_saf_document_id() {
    assert_eq!(
        uri_display_name(
            "content://com.android.externalstorage.documents/document/primary%3ADocs%2Fnotes.md"
        ),
        "notes.md"
    );
    assert_eq!(
        uri_display_name(
            "content://com.android.externalstorage.documents/document/primary%3Areadme.md"
        ),
        "readme.md"
    );
}

#[test]
fn uri_display_name_handles_plain_and_lowercase_encoding() {
    assert_eq!(uri_display_name("file:///sdcard/Docs/a.md"), "a.md");
    assert_eq!(uri_display_name("content://x/document/p%3aa%2fb.md"), "b.md");
    // A query string is not part of the name.
    assert_eq!(uri_display_name("content://x/doc/a.md?v=2"), "a.md");
}

#[test]
fn uri_display_name_falls_back_when_empty() {
    assert_eq!(uri_display_name(""), "(unknown)");
    assert_eq!(uri_display_name("content://x/dir/"), "dir");
}

#[test]
fn markdown_extensions_recognized() {
    for p in ["a.md", "A.MARKDOWN", "dir/b.mdown", "c.mkd", "d.mkdn"] {
        assert!(is_markdown_path(p), "expected markdown: {p}");
    }
}

#[test]
fn non_markdown_extensions_rejected() {
    for p in ["a.txt", "b.rs", "c.json", "noext", "d.png"] {
        assert!(!is_markdown_path(p), "expected non-markdown: {p}");
    }
}

#[test]
fn paths_without_a_dot_have_no_extension() {
    for p in ["md", "MKD", "notes/markdown"] {
        assert!(!is_markdown_path(p), "expected non-markdown: {p}");
    }
    assert!(is_markdown_path(".md"));
}
