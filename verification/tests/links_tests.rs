use mdview::links::{classify_link, heading_to_anchor, is_image_url, LinkAction};

#[test]
fn test_fragment_link() {
    let action = classify_link("#my-heading", "/docs");
    assert_eq!(action, LinkAction::ScrollToAnchor("my-heading".to_string()));
}

#[test]
fn test_http_link() {
    let action = classify_link("https://example.com", "/docs");
    assert_eq!(action, LinkAction::OpenExternal("https://example.com".to_string()));
}

#[test]
fn test_http_md_link_still_external() {
    let action = classify_link("https://github.com/README.md", "/docs");
    assert_eq!(
        action,
        LinkAction::OpenExternal("https://github.com/README.md".to_string())
    );
}

#[test]
fn test_relative_md_link() {
    let action = classify_link("other.md", "/docs");
    assert_eq!(action, LinkAction::NavigateMarkdown("/docs/other.md".to_string()));
}

#[test]
fn test_relative_md_link_in_subdir() {
    let action = classify_link("subdir/notes.md", "/docs");
    assert_eq!(
        action,
        LinkAction::NavigateMarkdown("/docs/subdir/notes.md".to_string())
    );
}

#[test]
fn test_absolute_md_link() {
    let action = classify_link("/home/user/file.md", "/docs");
    assert_eq!(
        action,
        LinkAction::NavigateMarkdown("/home/user/file.md".to_string())
    );
}

#[test]
fn test_markdown_extension_variants() {
    for ext in &["md", "markdown", "mdown", "mkd", "mkdn"] {
        let url = format!("file.{ext}");
        let action = classify_link(&url, "/docs");
        assert!(
            matches!(action, LinkAction::NavigateMarkdown(_)),
            "Expected NavigateMarkdown for .{ext}"
        );
    }
}

#[test]
fn test_text_extension_variants() {
    for ext in &["txt", "text", "log", "py", "rs", "js", "json", "toml"] {
        let url = format!("file.{ext}");
        let action = classify_link(&url, "/docs");
        assert!(
            matches!(action, LinkAction::NavigateTextFile(_)),
            "Expected NavigateTextFile for .{ext}"
        );
    }
}

#[test]
fn test_non_md_local_file_opens_external() {
    let action = classify_link("document.pdf", "/docs");
    assert_eq!(action, LinkAction::OpenExternal("document.pdf".to_string()));
}

#[test]
fn test_mailto_link() {
    let action = classify_link("mailto:user@example.com", "/docs");
    assert_eq!(
        action,
        LinkAction::OpenExternal("mailto:user@example.com".to_string())
    );
}

#[test]
fn test_is_image_url() {
    assert!(is_image_url("photo.png"));
    assert!(is_image_url("photo.JPG"));
    assert!(is_image_url("dir/image.webp"));
    assert!(is_image_url("https://example.com/img.gif?w=200"));
    assert!(!is_image_url("document.pdf"));
    assert!(!is_image_url("readme.md"));
}

#[test]
fn test_heading_to_anchor() {
    assert_eq!(heading_to_anchor("Hello World"), "hello-world");
    assert_eq!(heading_to_anchor("My (Great) Heading!"), "my-great-heading");
    assert_eq!(heading_to_anchor("version 2.0"), "version-20");
    assert_eq!(heading_to_anchor("  spaces  "), "spaces");
}

#[test]
fn anchors_are_their_own_anchors() {
    for text in ["Hello, World! - Part 2", "  --Déjà vu--  ", "API (v2) reference", "Ünïcödé Ärger"] {
        let a = heading_to_anchor(text);
        assert_eq!(heading_to_anchor(&a), a);
    }
}
