use mdview::html::strip_html_tags;
use mdview::links::heading_to_anchor;

#[test]
fn test_strip_html_tags_from_integration() {
    assert_eq!(strip_html_tags("<b>bold</b>"), "bold");
    assert_eq!(strip_html_tags("no tags"), "no tags");
    assert_eq!(strip_html_tags("<p>hello</p> <em>world</em>"), "hello world");
    assert_eq!(strip_html_tags(""), "");
    assert_eq!(strip_html_tags("<br/>"), "");
}

#[test]
fn test_heading_to_anchor_from_integration() {
    assert_eq!(heading_to_anchor("Hello World"), "hello-world");
    assert_eq!(heading_to_anchor("Section 1: Headings"), "section-1-headings");
    assert_eq!(heading_to_anchor("ALL CAPS"), "all-caps");
    assert_eq!(heading_to_anchor("special!@#chars"), "specialchars");
}
