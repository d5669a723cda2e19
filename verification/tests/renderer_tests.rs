use mdview::document::{InlineElement, MdElement};
use mdview::html::{html_to_display_text, strip_html_tags};
use mdview::layout::{extract_text, extract_toc, has_interactive};

#[test]
fn test_extract_text_simple() {
    let inlines = vec![InlineElement::Text("Hello World".to_string())];
    assert_eq!(extract_text(&inlines), "Hello World");
}

#[test]
fn test_extract_text_nested() {
    let inlines = vec![
        InlineElement::Text("Hello ".to_string()),
        InlineElement::Bold(vec![InlineElement::Text("bold".to_string())]),
        InlineElement::Text(" world".to_string()),
    ];
    assert_eq!(extract_text(&inlines), "Hello bold world");
}

#[test]
fn test_has_interactive() {
    let no_interactive = vec![
        InlineElement::Text("hello".to_string()),
        InlineElement::Bold(vec![InlineElement::Text("bold".to_string())]),
    ];
    assert!(!has_interactive(&no_interactive));

    let with_link = vec![
        InlineElement::Text("see ".to_string()),
        InlineElement::Link {
            content: vec![InlineElement::Text("here".to_string())],
            url: "http://example.com".to_string(),
        },
    ];
    assert!(has_interactive(&with_link));

    let nested_link = vec![
        InlineElement::Bold(vec![
            InlineElement::Link {
                content: vec![InlineElement::Text("link".to_string())],
                url: "http://example.com".to_string(),
            },
        ]),
    ];
    assert!(has_interactive(&nested_link));
}

// --- strip_html_tags tests ---

#[test]
fn test_strip_html_tags_simple() {
    assert_eq!(strip_html_tags("<b>bold</b>"), "bold");
}

#[test]
fn test_strip_html_tags_nested() {
    assert_eq!(strip_html_tags("<div><p>text</p></div>"), "text");
}

#[test]
fn test_strip_html_tags_no_tags() {
    assert_eq!(strip_html_tags("plain text"), "plain text");
}

#[test]
fn test_strip_html_tags_empty() {
    assert_eq!(strip_html_tags(""), "");
}

#[test]
fn test_strip_html_tags_self_closing() {
    assert_eq!(strip_html_tags("before<br/>after"), "beforeafter");
}

#[test]
fn test_strip_html_tags_attributes() {
    assert_eq!(strip_html_tags("<a href=\"url\">link</a>"), "link");
}

#[test]
fn test_strip_html_tags_mixed() {
    assert_eq!(strip_html_tags("hello <em>world</em> end"), "hello world end");
}

#[test]
fn test_strip_html_tags_only_tags() {
    assert_eq!(strip_html_tags("<br><hr>"), "");
}

#[test]
fn test_html_to_display_text_preserves_basic_block_structure() {
    let html = "<h1>Welcome</h1><p>This is a test.</p><ul><li>One</li><li>Two</li></ul>";
    assert_eq!(html_to_display_text(html), "Welcome\nThis is a test.\n• One\n• Two");
}

#[test]
fn test_html_to_display_text_decodes_entities_and_ignores_comments() {
    let html = "<!-- comment --><p>&lt;tag&gt; &amp; text</p>";
    assert_eq!(html_to_display_text(html), "<tag> & text");
}

// --- extract_toc tests ---

#[test]
fn test_extract_toc_single_heading() {
    let elements = vec![MdElement::Heading {
        level: 1,
        content: vec![InlineElement::Text("Title".to_string())],
    }];
    let toc = extract_toc(&elements);
    assert_eq!(toc, vec![(1, "Title".to_string(), "title".to_string())]);
}

#[test]
fn test_extract_toc_multiple_headings() {
    let elements = vec![
        MdElement::Heading {
            level: 1,
            content: vec![InlineElement::Text("First".to_string())],
        },
        MdElement::Heading {
            level: 2,
            content: vec![InlineElement::Text("Second".to_string())],
        },
        MdElement::Heading {
            level: 3,
            content: vec![InlineElement::Text("Third".to_string())],
        },
    ];
    let toc = extract_toc(&elements);
    assert_eq!(toc.len(), 3);
    assert_eq!(toc[0], (1, "First".to_string(), "first".to_string()));
    assert_eq!(toc[1], (2, "Second".to_string(), "second".to_string()));
    assert_eq!(toc[2], (3, "Third".to_string(), "third".to_string()));
}

#[test]
fn test_extract_toc_empty() {
    let elements: Vec<MdElement> = vec![];
    let toc = extract_toc(&elements);
    assert!(toc.is_empty());
}

#[test]
fn test_extract_toc_no_headings() {
    let elements = vec![
        MdElement::Paragraph(vec![InlineElement::Text("Just text".to_string())]),
        MdElement::ThematicBreak,
    ];
    let toc = extract_toc(&elements);
    assert!(toc.is_empty());
}

#[test]
fn test_extract_toc_heading_with_special_chars() {
    let elements = vec![MdElement::Heading {
        level: 1,
        content: vec![InlineElement::Text("Hello World!".to_string())],
    }];
    let toc = extract_toc(&elements);
    assert_eq!(toc, vec![(1, "Hello World!".to_string(), "hello-world".to_string())]);
}

#[test]
fn test_extract_toc_heading_with_inline_formatting() {
    let elements = vec![MdElement::Heading {
        level: 2,
        content: vec![
            InlineElement::Bold(vec![InlineElement::Text("Bold".to_string())]),
            InlineElement::Text(" and ".to_string()),
            InlineElement::Italic(vec![InlineElement::Text("Italic".to_string())]),
        ],
    }];
    let toc = extract_toc(&elements);
    assert_eq!(toc.len(), 1);
    assert_eq!(toc[0].0, 2);
    assert_eq!(toc[0].1, "Bold and Italic");
}

// --- extract_text tests ---

#[test]
fn test_extract_text_with_code() {
    let inlines = vec![InlineElement::Code("code".to_string())];
    assert_eq!(extract_text(&inlines), "code");
}

#[test]
fn test_extract_text_with_html() {
    // extract_text strips HTML tags via strip_html_tags
    let inlines = vec![InlineElement::Html("<b>text</b>".to_string())];
    assert_eq!(extract_text(&inlines), "text");
}

#[test]
fn test_extract_text_with_link() {
    let inlines = vec![InlineElement::Link {
        content: vec![InlineElement::Text("click here".to_string())],
        url: "http://example.com".to_string(),
    }];
    assert_eq!(extract_text(&inlines), "click here");
}

#[test]
fn test_extract_text_empty() {
    let inlines: Vec<InlineElement> = vec![];
    assert_eq!(extract_text(&inlines), "");
}

// --- has_interactive tests ---

#[test]
fn test_has_interactive_with_link() {
    let inlines = vec![InlineElement::Link {
        content: vec![InlineElement::Text("link".to_string())],
        url: "http://example.com".to_string(),
    }];
    assert!(has_interactive(&inlines));
}

#[test]
fn test_has_interactive_with_image() {
    let inlines = vec![InlineElement::Image {
        alt: "img".to_string(),
        url: "http://example.com/img.png".to_string(),
    }];
    assert!(has_interactive(&inlines));
}

#[test]
fn test_has_interactive_text_only() {
    let inlines = vec![InlineElement::Text("just text".to_string())];
    assert!(!has_interactive(&inlines));
}

#[test]
fn test_has_interactive_nested_link_in_bold() {
    let inlines = vec![InlineElement::Bold(vec![InlineElement::Link {
        content: vec![InlineElement::Text("link".to_string())],
        url: "http://example.com".to_string(),
    }])];
    assert!(has_interactive(&inlines));
}

#[test]
fn test_has_interactive_with_html() {
    let inlines = vec![InlineElement::Html("<b>text</b>".to_string())];
    assert!(!has_interactive(&inlines));
}
