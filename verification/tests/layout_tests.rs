use mdview::document::InlineElement;
use mdview::layout::{
    extract_text, has_interactive, html_block_view, inline_layout, link_click_action, list_marker,
    push_link_click, table_row_fill, toc_menu_label, HtmlBlockView, InlinePiece, RenderAction,
};
use mdview::theme::{Color, Theme};

fn text(s: &str) -> InlineElement {
    InlineElement::Text(s.to_string())
}

fn run_texts(pieces: &[InlinePiece]) -> String {
    pieces
        .iter()
        .map(|p| match p {
            InlinePiece::Run(r) => r.text.clone(),
            _ => String::new(),
        })
        .collect()
}

#[test]
fn bold_text_uses_the_strong_colour() {
    let inlines = vec![text("a"), InlineElement::Bold(vec![text("b")])];
    let pieces = inline_layout(&inlines, Theme::Dark, false);
    assert_eq!(pieces.len(), 2);
    match (&pieces[0], &pieces[1]) {
        (InlinePiece::Run(a), InlinePiece::Run(b)) => {
            assert_eq!(a.color, Theme::Dark.text_color());
            assert_eq!(b.color, Theme::Dark.strong_text_color());
            assert!(!a.monospace && !a.italics && !a.strikethrough);
        }
        _ => panic!("expected two runs"),
    }
}

#[test]
fn code_and_breaks_have_their_own_format() {
    let inlines = vec![
        InlineElement::Italic(vec![InlineElement::Code("c".to_string())]),
        InlineElement::SoftBreak,
        InlineElement::HardBreak,
    ];
    let pieces = inline_layout(&inlines, Theme::Light, false);
    assert_eq!(run_texts(&pieces), "c \n");
    match &pieces[0] {
        InlinePiece::Run(r) => {
            assert!(r.monospace && r.italics);
            assert_eq!(r.background, Theme::Light.code_bg());
        }
        _ => panic!("expected a run"),
    }
    match &pieces[1] {
        InlinePiece::Run(r) => {
            assert!(!r.italics);
            assert_eq!(r.background, Color::transparent());
        }
        _ => panic!("expected a run"),
    }
}

#[test]
fn html_style_carries_over_without_links_only() {
    let plain = vec![
        InlineElement::Html("<b>".to_string()),
        text("x"),
        InlineElement::Html("</b>".to_string()),
        text("y"),
    ];
    let pieces = inline_layout(&plain, Theme::Dark, false);
    assert_eq!(pieces.len(), 2);
    match (&pieces[0], &pieces[1]) {
        (InlinePiece::Run(x), InlinePiece::Run(y)) => {
            assert_eq!(x.color, Theme::Dark.strong_text_color());
            assert_eq!(y.color, Theme::Dark.text_color());
        }
        _ => panic!("expected two runs"),
    }
    let mut mixed = plain;
    mixed.push(InlineElement::Link { content: vec![text("l")], url: "u".to_string() });
    let pieces = inline_layout(&mixed, Theme::Dark, false);
    match &pieces[0] {
        InlinePiece::Run(x) => assert_eq!(x.color, Theme::Dark.text_color()),
        _ => panic!("expected a run"),
    }
}

#[test]
fn links_and_images_become_widgets() {
    let inlines = vec![
        text("see "),
        InlineElement::Bold(vec![InlineElement::Link {
            content: vec![text("here")],
            url: "a.md".to_string(),
        }]),
        InlineElement::Image { alt: "pic".to_string(), url: "p.png".to_string() },
    ];
    assert!(has_interactive(&inlines));
    let pieces = inline_layout(&inlines, Theme::Light, false);
    assert_eq!(pieces.len(), 3);
    assert_eq!(
        pieces[1],
        InlinePiece::Link {
            text: "here".to_string(),
            url: "a.md".to_string(),
            color: Theme::Light.link_color(),
            bold: true,
            italic: false,
        }
    );
    assert_eq!(pieces[2], InlinePiece::Image { alt: "pic".to_string(), url: "p.png".to_string() });
}

#[test]
fn widgets_appear_exactly_when_content_is_interactive() {
    let cases = vec![
        vec![text("a"), InlineElement::Html("<b>".to_string())],
        vec![InlineElement::Strikethrough(vec![InlineElement::Image { alt: "a".to_string(), url: "b".to_string() }])],
        vec![InlineElement::Code("x".to_string())],
    ];
    for inlines in &cases {
        let pieces = inline_layout(inlines, Theme::Dark, false);
        let widgets = pieces.iter().any(|p| !matches!(p, InlinePiece::Run(_)));
        assert_eq!(widgets, has_interactive(inlines));
    }
}

#[test]
fn plain_content_is_drawn_as_its_text() {
    let inlines = vec![
        text("a "),
        InlineElement::Bold(vec![text("b")]),
        InlineElement::SoftBreak,
        InlineElement::Code("c".to_string()),
    ];
    let pieces = inline_layout(&inlines, Theme::Dark, true);
    assert_eq!(run_texts(&pieces), extract_text(&inlines));
    assert_eq!(extract_text(&inlines), "a b c");
}

#[test]
fn list_markers() {
    assert_eq!(list_marker(Some(true), true, Some(3), 0), "\u{2611}");
    assert_eq!(list_marker(Some(false), false, None, 4), "\u{2610}");
    assert_eq!(list_marker(None, true, Some(3), 2), "5.");
    assert_eq!(list_marker(None, true, None, 0), "1.");
    assert_eq!(list_marker(None, true, Some(9), 1), "10.");
    assert_eq!(list_marker(None, false, Some(9), 1), "\u{2022}");
}

#[test]
fn html_blocks() {
    assert_eq!(html_block_view("<!-- c -->"), HtmlBlockView::Nothing);
    assert_eq!(html_block_view(" <br/> "), HtmlBlockView::Space);
    assert_eq!(html_block_view("<hr />"), HtmlBlockView::Rule);
    assert_eq!(html_block_view("<p>Hi &amp; bye</p>"), HtmlBlockView::Text("Hi & bye".to_string()));
    assert_eq!(html_block_view("<div></div>"), HtmlBlockView::Nothing);
}

#[test]
fn table_rows_alternate() {
    assert_eq!(table_row_fill(Theme::Light, 0), Theme::Light.table_stripe_bg());
    assert_eq!(table_row_fill(Theme::Light, 1), Color::transparent());
    assert_eq!(table_row_fill(Theme::Dark, 2), Theme::Dark.table_stripe_bg());
}

#[test]
fn contents_menu_labels_indent_by_level() {
    assert_eq!(toc_menu_label(1, "Top"), "Top");
    assert_eq!(toc_menu_label(3, "Sub"), "    Sub");
    assert_eq!(toc_menu_label(0, "x"), "x");
}

#[test]
fn link_clicks_ask_for_the_classified_action() {
    assert_eq!(link_click_action("#sec", "/docs"), RenderAction::ScrollToAnchor("sec".to_string()));
    assert_eq!(link_click_action("other.md", "/docs"), RenderAction::NavigateMarkdown("/docs/other.md".to_string()));
    assert_eq!(link_click_action("notes.txt", "/docs"), RenderAction::NavigateTextFile("/docs/notes.txt".to_string()));
    assert_eq!(link_click_action("https://x.org", "/docs"), RenderAction::OpenExternal("https://x.org".to_string()));
}

#[test]
fn clicked_links_append_their_action() {
    let mut actions = vec![RenderAction::OpenExternal("x".to_string())];
    push_link_click(&mut actions, false, "a.md", "/d");
    assert_eq!(actions.len(), 1);
    push_link_click(&mut actions, true, "a.md", "/d");
    assert_eq!(actions, vec![RenderAction::OpenExternal("x".to_string()), RenderAction::NavigateMarkdown("/d/a.md".to_string())]);
}

#[test]
fn bullets_and_task_boxes_take_any_index() {
    assert_eq!(list_marker(None, false, Some(u64::MAX), 5), "\u{2022}");
    assert_eq!(list_marker(Some(true), true, Some(u64::MAX), 5), "\u{2611}");
}
