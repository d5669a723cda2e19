use mdview::html::{
    decode_html_entities, html_to_display_text, is_horizontal_rule_tag, is_html_comment,
    is_line_break_tag, strip_html_tags,
};
use mdview::style::{apply_inline_html_style, parse_html_color, parse_named_color, InlineStyleState};
use mdview::theme::Color;

#[test]
fn html_comment_needs_both_ends() {
    assert!(is_html_comment("<!-- note -->"));
    assert!(is_html_comment("<!---->"));
    assert!(!is_html_comment("<!-- open"));
    assert!(!is_html_comment("text -->"));
}

#[test]
fn line_break_and_rule_tags_are_exact() {
    for t in ["<br>", "<br/>", "<br />"] {
        assert!(is_line_break_tag(t), "{t}");
    }
    assert!(!is_line_break_tag("<BR>"));
    assert!(!is_line_break_tag(" <br>"));
    for t in ["<hr>", "<hr/>", "<hr />"] {
        assert!(is_horizontal_rule_tag(t), "{t}");
    }
    assert!(!is_horizontal_rule_tag("<hr  />"));
}

#[test]
fn stripped_text_has_no_brackets_and_stripping_twice_changes_nothing() {
    for s in ["a <b>c</b> > d", "<<x>>y", "x > y < z", "plain"] {
        let once = strip_html_tags(s);
        assert!(!once.contains('<') && !once.contains('>'), "{once}");
        assert_eq!(strip_html_tags(&once), once);
    }
    assert_eq!(strip_html_tags("a > b"), "a  b");
    assert_eq!(strip_html_tags("unterminated <tag"), "unterminated ");
}

#[test]
fn entities_decode_in_order_and_once() {
    assert_eq!(decode_html_entities("&lt;a&gt; &quot;b&quot; &#39;c&#39;&nbsp;d"), "<a> \"b\" 'c' d");
    assert_eq!(decode_html_entities("&amp;lt;"), "&lt;");
    assert_eq!(decode_html_entities("no entities"), "no entities");
}

#[test]
fn display_text_of_breaks_rules_and_items() {
    assert_eq!(html_to_display_text("line<br>two"), "line\ntwo");
    assert_eq!(html_to_display_text("<hr>"), "");
    assert_eq!(html_to_display_text("a<hr/>b"), "a\nb");
    assert_eq!(html_to_display_text("a<li>b"), "a\n\u{2022} b");
    assert_eq!(html_to_display_text("<b>unterminated"), "unterminated");
    assert_eq!(html_to_display_text("x < y"), "x");
    assert_eq!(html_to_display_text("<P>Up</P>next"), "Up\nnext");
    assert_eq!(html_to_display_text("  <div> spaced </div>  "), "spaced");
}

#[test]
fn named_colors_ignore_case_and_whitespace() {
    assert_eq!(parse_named_color(" Red "), Some(Color::from_rgb(220, 60, 60)));
    assert_eq!(parse_named_color("GREY"), Some(Color::from_gray(140)));
    assert_eq!(parse_named_color("gray"), Some(Color::from_gray(140)));
    assert_eq!(parse_named_color("orange"), Some(Color::from_rgb(230, 126, 34)));
    assert_eq!(parse_named_color("yellow"), Some(Color::from_rgb(241, 196, 15)));
    assert_eq!(parse_named_color("purple"), None);
}

#[test]
fn html_color_from_style_attribute() {
    assert_eq!(parse_html_color("<span style=\"color: red\">"), Some(Color::from_rgb(220, 60, 60)));
    assert_eq!(parse_html_color("<span style='color:blue;'>"), Some(Color::from_rgb(66, 133, 244)));
    assert_eq!(parse_html_color("<SPAN STYLE=\"COLOR: Green\">"), Some(Color::from_rgb(46, 160, 67)));
    assert_eq!(parse_html_color("<span class=\"x\">"), None);
    assert_eq!(parse_html_color("<span style=\"color\">"), None);
    assert_eq!(parse_html_color("<span style=\"color: teal\">"), None);
}

#[test]
fn inline_style_tags_switch_properties() {
    let mut st = InlineStyleState::default();
    assert!(apply_inline_html_style(" <B> ", &mut st));
    assert!(st.bold);
    assert!(apply_inline_html_style("</strong>", &mut st));
    assert!(!st.bold);
    assert!(apply_inline_html_style("<em>", &mut st));
    assert!(st.italic);
    assert!(apply_inline_html_style("<del>", &mut st));
    assert!(st.strikethrough);
    assert!(apply_inline_html_style("<code>", &mut st));
    assert!(st.html_code);
    assert!(apply_inline_html_style("<span style=\"color: red\">", &mut st));
    assert_eq!(st.color_override, Some(Color::from_rgb(220, 60, 60)));
    assert!(apply_inline_html_style("</span>", &mut st));
    assert_eq!(st.color_override, None);
    let before = st;
    assert!(!apply_inline_html_style("<div>", &mut st));
    assert_eq!(st, before);
}
