use mdview::highlight::{CodeRun, Highlighter};
use mdview::images::decode_image;
use mdview::theme::Color;

fn text_of(runs: &[CodeRun]) -> String {
    runs.iter().map(|r| r.text.as_str()).collect()
}

#[test]
fn highlighted_code_reads_as_the_code() {
    let mut h = Highlighter::new();
    let code = "fn a() {}\nlet x = \"s\";\n// done";
    let runs = h.highlight(code, Some("rs"), "InspiredGitHub");
    assert_eq!(text_of(&runs), code);
    assert!(runs.iter().any(|r| r.color != runs[0].color));
}

#[test]
fn unknown_theme_shows_plain_grey_code() {
    let mut h = Highlighter::new();
    let runs = h.highlight("a\nb", Some("rust"), "no such theme");
    assert_eq!(runs.len(), 1);
    assert_eq!(runs[0].text, "a\nb");
    assert_eq!(runs[0].color, Color::from_gray(160));
    assert!(!runs[0].italics && !runs[0].underline);
}

#[test]
fn highlighting_again_gives_the_cached_runs() {
    let mut h = Highlighter::new();
    let first = h.highlight("x = 1\n", Some("python"), "base16-ocean.dark");
    let second = h.highlight("x = 1\n", Some("python"), "base16-ocean.dark");
    assert_eq!(first.len(), second.len());
    for (a, b) in first.iter().zip(second.iter()) {
        assert_eq!(a.text, b.text);
        assert_eq!(a.color, b.color);
    }
}

#[test]
fn images_decode_to_rgba() {
    let pixels = vec![255u8, 0, 0, 255, 0, 0, 255, 128];
    let img = image::RgbaImage::from_raw(2, 1, pixels.clone()).unwrap();
    let mut png: Vec<u8> = Vec::new();
    img.write_to(&mut std::io::Cursor::new(&mut png), image::ImageFormat::Png).unwrap();
    let decoded = decode_image(&png).unwrap();
    assert_eq!((decoded.width, decoded.height), (2, 1));
    assert_eq!(decoded.rgba, pixels);
    assert!(decode_image(b"not an image").is_none());
}
