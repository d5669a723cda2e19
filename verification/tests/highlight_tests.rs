use mdview::highlight::{CodeRun, Highlighter};

fn text_of(runs: &[CodeRun]) -> String {
    runs.iter().map(|r| r.text.as_str()).collect()
}

#[test]
fn test_highlight_rust_produces_nonempty_job() {
    let mut h = Highlighter::new();
    let runs = h.highlight("fn main() {}\n", Some("rust"), "base16-ocean.dark");
    assert!(!text_of(&runs).is_empty());
    assert!(runs.len() > 1, "Expected multiple colored sections for Rust code");
}

#[test]
fn test_highlight_unknown_language_falls_back() {
    let mut h = Highlighter::new();
    let runs = h.highlight("some code\n", Some("nonexistent_lang_xyz"), "base16-ocean.dark");
    assert!(!text_of(&runs).is_empty());
}

#[test]
fn test_highlight_no_language() {
    let mut h = Highlighter::new();
    let runs = h.highlight("just text\n", None, "base16-ocean.dark");
    assert_eq!(text_of(&runs), "just text\n");
}

#[test]
fn test_highlight_caching() {
    let mut h = Highlighter::new();
    let job1 = h.highlight("let x = 1;\n", Some("rust"), "base16-ocean.dark");
    let job2 = h.highlight("let x = 1;\n", Some("rust"), "base16-ocean.dark");
    assert_eq!(text_of(&job1), text_of(&job2));
    assert_eq!(job1.len(), job2.len());
}

#[test]
fn test_clear_cache() {
    let mut h = Highlighter::new();
    h.highlight("code\n", Some("rust"), "base16-ocean.dark");
    assert!(!h.is_cache_empty());
    h.clear_cache();
    assert!(h.is_cache_empty());
}

#[test]
fn test_invalid_theme_falls_back() {
    let mut h = Highlighter::new();
    let runs = h.highlight("code\n", Some("rust"), "nonexistent_theme");
    assert!(!text_of(&runs).is_empty());
}

#[test]
fn highlighted_runs_spell_the_code() {
    let h = Highlighter::new();
    let code = "fn main() {\n    let s = \"hi\"; // note\n}\nno newline at the end";
    let runs = h.build_code_runs(code, Some("rust"), "base16-ocean.dark");
    assert!(runs.len() > 3);
    assert_eq!(text_of(&runs), code);
}

#[test]
fn highlighting_twice_gives_the_same_runs() {
    let mut h = Highlighter::new();
    let first = h.highlight("x = [1, 2]\n", Some("py"), "InspiredGitHub");
    let second = h.highlight("x = [1, 2]\n", Some("py"), "InspiredGitHub");
    assert_eq!(first.len(), second.len());
    for (a, b) in first.iter().zip(second.iter()) {
        assert_eq!(a.text, b.text);
        assert_eq!(a.color, b.color);
        assert_eq!(a.italics, b.italics);
        assert_eq!(a.underline, b.underline);
    }
}

#[test]
fn cached_runs_equal_a_fresh_build() {
    let mut h = Highlighter::new();
    let cached = h.highlight("let y = 2;\n", Some("rust"), "base16-ocean.dark");
    h.clear_cache();
    let fresh = h.build_code_runs("let y = 2;\n", Some("rust"), "base16-ocean.dark");
    assert_eq!(cached.len(), fresh.len());
    for (a, b) in cached.iter().zip(fresh.iter()) {
        assert_eq!(a.text, b.text);
        assert_eq!(a.color, b.color);
    }
}
