use monux::tui::markdown::{Hue, Look};
use monux::tui::render::{render_markdown_segment, render_with_prefix};

#[test]
fn plain_text_is_one_run() {
    let runs = render_markdown_segment("plain words", Look::plain());
    assert_eq!(runs, vec![("plain words".to_string(), Look::plain())]);
}

#[test]
fn emphasis_is_italic_between_its_markers() {
    let runs = render_markdown_segment("  *hi* there", Look::plain());
    let texts: Vec<&str> = runs.iter().map(|(t, _)| t.as_str()).collect();
    assert_eq!(texts, vec!["  ", "*", "hi", "*", " there"]);
    assert_eq!(runs[0].1, Look::plain());
    assert!(runs[2].1.add.italic);
    assert_eq!(runs[1].1.fg, Some(Hue::Magenta));
    assert_eq!(runs[4].1, Look::plain());
}

#[test]
fn inline_code_is_yellow_on_dark_grey() {
    let runs = render_with_prefix("a `b` c", 0, "a `b` c", Look::plain());
    let code = runs.iter().find(|(t, _)| t.contains('b')).unwrap();
    assert_eq!(code.1.bg, Some(Hue::DarkGray));
    assert_eq!(code.1.fg, Some(Hue::Yellow));
}

#[test]
fn strong_text_is_bold() {
    let runs = render_with_prefix("**x**", 0, "**x**", Look::plain());
    let x = runs.iter().find(|(t, _)| t == "x").unwrap();
    assert!(x.1.add.bold);
}

#[test]
fn an_empty_segment_is_one_empty_run() {
    assert_eq!(render_markdown_segment("", Look::plain()), vec![(String::new(), Look::plain())]);
}
