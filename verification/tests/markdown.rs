use monux::tui::chars::build_byte_to_char_map;
use monux::tui::markdown::{
    apply_style_for_byte_range, blockquote_style_for_depth, heading_style_for_level,
    highlight_list_prefix, highlight_markers, highlight_wikilinks, segment_base_style,
    spans_from_chars_with_styles, Hue, Look, Mods,
};

fn chars(s: &str) -> Vec<char> {
    s.chars().collect()
}

fn only(bold: bool, dim: bool, underlined: bool) -> Mods {
    Mods { bold, dim, italic: false, underlined, crossed_out: false }
}

fn plain_styles(n: usize) -> Vec<Look> {
    vec![Look::plain(); n]
}

#[test]
fn looks_patch_like_terminal_styles() {
    let p = Look::plain();
    let dimmed = p.add_modifier(only(false, true, false));
    assert_eq!(dimmed.add, only(false, true, false));
    let red_bold = p.fg(Hue::Magenta).add_modifier(only(true, false, false));
    let patched = dimmed.patch(red_bold);
    assert_eq!(patched.fg, Some(Hue::Magenta));
    assert_eq!(patched.add, only(true, true, false));
    assert_eq!(p.bg(Hue::Black).patch(p).bg, Some(Hue::Black));
    assert_eq!(heading_style_for_level(p, 1), p.add_modifier(only(true, false, false)).fg(Hue::Cyan));
    assert_eq!(heading_style_for_level(p, 5), p.add_modifier(only(false, true, false)));
    assert_eq!(blockquote_style_for_depth(p, 2), p.fg(Hue::Gray));
    assert_eq!(blockquote_style_for_depth(p, 7), p.fg(Hue::LightBlue).add_modifier(only(false, true, false)));
}

#[test]
fn lines_start_from_quote_or_fence_styles() {
    let p = Look::plain();
    assert_eq!(segment_base_style("  > quote", p), p.fg(Hue::DarkGray));
    assert_eq!(segment_base_style(">> x", p), p.fg(Hue::Gray));
    assert_eq!(segment_base_style("```rust", p), p.bg(Hue::DarkGray).fg(Hue::White));
    assert_eq!(segment_base_style("plain", p), p);
}

#[test]
fn byte_ranges_map_to_characters() {
    let text = "h\u{e9}llo";
    let map = build_byte_to_char_map(text);
    let mut styles = plain_styles(5);
    let green = Look::plain().fg(Hue::Green);
    apply_style_for_byte_range(&mut styles, &map, 1, 3, green);
    assert_eq!(styles[0], Look::plain());
    assert_eq!(styles[1], green);
    assert_eq!(styles[2], Look::plain());
    let mut untouched = plain_styles(5);
    apply_style_for_byte_range(&mut untouched, &map, 3, 3, green);
    assert_eq!(untouched, plain_styles(5));
}

#[test]
fn emphasis_markers_are_styled() {
    let text = chars("a **b** `c`");
    let mut styles = plain_styles(text.len());
    highlight_markers(&text, &mut styles, Look::plain());
    let bold_marker = Look::plain().fg(Hue::Cyan).add_modifier(only(true, false, false));
    let marker = Look::plain().fg(Hue::Magenta).add_modifier(only(false, true, false));
    assert_eq!(styles[2], bold_marker);
    assert_eq!(styles[3], bold_marker);
    assert_eq!(styles[4], Look::plain());
    assert_eq!(styles[6], bold_marker);
    assert_eq!(styles[8], marker);
    assert_eq!(styles[9], Look::plain());
    assert_eq!(styles[10], marker);
}

#[test]
fn wikilinks_are_styled_whole() {
    let text = chars("x [[a]] y [[open");
    let mut styles = plain_styles(text.len());
    highlight_wikilinks(&text, &mut styles, Look::plain());
    let link = Look::plain().fg(Hue::Green).add_modifier(only(false, false, true));
    assert_eq!(styles[1], Look::plain());
    for k in 2..7 {
        assert_eq!(styles[k], link);
    }
    assert_eq!(styles[7], Look::plain());
    assert_eq!(styles[10], Look::plain());
}

#[test]
fn list_markers_and_task_boxes() {
    let p = Look::plain();
    let cyan_bold = p.fg(Hue::Cyan).add_modifier(only(true, false, false));
    let text = chars("- [ ] task");
    let mut styles = plain_styles(text.len());
    highlight_list_prefix(&text, &mut styles, p);
    assert_eq!(styles[0], cyan_bold);
    assert_eq!(styles[1], p);
    assert_eq!(styles[2], p.fg(Hue::Yellow).add_modifier(only(false, true, false)));
    assert_eq!(styles[5], p);

    let numbered = chars("12. item");
    let mut styles = plain_styles(numbered.len());
    highlight_list_prefix(&numbered, &mut styles, p);
    assert_eq!(styles[0], cyan_bold);
    assert_eq!(styles[2], cyan_bold);
    assert_eq!(styles[3], p);
    assert_eq!(styles[4], p.add_modifier(only(false, true, false)));

    let nested = chars("  - x");
    let mut styles = plain_styles(nested.len());
    highlight_list_prefix(&nested, &mut styles, p);
    assert_eq!(styles[0], p.add_modifier(only(false, true, false)));
    assert_eq!(styles[2], cyan_bold);

    let not_a_list = chars("-x");
    let mut styles = plain_styles(not_a_list.len());
    highlight_list_prefix(&not_a_list, &mut styles, p);
    assert_eq!(styles, plain_styles(2));
}

#[test]
fn characters_group_into_runs() {
    let p = Look::plain();
    let q = p.fg(Hue::Blue);
    let runs = spans_from_chars_with_styles(&chars("ab c"), &vec![p, p, q, q]);
    assert_eq!(runs, vec![("ab".to_string(), p), (" c".to_string(), q)]);
    assert_eq!(spans_from_chars_with_styles(&Vec::new(), &Vec::new()), vec![(String::new(), p)]);
}
