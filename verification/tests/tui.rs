use monux::fuzzy::levenshtein;
use monux::tui::blocks::{fenced_code_block_rows, is_fence_line, write_title_to_markdown};
use monux::tui::chars::{
    build_byte_to_char_map, char_class, char_to_byte_idx, first_non_space_char_idx,
    has_list_separator, is_word_char, next_char_boundary, parse_blockquote_prefix, slice_chars,
    split_lines, CharClass,
};
use monux::tui::edit::{
    backspace_in_insert_mode, delete_char_under_cursor, delete_current_line, insert_char, open_line,
    split_line_at_cursor,
};
use monux::tui::fold::{
    preview_heading_row_for_row, preview_heading_section_end, preview_is_row_hidden,
    preview_next_visible_row, preview_prev_visible_row, preview_screen_row_for_source_row,
    toggle_current_heading_fold,
};
use monux::tui::lists::list_continuation_prefix;
use monux::tui::motion::{
    clamp_cursor, move_cursor_left, move_cursor_right, move_word_backward, move_word_end_forward,
    move_word_forward,
};
use monux::tui::names::{display_name_from_note_path, prettify_segment};
use monux::tui::tables::{
    align_markdown_table_lines, align_table_block, is_table_row, is_table_separator_row,
    parse_table_cells, table_separator_cell,
};

fn strings(v: &[&str]) -> Vec<String> {
    v.iter().map(|s| s.to_string()).collect()
}

#[test]
fn word_motions() {
    let lines = strings(&["foo bar", "baz"]);
    assert_eq!(move_word_forward(&lines, 0, 0), (0, 4));
    assert_eq!(move_word_forward(&lines, 0, 4), (1, 0));
    assert_eq!(move_word_forward(&lines, 1, 0), (1, 2));
    assert_eq!(move_word_backward(&lines, 1, 0), (0, 4));
    assert_eq!(move_word_backward(&lines, 0, 4), (0, 0));
    assert_eq!(move_word_end_forward(&lines, 0, 0), (0, 2));
    assert_eq!(move_word_end_forward(&lines, 0, 2), (0, 6));
    assert_eq!(move_word_end_forward(&lines, 0, 6), (1, 2));
    let symbols = strings(&["a.b  c"]);
    assert_eq!(move_word_backward(&symbols, 0, 5), (0, 2));
    assert_eq!(move_word_forward(&symbols, 0, 0), (0, 2));
}

#[test]
fn cursor_moves_and_clamps() {
    let lines = strings(&["ab", "cdef"]);
    assert_eq!(clamp_cursor(&lines, 5, 9), (1, 4));
    assert_eq!(clamp_cursor(&Vec::new(), 5, 9), (0, 0));
    assert_eq!(move_cursor_right(&lines, 0, 1), 2);
    assert_eq!(move_cursor_right(&lines, 0, 2), 2);
    assert_eq!(move_cursor_left(0), 0);
    assert_eq!(move_cursor_left(3), 2);
}

#[test]
fn typing_and_deleting() {
    let mut lines = strings(&["ab"]);
    assert_eq!(insert_char(&mut lines, 0, 1, 'x'), (0, 2, true));
    assert_eq!(lines, vec!["axb"]);
    assert_eq!(insert_char(&mut lines, 0, 3, '['), (0, 4, true));
    assert_eq!(lines, vec!["axb[]"]);
    assert_eq!(backspace_in_insert_mode(&mut lines, 0, 2), (0, 1, true));
    assert_eq!(lines, vec!["ab[]"]);
    let mut lines = strings(&["ab", "cd"]);
    assert_eq!(backspace_in_insert_mode(&mut lines, 1, 0), (0, 2, true));
    assert_eq!(lines, vec!["abcd"]);
    let mut lines = strings(&["ab", "cd"]);
    assert_eq!(delete_char_under_cursor(&mut lines, 0, 2), (0, 2, true));
    assert_eq!(lines, vec!["abcd"]);
    assert_eq!(delete_char_under_cursor(&mut lines, 0, 0), (0, 0, true));
    assert_eq!(lines, vec!["bcd"]);
    let mut lines = strings(&["only"]);
    assert_eq!(delete_current_line(&mut lines, 0, 3), (0, 0, true));
    assert_eq!(lines, vec![""]);
    let mut lines = strings(&["a", "b"]);
    assert_eq!(open_line(&mut lines, 0, true), (1, 0, true));
    assert_eq!(lines, vec!["a", "", "b"]);
    assert_eq!(open_line(&mut lines, 0, false), (0, 0, true));
    assert_eq!(lines, vec!["", "a", "", "b"]);
}

#[test]
fn typing_then_backspace_restores_the_line() {
    let before = strings(&["hello", "world"]);
    let mut lines = before.clone();
    let (r, c, _) = insert_char(&mut lines, 1, 3, 'z');
    assert_eq!(lines, vec!["hello", "worzld"]);
    let (r2, c2, _) = backspace_in_insert_mode(&mut lines, r, c);
    assert_eq!(lines, before);
    assert_eq!((r2, c2), (1, 3));
}

#[test]
fn long_lines_break_before_typing() {
    let long = "x".repeat(105);
    let mut lines = vec![long.clone()];
    let (r, c, dirty) = insert_char(&mut lines, 0, 100, 'y');
    assert!(dirty);
    assert_eq!(lines, vec!["x".repeat(100), "yxxxxx".to_string()]);
    assert_eq!((r, c), (1, 1));
}

#[test]
fn breaking_a_list_item_continues_it() {
    assert_eq!(list_continuation_prefix("  3. task", 9), "  4. ");
    assert_eq!(list_continuation_prefix("- [x] done", 10), "- [ ] ");
    assert_eq!(list_continuation_prefix("* item", 6), "* ");
    assert_eq!(list_continuation_prefix("- ", 2), "");
    assert_eq!(list_continuation_prefix("plain", 5), "");
    let mut lines = strings(&["- item"]);
    assert_eq!(split_line_at_cursor(&mut lines, 0, 6), (1, 2, true));
    assert_eq!(lines, vec!["- item", "- "]);
    let mut lines = strings(&["abcd"]);
    assert_eq!(split_line_at_cursor(&mut lines, 0, 2), (1, 0, true));
    assert_eq!(lines, vec!["ab", "cd"]);
}

#[test]
fn tables_line_up() {
    assert_eq!(parse_table_cells("| a | b |"), vec!["a", "b"]);
    assert!(is_table_row("| a |"));
    assert!(!is_table_row("   "));
    assert!(is_table_separator_row("|---|:-:|"));
    assert!(!is_table_separator_row("| a | - |"));
    assert_eq!(table_separator_cell(":-", 5), ":----");
    assert_eq!(table_separator_cell(" -: ", 1), "--:");
    let mut block = strings(&["|a|bb|", "|-|-|", "|ccc|d|"]);
    align_table_block(&mut block);
    assert_eq!(block, vec!["| a   | bb |", "| --- | --- |", "| ccc | d  |"]);
    let aligned = align_markdown_table_lines(&strings(&["x", "|a|b|", "|-|-|", "|c|d|", "y"]));
    assert_eq!(aligned, vec!["x", "| a | b |", "| --- | --- |", "| c | d |", "y"]);
}

#[test]
fn code_fences_and_titles() {
    let rows = fenced_code_block_rows(&strings(&["a", "```", "code", "```", "b"]));
    assert_eq!(rows, vec![false, true, true, true, false]);
    assert!(is_fence_line("  ```rust"));
    assert!(!is_fence_line("``"));
    assert_eq!(
        write_title_to_markdown("body\n", "My \"T\""),
        "---\ntitle: \"My \\\"T\\\"\"\n---\nbody\n"
    );
    assert_eq!(
        write_title_to_markdown("---\ntitle: old\ntags: [a]\n---\nbody\n", "New"),
        "---\ntitle: \"New\"\ntags: [a]\n---\nbody\n"
    );
}

#[test]
fn names_for_display() {
    assert_eq!(prettify_segment("my-note_title"), "My Note Title");
    assert_eq!(prettify_segment("  --  "), "");
    assert_eq!(display_name_from_note_path("dir/some-note.md"), "Some Note.md");
    assert_eq!(display_name_from_note_path("dir/---"), "---");
}

#[test]
fn characters_and_lines() {
    assert_eq!(first_non_space_char_idx("   x"), 3);
    assert_eq!(first_non_space_char_idx("   "), 0);
    assert_eq!(split_lines("a\nb\n"), vec!["a", "b"]);
    assert!(split_lines("").is_empty());
    assert_eq!(char_class('a'), CharClass::Word);
    assert_eq!(char_class('-'), CharClass::Symbol);
    assert_eq!(char_class(' '), CharClass::Whitespace);
    assert!(is_word_char('_'));
    assert!(!is_word_char('.'));
}

#[test]
fn byte_offsets() {
    assert_eq!(char_to_byte_idx("héllo", 2), 3);
    assert_eq!(char_to_byte_idx("héllo", 10), 6);
    assert_eq!(next_char_boundary("héllo", 1), 3);
    assert_eq!(next_char_boundary("héllo", 0), 1);
    assert_eq!(next_char_boundary("héllo", 6), 6);
    assert!(has_list_separator("- x", 1));
    assert!(!has_list_separator("-x", 1));
    assert!(!has_list_separator("-", 1));
    assert_eq!(parse_blockquote_prefix("> > quote"), Some((2, 4)));
    assert_eq!(parse_blockquote_prefix(">>x"), Some((2, 2)));
    assert_eq!(parse_blockquote_prefix("text"), None);
    assert_eq!(slice_chars("hello", 1, 3), "el");
    assert_eq!(slice_chars("hello", 3, 1), "");
    assert_eq!(build_byte_to_char_map("aé"), vec![0, 1, 2, 2]);
    assert_eq!(build_byte_to_char_map(""), vec![0]);
}

#[test]
fn headings_fold() {
    let lines = strings(&["# A", "text", "## B", "more", "# C"]);
    assert_eq!(preview_heading_section_end(&lines, 0), 4);
    assert_eq!(preview_heading_section_end(&lines, 2), 4);
    assert_eq!(preview_heading_section_end(&lines, 1), 2);
    assert_eq!(preview_heading_row_for_row(&lines, 3), Some(2));
    assert_eq!(preview_heading_row_for_row(&lines, 1), Some(0));
    let mut collapsed: Vec<usize> = Vec::new();
    assert_eq!(toggle_current_heading_fold(&lines, &mut collapsed, 1), Some(true));
    assert_eq!(collapsed, vec![0]);
    assert!(preview_is_row_hidden(&lines, &collapsed, 3));
    assert!(!preview_is_row_hidden(&lines, &collapsed, 4));
    assert_eq!(preview_next_visible_row(&lines, &collapsed, 0), 4);
    assert_eq!(preview_prev_visible_row(&lines, &collapsed, 4), 0);
    assert_eq!(preview_screen_row_for_source_row(&lines, &collapsed, 0, 4), 1);
    assert_eq!(toggle_current_heading_fold(&lines, &mut collapsed, 0), Some(false));
    assert!(collapsed.is_empty());
    assert_eq!(preview_next_visible_row(&lines, &collapsed, 0), 1);
}

#[test]
fn edit_distance() {
    assert_eq!(levenshtein("kitten", "sitting"), 3);
    assert_eq!(levenshtein("", "abc"), 3);
    assert_eq!(levenshtein("same", "same"), 0);
    assert_eq!(levenshtein("ab", "ba"), 2);
}

#[test]
fn folding_twice_from_a_row_restores_the_folds() {
    let lines: Vec<String> = ["# A", "text", "## B", "inner", "# C"].iter().map(|s| s.to_string()).collect();
    let mut collapsed: Vec<usize> = vec![0];
    assert_eq!(toggle_current_heading_fold(&lines, &mut collapsed, 3), Some(true));
    assert_eq!(toggle_current_heading_fold(&lines, &mut collapsed, 3), Some(false));
    assert_eq!(collapsed, vec![0]);
}
