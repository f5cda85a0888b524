use monux::tui::find::{apply_in_note_search, find_in_note, FindOutcome};

fn buffer() -> Vec<String> {
    vec!["Hello world".to_string(), "foo bar".to_string(), "hello again".to_string()]
}

#[test]
fn typed_query_is_trimmed_and_lower_cased() {
    assert_eq!(apply_in_note_search(&buffer(), 0, 0, " HELLO "), FindOutcome::Found { row: 0, col: 0 });
}

#[test]
fn next_match_skips_the_cursor() {
    assert_eq!(find_in_note(&buffer(), 0, 0, "hello", true, true), FindOutcome::Found { row: 2, col: 0 });
}

#[test]
fn forward_search_wraps_to_the_top() {
    assert_eq!(find_in_note(&buffer(), 2, 0, "hello", true, true), FindOutcome::Found { row: 0, col: 0 });
}

#[test]
fn backward_search_goes_up_then_wraps_to_the_bottom() {
    assert_eq!(find_in_note(&buffer(), 2, 0, "hello", false, true), FindOutcome::Found { row: 0, col: 0 });
    assert_eq!(find_in_note(&buffer(), 0, 0, "hello", false, true), FindOutcome::Found { row: 2, col: 0 });
}

#[test]
fn backward_search_takes_the_last_match_before_the_cursor() {
    assert_eq!(find_in_note(&buffer(), 0, 7, "o", false, false), FindOutcome::Found { row: 0, col: 4 });
    assert_eq!(find_in_note(&buffer(), 0, 7, "o", false, true), FindOutcome::Found { row: 0, col: 7 });
}

#[test]
fn cursor_past_the_end_starts_on_the_last_line() {
    assert_eq!(find_in_note(&buffer(), 9, 99, "again", true, false), FindOutcome::NotFound);
    assert_eq!(find_in_note(&buffer(), 9, 99, "again", false, false), FindOutcome::Found { row: 2, col: 6 });
}

#[test]
fn missing_or_empty_query_finds_nothing() {
    assert_eq!(find_in_note(&buffer(), 0, 0, "zzz", true, false), FindOutcome::NotFound);
    assert_eq!(find_in_note(&buffer(), 0, 0, "", true, false), FindOutcome::NotFound);
    assert_eq!(find_in_note(&Vec::new(), 0, 0, "a", true, false), FindOutcome::NotFound);
}

#[test]
fn columns_count_characters() {
    let lines = vec!["ÄÖb".to_string()];
    assert_eq!(find_in_note(&lines, 0, 0, "b", true, false), FindOutcome::Found { row: 0, col: 2 });
    assert_eq!(find_in_note(&lines, 0, 0, "ö", true, false), FindOutcome::Found { row: 0, col: 1 });
}

#[test]
fn lower_casing_that_changes_widths_is_reported() {
    let lines = vec!["\u{212A}elvin".to_string()];
    assert_eq!(find_in_note(&lines, 0, 0, "x", true, false), FindOutcome::Unaligned);
}
