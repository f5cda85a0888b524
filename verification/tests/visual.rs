use monux::tui::visual::{
    capture_visual_selection, delete_motion_range, delete_visual_selection,
    normalized_visual_bounds, paste_after_cursor, paste_charwise_after_cursor,
};

fn strings(v: &[&str]) -> Vec<String> {
    v.iter().map(|s| s.to_string()).collect()
}

#[test]
fn visual_bounds_order_the_ends() {
    let lines = strings(&["hello", "world!"]);
    assert_eq!(
        normalized_visual_bounds(&lines, (1, 3), (0, 1), false),
        ((0, 1), (1, 3))
    );
    assert_eq!(
        normalized_visual_bounds(&lines, (0, 1), (1, 3), false),
        ((0, 1), (1, 3))
    );
    assert_eq!(
        normalized_visual_bounds(&lines, (1, 3), (0, 1), true),
        ((0, 0), (1, 5))
    );
    assert_eq!(
        normalized_visual_bounds(&lines, (0, 2), (7, 1), true),
        ((0, 0), (7, 0))
    );
}

#[test]
fn capture_yanks_the_selected_text() {
    let lines = strings(&["hello", "world"]);
    assert_eq!(
        capture_visual_selection(&lines, (0, 1), (1, 2), false),
        Some(("ello\nwor".to_string(), false))
    );
    assert_eq!(
        capture_visual_selection(&lines, (0, 1), (0, 3), false),
        Some(("ell".to_string(), false))
    );
    assert_eq!(
        capture_visual_selection(&lines, (0, 0), (1, 4), true),
        Some(("hello\nworld".to_string(), true))
    );
    let three = strings(&["ab", "cd", "ef"]);
    assert_eq!(
        capture_visual_selection(&three, (0, 1), (2, 0), false),
        Some(("b\ncd\ne".to_string(), false))
    );
    assert_eq!(capture_visual_selection(&lines, (0, 0), (5, 0), true), None);
    assert_eq!(capture_visual_selection(&lines, (0, 0), (5, 0), false), None);
}

#[test]
fn delete_selection_joins_the_ends() {
    let mut lines = strings(&["hello", "world"]);
    assert_eq!(delete_visual_selection(&mut lines, (0, 1), (1, 2), false), (0, 1, true));
    assert_eq!(lines, strings(&["hld"]));

    let mut one = strings(&["hello"]);
    assert_eq!(delete_visual_selection(&mut one, (0, 1), (0, 3), false), (0, 1, true));
    assert_eq!(one, strings(&["ho"]));
}

#[test]
fn delete_selection_of_lines() {
    let mut lines = strings(&["a", "b", "c"]);
    assert_eq!(delete_visual_selection(&mut lines, (0, 0), (1, 0), true), (0, 0, true));
    assert_eq!(lines, strings(&["c"]));

    let mut all = strings(&["a", "b"]);
    assert_eq!(delete_visual_selection(&mut all, (0, 0), (1, 0), true), (0, 0, true));
    assert_eq!(all, strings(&[""]));

    let mut tail = strings(&["a", "b", "c"]);
    assert_eq!(delete_visual_selection(&mut tail, (2, 0), (2, 0), true), (1, 0, true));
    assert_eq!(tail, strings(&["a", "b"]));
}

#[test]
fn paste_charwise_goes_after_the_cursor() {
    let mut lines = strings(&["abc"]);
    assert_eq!(paste_charwise_after_cursor(&mut lines, 0, 0, "XY"), (0, 2));
    assert_eq!(lines, strings(&["aXYbc"]));

    let mut split = strings(&["abc"]);
    assert_eq!(paste_charwise_after_cursor(&mut split, 0, 0, "X\nY"), (1, 0));
    assert_eq!(split, strings(&["aX", "Ybc"]));

    let mut three = strings(&["abc", "z"]);
    assert_eq!(paste_charwise_after_cursor(&mut three, 0, 2, "1\n2\n34"), (2, 1));
    assert_eq!(three, strings(&["abc1", "2", "34", "z"]));

    let mut empty_line = strings(&[""]);
    assert_eq!(paste_charwise_after_cursor(&mut empty_line, 0, 5, "q"), (0, 0));
    assert_eq!(empty_line, strings(&["q"]));
}

#[test]
fn paste_linewise_goes_below_the_cursor() {
    let mut lines = strings(&["a", "b"]);
    assert_eq!(paste_after_cursor(&mut lines, 0, 0, "x\ny", true), (1, 0, true));
    assert_eq!(lines, strings(&["a", "x", "y", "b"]));

    let mut at_end = strings(&["a"]);
    assert_eq!(paste_after_cursor(&mut at_end, 4, 0, "", true), (1, 0, true));
    assert_eq!(at_end, strings(&["a", ""]));

    let mut none: Vec<String> = Vec::new();
    assert_eq!(paste_after_cursor(&mut none, 0, 0, "hi", false), (0, 1, true));
    assert_eq!(none, strings(&["hi"]));
}

#[test]
fn delete_motion_leaves_the_end_out() {
    let mut lines = strings(&["foo bar"]);
    assert_eq!(delete_motion_range(&mut lines, (0, 0), (0, 4), false), Some((0, 0, true)));
    assert_eq!(lines, strings(&["bar"]));

    let mut back = strings(&["foo bar"]);
    assert_eq!(delete_motion_range(&mut back, (0, 4), (0, 0), false), Some((0, 0, true)));
    assert_eq!(back, strings(&["bar"]));

    let mut inclusive = strings(&["foo bar"]);
    assert_eq!(delete_motion_range(&mut inclusive, (0, 0), (0, 2), true), Some((0, 0, true)));
    assert_eq!(inclusive, strings(&[" bar"]));
}

#[test]
fn delete_motion_steps_back_over_a_line_break() {
    let mut lines = strings(&["ab", "cd"]);
    assert_eq!(delete_motion_range(&mut lines, (0, 1), (1, 0), false), Some((0, 1, true)));
    assert_eq!(lines, strings(&["a", "cd"]));

    let mut same = strings(&["ab"]);
    assert_eq!(delete_motion_range(&mut same, (0, 1), (0, 1), false), None);
    assert_eq!(same, strings(&["ab"]));

    let mut none: Vec<String> = Vec::new();
    assert_eq!(delete_motion_range(&mut none, (0, 0), (0, 0), false), None);
    assert_eq!(none, strings(&[""]));
}
