use monux::tui::screen::new_note_labels;
use monux::tui::search::GlobalSearchResult;
use monux::tui::screen::{search_hit_rows, HitRow};
use monux::tui::layout::{
    centered_rect, centered_rect_with_offset, cursor_place, help_lines_shown, pane_columns, place_command_cursor,
    place_editor_cursor, place_global_search_cursor, place_new_dir_cursor, place_new_note_cursor, place_rename_cursor,
    popups_to_draw, Area, CursorPlace, OpenPopups, Popup,
};
use monux::tui::keys::NewNoteField;
use monux::tui::markdown::{Hue, Look};
use monux::tui::panes::FocusPane;
use monux::tui::screen::{footer_text, notes_row_look, preview_rows, relative_gutter};

fn note() -> Vec<String> {
    ["# Title", "text", "```", "code", "```", "## Sub", "hidden"].iter().map(|s| s.to_string()).collect()
}

#[test]
fn preview_rows_carry_gutters_headings_and_code() {
    let rows = preview_rows(&note(), &vec![5], None, 1, 0, 10);
    let got: Vec<(usize, String, Option<bool>, bool)> =
        rows.iter().map(|r| (r.source, r.gutter.clone(), r.heading, r.code)).collect();
    assert_eq!(
        got,
        vec![
            (0, "   1 ".to_string(), Some(false), false),
            (1, "   0 ".to_string(), None, false),
            (2, "   1 ".to_string(), None, true),
            (3, "   2 ".to_string(), None, true),
            (4, "   3 ".to_string(), None, true),
            (5, "   4 ".to_string(), Some(true), false),
        ]
    );
}

#[test]
fn preview_rows_follow_the_scroll_and_the_selection() {
    let rows = preview_rows(&note(), &vec![], Some(((1, 1), (1, 2))), 1, 1, 2);
    assert_eq!(rows.len(), 2);
    assert_eq!(rows[0].source, 1);
    assert_eq!(rows[0].selection, Some((1, 3)));
    assert_eq!(rows[1].source, 2);
    assert_eq!(rows[1].selection, None);
    assert!(preview_rows(&Vec::new(), &vec![], None, 0, 0, 5).is_empty());
}

#[test]
fn wide_distances_overflow_the_gutter() {
    assert_eq!(relative_gutter(12345, 0), "12345 ");
    assert_eq!(relative_gutter(3, 10), "   7 ");
}

#[test]
fn footer_shows_action_results_only() {
    let base = " Focus: PREVIEW | Mode: NORMAL | Help: ? ";
    assert_eq!(footer_text(FocusPane::Preview, "NORMAL", "  saved note  "), format!("{base} saved note"));
    assert_eq!(footer_text(FocusPane::Preview, "NORMAL", "-- INSERT --"), base);
    assert_eq!(footer_text(FocusPane::Preview, "NORMAL", "new note"), base);
    assert_eq!(footer_text(FocusPane::Preview, "NORMAL", "   "), base);
    assert_eq!(footer_text(FocusPane::Notes, "TREE", ""), " Focus: NOTES | Mode: TREE | Help: ? ");
}

#[test]
fn tree_rows_are_styled_by_their_marks() {
    assert!(notes_row_look("..").add.dim);
    assert_eq!(notes_row_look("  docs/").fg, Some(Hue::Blue));
    assert_eq!(notes_row_look("x cut").fg, Some(Hue::Yellow));
    assert_eq!(notes_row_look("* open").fg, Some(Hue::Green));
    assert_eq!(notes_row_look("> picked").fg, Some(Hue::Magenta));
    assert_eq!(notes_row_look("  plain"), Look::plain());
}

#[test]
fn popups_are_centred() {
    let a = Area { x: 0, y: 0, width: 100, height: 40 };
    assert_eq!(centered_rect(a, 50, 10), Area { x: 25, y: 15, width: 50, height: 10 });
    let small = Area { x: 0, y: 0, width: 30, height: 5 };
    assert_eq!(centered_rect(small, 50, 10), Area { x: 5, y: 0, width: 20, height: 5 });
    assert_eq!(centered_rect_with_offset(a, 62, 6, -1), Area { x: 19, y: 16, width: 62, height: 6 });
    assert_eq!(centered_rect_with_offset(a, 62, 6, 30), Area { x: 19, y: 34, width: 62, height: 6 });
}

#[test]
fn prompt_and_popup_cursors() {
    assert_eq!(place_command_cursor(Area { x: 0, y: 20, width: 80, height: 3 }, "abc"), (5, 21));
    let a = Area { x: 0, y: 0, width: 100, height: 40 };
    assert_eq!(place_rename_cursor(a, "ab"), (22, 19));
    assert_eq!(place_new_dir_cursor(a, ""), (20, 18));
    assert_eq!(place_global_search_cursor(a, "q"), (23, 13));
    assert_eq!(place_new_note_cursor(a, NewNoteField::Tags, "d", "n", "t1"), (16, 19));
}

#[test]
fn editor_cursor_sits_past_the_gutter() {
    let lines = vec!["# H".to_string(), "abc".to_string()];
    let a = Area { x: 10, y: 0, width: 50, height: 20 };
    assert_eq!(place_editor_cursor(a, &lines, &vec![], 0, 0, 1), Some((19, 1)));
    assert_eq!(place_editor_cursor(a, &lines, &vec![], 0, 1, 2), Some((18, 2)));
    assert_eq!(place_editor_cursor(a, &lines, &vec![], 1, 0, 0), None);
    assert_eq!(place_editor_cursor(Area { x: 0, y: 0, width: 2, height: 9 }, &lines, &vec![], 0, 0, 0), None);
}

#[test]
fn screen_decisions() {
    assert_eq!(
        pane_columns(true, true),
        vec![(FocusPane::Notes, 20), (FocusPane::Preview, 60), (FocusPane::Links, 20)]
    );
    assert_eq!(pane_columns(false, false), vec![(FocusPane::Preview, 100)]);
    let none = OpenPopups {
        new_note: false,
        global_search: false,
        new_dir: false,
        rename: false,
        delete_dir_confirm: false,
        help: false,
    };
    let both = OpenPopups { rename: true, help: true, ..none };
    assert_eq!(popups_to_draw(both), vec![Popup::Rename, Popup::Help]);
    assert_eq!(cursor_place(both, false, false, FocusPane::Preview), CursorPlace::InPopup(Popup::Rename));
    assert_eq!(cursor_place(OpenPopups { help: true, ..none }, true, false, FocusPane::Preview), CursorPlace::Hidden);
    assert_eq!(cursor_place(none, true, true, FocusPane::Notes), CursorPlace::SearchPrompt);
    assert_eq!(cursor_place(none, false, false, FocusPane::Preview), CursorPlace::Editor);
    assert_eq!(cursor_place(none, false, false, FocusPane::Links), CursorPlace::Hidden);
    assert_eq!(help_lines_shown(37, 24, 100), (15, 22));
    assert_eq!(help_lines_shown(5, 24, 3), (0, 5));
}

#[test]
fn search_popup_lists_the_first_hits() {
    let mut hits = vec![
        GlobalSearchResult::Dir("docs".to_string()),
        GlobalSearchResult::Note { path: "a.md".to_string(), matched_by_tag: true },
        GlobalSearchResult::Note { path: "b.md".to_string(), matched_by_tag: false },
    ];
    let rows = search_hit_rows(&hits, 1);
    assert_eq!(
        rows,
        vec![
            HitRow { marker: ' ', kind: "DIR ", hue: Hue::Blue, path: "docs".to_string() },
            HitRow { marker: '>', kind: "TAG ", hue: Hue::Yellow, path: "a.md".to_string() },
            HitRow { marker: ' ', kind: "NOTE", hue: Hue::Green, path: "b.md".to_string() },
        ]
    );
    for i in 0..10 {
        hits.push(GlobalSearchResult::Dir(format!("d{i}")));
    }
    assert_eq!(search_hit_rows(&hits, 0).len(), 8);
}

#[test]
fn new_note_popup_marks_the_field_typed_into() {
    assert_eq!(new_note_labels(NewNoteField::Name), ("Folder:", "Name: <-", "Tags (comma/space separated):"));
    assert_eq!(new_note_labels(NewNoteField::Dir).0, "Folder: <-");
}
