use monux::index::NoteMeta;
use monux::tui::commands::{parse_tui_command, TuiCommand};
use monux::tui::dirs::{plan_directory_rename, renamed_dir_message, sorted_dirs, RenameRefusal};
use monux::tui::links::{link_labels, refresh_links, resolve_wikilink_target, wikilink_targets_in};
use monux::tui::panes::{
    count_status, cursor_style_name, cycle_focus, editor_mode_label, ensure_cursor_visible,
    ensure_focus_visible, push_motion_digit, take_motion_count, toggle_links_panel,
    toggle_notes_panel, visible_panes, EditorMode, FocusPane,
};
use monux::tui::paths::{path_less, path_set_insert, same_note_path};
use monux::tui::tree::{
    activate_tree_row, apply_notes_tree_search, build_notes_tree, collapse_target,
    delete_dir_question, dir_row_at, dir_row_position, entered_message, first_note_row,
    note_row_position, notes_tree_labels, notes_tree_selected_note_paths,
    notes_tree_selection_bounds, notes_tree_target_dir, notes_tree_title, open_rename_popup,
    parent_dir_of, rebuild_notes_tree, selected_tree_note, suggest_new_dir_parent,
    suggest_new_note_dir, NotesTreeRow, RenameTarget, TreeStep,
};

fn strings(v: &[&str]) -> Vec<String> {
    v.iter().map(|s| s.to_string()).collect()
}

fn note(path: &str, title: &str) -> NoteMeta {
    NoteMeta { path: path.to_string(), title: title.to_string() }
}

fn sample_notes() -> Vec<NoteMeta> {
    vec![note("a.md", "a"), note("dir/b.md", "Bee"), note("dir/sub/c.md", "")]
}

fn sample_dirs() -> Vec<String> {
    strings(&["dir", "dir/sub", "other"])
}

#[test]
fn parent_dir_is_before_the_last_slash() {
    assert_eq!(parent_dir_of("a/b/c.md"), "a/b");
    assert_eq!(parent_dir_of("c.md"), "");
    assert_eq!(parent_dir_of(""), "");
}

#[test]
fn tree_of_the_root_lists_dirs_then_notes() {
    let rows = build_notes_tree("", &sample_dirs(), &sample_notes());
    assert_eq!(
        rows,
        vec![
            NotesTreeRow::Dir { path: "dir".to_string(), depth: 0, name: "dir".to_string() },
            NotesTreeRow::Dir { path: "other".to_string(), depth: 0, name: "other".to_string() },
            NotesTreeRow::Note { note_index: 0, depth: 0, name: "a".to_string() },
        ]
    );
}

#[test]
fn tree_of_a_dir_starts_with_the_way_up() {
    let rows = build_notes_tree("dir", &sample_dirs(), &sample_notes());
    assert_eq!(
        rows,
        vec![
            NotesTreeRow::ParentDir { path: String::new() },
            NotesTreeRow::Dir { path: "dir/sub".to_string(), depth: 0, name: "sub".to_string() },
            NotesTreeRow::Note { note_index: 1, depth: 0, name: "b".to_string() },
        ]
    );
    let (again, sel, anchor) = rebuild_notes_tree("dir", &sample_dirs(), &sample_notes(), 10, Some(7));
    assert_eq!(again, rows);
    assert_eq!(sel, 2);
    assert_eq!(anchor, Some(2));
    let (up_only, sel, anchor) = rebuild_notes_tree("nowhere", &sample_dirs(), &sample_notes(), 4, Some(1));
    assert_eq!(up_only, vec![NotesTreeRow::ParentDir { path: String::new() }]);
    assert_eq!(sel, 0);
    assert_eq!(anchor, Some(0));
    let (_, _, anchor) = rebuild_notes_tree("nowhere", &sample_dirs(), &sample_notes(), 0, Some(0));
    assert_eq!(anchor, Some(0));
}

#[test]
fn tree_labels_and_title() {
    let notes = sample_notes();
    let rows = build_notes_tree("dir", &sample_dirs(), &notes);
    let labels = notes_tree_labels(&rows, &notes, false, None, 0, &Vec::new(), Some("dir/b.md"));
    assert_eq!(labels, strings(&["..", "  Sub/", "* Bee"]));
    let cut = strings(&["dir/b.md"]);
    let labels = notes_tree_labels(&rows, &notes, false, None, 0, &cut, None);
    assert_eq!(labels[2], "x Bee");
    let labels = notes_tree_labels(&rows, &notes, true, Some(2), 1, &cut, None);
    assert_eq!(labels[2], "> Bee");
    let root = build_notes_tree("dir/sub", &sample_dirs(), &notes);
    let labels = notes_tree_labels(&root, &notes, false, None, 0, &Vec::new(), None);
    assert_eq!(labels, strings(&["..", "  c"]));
    assert_eq!(notes_tree_title(""), "Notes: /");
    assert_eq!(notes_tree_title("dir"), "Notes: /dir");
}

#[test]
fn tree_search_finds_the_first_matching_row() {
    let notes = sample_notes();
    let rows = build_notes_tree("dir", &sample_dirs(), &notes);
    assert_eq!(apply_notes_tree_search(&rows, &notes, "SUB "), Some(1));
    assert_eq!(apply_notes_tree_search(&rows, &notes, "bee"), Some(2));
    assert_eq!(apply_notes_tree_search(&rows, &notes, "   "), None);
    assert_eq!(apply_notes_tree_search(&rows, &notes, "zzz"), None);
}

#[test]
fn tree_selection_and_targets() {
    let notes = sample_notes();
    let rows = build_notes_tree("dir", &sample_dirs(), &notes);
    assert_eq!(notes_tree_selection_bounds(true, Some(2), 0), Some((0, 2)));
    assert_eq!(notes_tree_selection_bounds(false, Some(2), 0), None);
    assert_eq!(
        notes_tree_selected_note_paths(&rows, &notes, true, Some(2), 0),
        strings(&["dir/b.md"])
    );
    assert_eq!(notes_tree_selected_note_paths(&rows, &notes, false, None, 2), strings(&["dir/b.md"]));
    assert!(notes_tree_selected_note_paths(&rows, &notes, false, None, 1).is_empty());
    assert_eq!(selected_tree_note(&rows, &notes, 2), Some(1));
    assert_eq!(selected_tree_note(&rows, &notes, 0), None);
    assert_eq!(notes_tree_target_dir(&rows, &notes, 0, "dir"), Some("dir".to_string()));
    assert_eq!(notes_tree_target_dir(&rows, &notes, 1, "dir"), Some("dir/sub".to_string()));
    assert_eq!(notes_tree_target_dir(&rows, &notes, 2, "dir"), Some("dir".to_string()));
    assert_eq!(notes_tree_target_dir(&rows, &notes, 9, "dir"), Some(String::new()));
    assert_eq!(note_row_position(&rows, &notes, "dir/b.md"), Some(2));
    assert_eq!(note_row_position(&rows, &notes, "a.md"), None);
    assert_eq!(dir_row_position(&rows, "dir/sub"), Some(1));
    assert_eq!(first_note_row(&rows), Some(2));
}

#[test]
fn tree_rows_are_entered_and_opened() {
    let notes = sample_notes();
    let rows = build_notes_tree("dir", &sample_dirs(), &notes);
    assert_eq!(activate_tree_row(&rows, &notes, 0), TreeStep::Enter(String::new()));
    assert_eq!(activate_tree_row(&rows, &notes, 1), TreeStep::Enter("dir/sub".to_string()));
    assert_eq!(activate_tree_row(&rows, &notes, 2), TreeStep::Open(1));
    assert_eq!(activate_tree_row(&rows, &notes, 3), TreeStep::Stay);
    assert_eq!(entered_message(""), "entered /");
    assert_eq!(entered_message("dir"), "entered dir/");
    assert_eq!(collapse_target("dir/sub"), Some("dir".to_string()));
    assert_eq!(collapse_target(""), None);
    assert_eq!(dir_row_at(&rows, 1), Some("dir/sub".to_string()));
    assert_eq!(dir_row_at(&rows, 2), None);
    assert_eq!(delete_dir_question("dir/sub"), "delete directory dir/sub/ ?");
}

#[test]
fn new_things_go_where_the_selection_is() {
    let notes = sample_notes();
    let rows = build_notes_tree("dir", &sample_dirs(), &notes);
    assert_eq!(suggest_new_dir_parent(FocusPane::Notes, &rows, &notes, 2, "dir", None), "dir");
    assert_eq!(suggest_new_dir_parent(FocusPane::Notes, &rows, &notes, 1, "dir", None), "dir/sub");
    assert_eq!(suggest_new_note_dir(FocusPane::Notes, &rows, &notes, 0, "dir", None), "dir");
    assert_eq!(
        suggest_new_note_dir(FocusPane::Preview, &rows, &notes, 0, "dir", Some("x/y/z.md")),
        "x/y"
    );
    assert_eq!(suggest_new_dir_parent(FocusPane::Links, &rows, &notes, 0, "dir", Some("x/y.md")), "");
}

#[test]
fn rename_popup_opens_on_the_selection() {
    let notes = sample_notes();
    let rows = build_notes_tree("dir", &sample_dirs(), &notes);
    assert_eq!(
        open_rename_popup(&rows, &notes, 1, None),
        Some((RenameTarget::Dir("dir/sub".to_string()), "dir:\ndir/sub/".to_string(), "sub".to_string()))
    );
    assert_eq!(
        open_rename_popup(&rows, &notes, 2, None),
        Some((RenameTarget::Note("dir/b.md".to_string()), "note: dir/b.md".to_string(), "b".to_string()))
    );
    assert_eq!(
        open_rename_popup(&rows, &notes, 0, Some("q.md")),
        Some((RenameTarget::Note("q.md".to_string()), "note: q.md".to_string(), "q".to_string()))
    );
    assert_eq!(open_rename_popup(&rows, &notes, 0, None), None);
}

#[test]
fn paths_compare_by_components() {
    assert!(same_note_path("a//b.md", "a/b.md"));
    assert!(same_note_path("a/./b.md", "a/b.md"));
    assert!(!same_note_path("./a.md", "a.md"));
    assert!(path_less("a/b.md", "a-b.md"));
    assert!(!path_less("a-b.md", "a/b.md"));
    assert!(!path_less("a/b.md", "a//b.md"));
    let mut set: Vec<String> = Vec::new();
    for p in ["b.md", "a/c.md", "a-b.md", "b.md", "a//c.md"] {
        path_set_insert(&mut set, p.to_string());
    }
    assert_eq!(set, strings(&["a/c.md", "a-b.md", "b.md"]));
}

#[test]
fn wikilinks_are_read_from_a_line() {
    assert_eq!(
        wikilink_targets_in("see [[Foo|alias]] and [[ dir/bar ]] and [[open"),
        strings(&["Foo", "dir/bar"])
    );
    assert!(wikilink_targets_in("no links ]] here [[").is_empty());
    assert_eq!(wikilink_targets_in("[[]]"), strings(&[""]));
}

#[test]
fn wikilinks_resolve_by_path_leaf_or_title() {
    let notes = sample_notes();
    assert_eq!(resolve_wikilink_target(&notes, "a"), Some("a.md".to_string()));
    assert_eq!(resolve_wikilink_target(&notes, "b"), Some("dir/b.md".to_string()));
    assert_eq!(resolve_wikilink_target(&notes, "Bee"), Some("dir/b.md".to_string()));
    assert_eq!(resolve_wikilink_target(&notes, "zzz"), Some("zzz.md".to_string()));
    assert_eq!(resolve_wikilink_target(&notes, ""), None);
    assert_eq!(resolve_wikilink_target(&notes, "  "), None);
    let twice = vec![note("x/b.md", "t"), note("y/b.md", "t")];
    assert_eq!(resolve_wikilink_target(&twice, "b"), Some("b.md".to_string()));
}

#[test]
fn links_pane_lists_linked_notes_in_order() {
    let notes = sample_notes();
    let lines = strings(&["[[b]] [[a]]", "[[Bee]] [[zzz]] [[]]"]);
    let (links, sel) = refresh_links(&lines, &notes, 5);
    assert_eq!(links, strings(&["a.md", "dir/b.md", "zzz.md"]));
    assert_eq!(sel, 2);
    let (none, sel) = refresh_links(&strings(&["plain"]), &notes, 3);
    assert!(none.is_empty());
    assert_eq!(sel, 0);
    let labels = link_labels(&strings(&["a.md", "dir/b.md", "dir/sub/c.md", "x/new-note.md"]), &notes);
    assert_eq!(labels, strings(&["a", "Bee", "C.md", "New Note.md"]));
}

#[test]
fn focus_moves_among_shown_panes() {
    assert_eq!(
        visible_panes(true, true),
        vec![FocusPane::Notes, FocusPane::Preview, FocusPane::Links]
    );
    assert_eq!(visible_panes(false, false), vec![FocusPane::Preview]);
    assert_eq!(cycle_focus(FocusPane::Preview, true, true, true), FocusPane::Links);
    assert_eq!(cycle_focus(FocusPane::Links, true, true, true), FocusPane::Notes);
    assert_eq!(cycle_focus(FocusPane::Notes, true, true, false), FocusPane::Links);
    assert_eq!(cycle_focus(FocusPane::Notes, false, false, true), FocusPane::Preview);
    assert_eq!(ensure_focus_visible(FocusPane::Links, true, false), FocusPane::Preview);
    assert_eq!(ensure_focus_visible(FocusPane::Notes, true, false), FocusPane::Notes);
}

#[test]
fn panels_toggle() {
    assert_eq!(
        toggle_notes_panel(false, false, FocusPane::Preview),
        (true, FocusPane::Notes, "notes pane shown")
    );
    assert_eq!(
        toggle_notes_panel(true, false, FocusPane::Notes),
        (false, FocusPane::Preview, "notes pane hidden")
    );
    assert_eq!(
        toggle_links_panel(true, true, FocusPane::Notes),
        (false, FocusPane::Notes, "links pane hidden")
    );
    assert_eq!(
        toggle_links_panel(true, false, FocusPane::Notes),
        (true, FocusPane::Links, "links pane shown")
    );
}

#[test]
fn mode_labels_and_cursor_shapes() {
    assert_eq!(editor_mode_label(FocusPane::Notes, true, EditorMode::Normal), "NOTES-VISUAL");
    assert_eq!(editor_mode_label(FocusPane::Preview, true, EditorMode::Insert), "INSERT");
    assert_eq!(editor_mode_label(FocusPane::Preview, false, EditorMode::Visual), "VISUAL");
    assert_eq!(
        cursor_style_name(false, false, false, false, false, FocusPane::Preview, false, EditorMode::Normal),
        "block"
    );
    assert_eq!(
        cursor_style_name(true, false, false, false, false, FocusPane::Preview, false, EditorMode::Normal),
        "bar"
    );
    assert_eq!(
        cursor_style_name(false, false, false, false, false, FocusPane::Notes, true, EditorMode::Insert),
        "underscore"
    );
    assert_eq!(
        cursor_style_name(false, false, false, false, false, FocusPane::Preview, false, EditorMode::Insert),
        "bar"
    );
}

#[test]
fn counts_before_motions() {
    assert_eq!(push_motion_digit(None, 0), None);
    assert_eq!(push_motion_digit(None, 3), Some(3));
    assert_eq!(push_motion_digit(Some(3), 4), Some(34));
    assert_eq!(count_status(34), "count: 34");
    assert_eq!(take_motion_count(None), 1);
    assert_eq!(take_motion_count(Some(0)), 1);
    assert_eq!(take_motion_count(Some(5)), 5);
}

#[test]
fn scrolling_keeps_the_cursor_on_screen() {
    assert_eq!(ensure_cursor_visible(3, 5, 10), 3);
    assert_eq!(ensure_cursor_visible(20, 5, 10), 11);
    assert_eq!(ensure_cursor_visible(8, 5, 10), 5);
    assert_eq!(ensure_cursor_visible(8, 5, 0), 5);
}

#[test]
fn renaming_a_dir_moves_its_notes() {
    let notes = sample_notes();
    let r = plan_directory_rename("dir", "new", &notes, "dir/sub").unwrap();
    assert_eq!(r.old_dir, "dir");
    assert_eq!(r.new_dir, "new");
    assert_eq!(
        r.moved,
        vec![
            ("dir/b.md".to_string(), "new/b.md".to_string()),
            ("dir/sub/c.md".to_string(), "new/sub/c.md".to_string()),
        ]
    );
    assert_eq!(r.current_dir, "new/sub");

    let r = plan_directory_rename("dir/sub", " x ", &notes, "").unwrap();
    assert_eq!(r.new_dir, "dir/x");
    assert_eq!(r.moved, vec![("dir/sub/c.md".to_string(), "dir/x/c.md".to_string())]);
    assert_eq!(r.current_dir, "");

    let repeated = vec![note("a/a/x.md", "x")];
    let r = plan_directory_rename("a", "b", &repeated, "a").unwrap();
    assert_eq!(r.moved, vec![("a/a/x.md".to_string(), "b/x.md".to_string())]);
    assert_eq!(r.current_dir, "b");
    assert_eq!(renamed_dir_message("a", "b"), "renamed directory a/ ->\nb/");
}

#[test]
fn renaming_a_dir_is_refused() {
    let notes = sample_notes();
    let err = |old: &str, new: &str| plan_directory_rename(old, new, &notes, "").err();
    assert_eq!(err("dir", "  "), Some(RenameRefusal::EmptyName));
    assert_eq!(err("", "x"), Some(RenameRefusal::EmptyPath));
    assert_eq!(err("dir", "dir"), Some(RenameRefusal::SameName));
    assert_eq!(err("dir", "dir/inner"), Some(RenameRefusal::IntoOwnChild));
    assert_eq!(RenameRefusal::EmptyName.message(), "new directory name cannot be\nempty");
    assert_eq!(RenameRefusal::IntoOwnChild.message(), "cannot rename directory into its own\nchild");
}

#[test]
fn dirs_are_listed_in_order_once() {
    let rels = strings(&["b", "a\\c", " a ", "", "b/", "a"]);
    assert_eq!(sorted_dirs(&rels), strings(&["a", "a/c", "b"]));
}

#[test]
fn command_lines_are_read() {
    assert_eq!(parse_tui_command("", false, true), TuiCommand::Nothing);
    assert_eq!(parse_tui_command("   ", false, true), TuiCommand::Nothing);
    assert_eq!(parse_tui_command("w", false, true), TuiCommand::Save);
    assert_eq!(parse_tui_command("w  my   note ", false, false), TuiCommand::SaveAs("my note".to_string()));
    assert_eq!(parse_tui_command("q", false, true), TuiCommand::Quit);
    assert_eq!(
        parse_tui_command("q", true, true),
        TuiCommand::Status("unsaved changes; use :q! to discard\nor :w".to_string())
    );
    assert_eq!(parse_tui_command("q!", true, true), TuiCommand::Quit);
    assert_eq!(parse_tui_command("wq", true, true), TuiCommand::WriteQuit);
    assert_eq!(
        parse_tui_command("wq", true, false),
        TuiCommand::Status("no note name; use :w <name> or\n:wq <name>".to_string())
    );
    assert_eq!(parse_tui_command("wq x", true, false), TuiCommand::WriteQuitAs("x".to_string()));
    assert_eq!(parse_tui_command("e dir/Note", false, true), TuiCommand::Open("dir/Note.md".to_string()));
    assert_eq!(parse_tui_command("e! a", false, true), TuiCommand::OpenForce("a.md".to_string()));
    assert_eq!(parse_tui_command("e", false, true), TuiCommand::Status("usage: :e <path>".to_string()));
    assert_eq!(parse_tui_command("r", false, true), TuiCommand::Reload);
    assert_eq!(parse_tui_command("sync", false, true), TuiCommand::Sync(None));
    assert_eq!(parse_tui_command("sync  docs ", false, true), TuiCommand::Sync(Some("docs".to_string())));
    assert_eq!(parse_tui_command("del My Title", false, true), TuiCommand::DeleteByTitle("My Title".to_string()));
    assert_eq!(parse_tui_command("tags", false, true), TuiCommand::Status("tags popup removed".to_string()));
    assert_eq!(parse_tui_command("mkdir", false, true), TuiCommand::Status("usage: :mkdir\n<dir/path>".to_string()));
    assert_eq!(parse_tui_command("mkdir a/b", false, true), TuiCommand::Mkdir("a/b".to_string()));
    assert_eq!(parse_tui_command("mv x", false, true), TuiCommand::MoveTo("x".to_string()));
    assert_eq!(parse_tui_command("zap it", false, true), TuiCommand::Status("unknown command: zap".to_string()));
}
