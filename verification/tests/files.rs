use monux::index::NoteMeta;
use monux::tui::chars::split_lines;
use monux::tui::files::{
    buffer_content, created_message, missing_dir_message, plan_new_note, plan_note_move,
    plan_note_rename, plan_open_note, plan_save_as, selected_or_current_note, NoteRefusal,
};
use monux::tui::panes::FocusPane;
use monux::tui::tree::build_notes_tree;

fn strings(v: &[&str]) -> Vec<String> {
    v.iter().map(|s| s.to_string()).collect()
}

fn note(path: &str, title: &str) -> NoteMeta {
    NoteMeta { path: path.to_string(), title: title.to_string() }
}

fn notes() -> Vec<NoteMeta> {
    vec![note("a.md", "a"), note("dir/b.md", "b")]
}

#[test]
fn buffers_are_written_with_a_final_newline() {
    assert_eq!(buffer_content(&strings(&["a", "b"])), "a\nb\n");
    assert_eq!(buffer_content(&strings(&[""])), "");
    assert_eq!(buffer_content(&strings(&["", ""])), "\n\n");
    assert_eq!(buffer_content(&Vec::new()), "");
}

#[test]
fn written_buffers_read_back_the_same() {
    for lines in [strings(&["a", "", "b"]), strings(&["", ""]), strings(&["x"])] {
        assert_eq!(split_lines(&buffer_content(&lines)), lines);
    }
    assert_eq!(split_lines(&buffer_content(&strings(&[""]))), Vec::<String>::new());
}

#[test]
fn renames_are_decided() {
    let n = notes();
    assert_eq!(
        plan_note_rename(&n, "dir/b.md", " c ", None, false),
        Ok(("dir/b.md".to_string(), "dir/c.md".to_string()))
    );
    assert_eq!(
        plan_note_rename(&n, "dir/b.md", "other/c", None, false),
        Ok(("dir/b.md".to_string(), "other/c.md".to_string()))
    );
    assert_eq!(plan_note_rename(&n, "dir/b.md", "  ", None, false), Err(NoteRefusal::EmptyNewName));
    assert_eq!(plan_note_rename(&n, "zz.md", "c", None, false), Err(NoteRefusal::NotFound));
    assert_eq!(plan_note_rename(&n, "dir/b.md", "c", Some("dir//b.md"), true), Err(NoteRefusal::Unsaved));
    assert_eq!(plan_note_rename(&n, "dir/b.md", "c", Some("a.md"), true).is_ok(), true);
    assert_eq!(plan_note_rename(&n, "dir/b.md", "b", None, false), Err(NoteRefusal::SameName));
    assert_eq!(plan_note_rename(&n, "dir/b.md", "/", None, false), Err(NoteRefusal::InvalidPath));
    assert_eq!(NoteRefusal::Unsaved.message(), "unsaved changes; save with :w\nfirst");
}

#[test]
fn moves_are_decided() {
    assert_eq!(plan_note_move("dir/b.md", " other ", None, false), Ok("other/b.md".to_string()));
    assert_eq!(plan_note_move("dir/b.md", "", None, false), Ok("b.md".to_string()));
    assert_eq!(plan_note_move("dir/b.md", "dir", None, false), Err(NoteRefusal::AlreadyThere));
    assert_eq!(plan_note_move("dir/b.md", "x", Some("dir/b.md"), true), Err(NoteRefusal::Unsaved));
    assert_eq!(plan_note_move("/", "x", None, false), Err(NoteRefusal::InvalidTarget));
    assert_eq!(NoteRefusal::AlreadyThere.message(), "note is already in this\ndirectory");
}

#[test]
fn save_as_new_and_open_are_decided() {
    assert_eq!(plan_save_as(" x/new ", false), Ok(("x/new.md".to_string(), "x".to_string())));
    assert_eq!(plan_save_as("new", false), Ok(("new.md".to_string(), String::new())));
    assert_eq!(plan_save_as("  ", false), Err(NoteRefusal::SaveUsage));
    assert_eq!(plan_save_as("new", true), Err(NoteRefusal::AlreadyNamed));
    let plan = plan_new_note("projects", " Idea ", "Work, work, #misc", false).unwrap();
    assert_eq!(plan.rel, "projects/Idea.md");
    assert_eq!(plan.dir, "projects");
    assert_eq!(plan.tags, strings(&["work", "misc"]));
    assert_eq!(plan.content, "---\ntags: [work, misc]\n---\n");
    assert_eq!(plan_new_note("", "x", "", true), Err(NoteRefusal::Unsaved));
    assert_eq!(plan_new_note("", " ", "", false), Err(NoteRefusal::EmptyName));
    assert_eq!(plan_open_note("dir\\b", None, false, false), Ok(Some("dir/b.md".to_string())));
    assert_eq!(plan_open_note("a.md", Some("a.md"), false, false), Ok(None));
    assert_eq!(plan_open_note("a.md", Some("a.md"), true, true), Ok(Some("a.md".to_string())));
    assert_eq!(plan_open_note("a.md", None, true, false), Err(NoteRefusal::UnsavedSwitch));
    assert_eq!(plan_open_note("", None, false, false), Err(NoteRefusal::InvalidPath));
}

#[test]
fn status_messages_for_notes() {
    assert_eq!(created_message("a.md", &Vec::new()), "created a.md");
    assert_eq!(created_message("a.md", &strings(&["x", "y"])), "created a.md with #x #y");
    assert_eq!(missing_dir_message("d"), "directory 'd' does not\nexist; create it first");
}

#[test]
fn the_selected_or_open_note_is_picked() {
    let n = notes();
    let rows = build_notes_tree("", &strings(&["dir"]), &n);
    assert_eq!(selected_or_current_note(FocusPane::Notes, &rows, &n, 1, None), Some("a.md".to_string()));
    assert_eq!(selected_or_current_note(FocusPane::Notes, &rows, &n, 0, Some("dir/b.md")), Some("dir/b.md".to_string()));
    assert_eq!(selected_or_current_note(FocusPane::Preview, &rows, &n, 1, None), None);
    assert_eq!(selected_or_current_note(FocusPane::Preview, &rows, &n, 1, Some("zz.md")), None);
}
