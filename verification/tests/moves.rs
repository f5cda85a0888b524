use monux::tui::paths::{sort_notes_by_path, sort_paths_by_key};
use monux::tui::dirs::{created_dir_message, dir_exists_message, new_dir_plan};
use monux::index::NoteMeta;
use monux::tui::cut::{cut_status, note_by_title, paste_blocker, paste_status, PasteProgress};
use monux::tui::panes::list_moved;
use monux::tui::paths::PathComp;
use monux::tui::search::{apply_global_search_selection, GlobalSearchResult, SearchJump};
use monux::tui::watch::watched_note;

fn name(s: &str) -> PathComp {
    PathComp::Normal(s.chars().collect())
}

#[test]
fn cut_reports_how_many() {
    assert_eq!(cut_status(0), "no notes selected to cut");
    assert_eq!(cut_status(3), "cut 3 note(s); select target dir and press p");
}

#[test]
fn paste_needs_a_cut_and_a_target() {
    assert_eq!(paste_blocker(0, Some("a")), Some("cut buffer is empty"));
    assert_eq!(paste_blocker(2, None), Some("cannot resolve target directory"));
    assert_eq!(paste_blocker(2, Some("")), None);
}

#[test]
fn paste_counts_moves_and_keeps_failures_cut() {
    let mut p = PasteProgress::new();
    p.step("a.md".to_string(), true, None, false);
    p.step("gone.md".to_string(), false, None, false);
    p.step("b.md".to_string(), true, Some("disk full".to_string()), true);
    assert_eq!(p.moved, 1);
    assert_eq!(p.failed, vec!["b.md".to_string()]);
    assert_eq!(paste_status("", &p), "moved 1 note(s) to /, 1 not moved: disk full");
    let mut q = PasteProgress::new();
    q.step("c.md".to_string(), true, None, false);
    assert_eq!(paste_status("dir", &q), "moved 1 note(s) to dir");
    let mut w = PasteProgress::new();
    w.step("d.md".to_string(), true, None, true);
    assert_eq!(paste_status("dir", &w), "moved 0 note(s) to dir, 1 not moved");
}

#[test]
fn notes_are_found_by_exact_title() {
    let notes = vec![
        NoteMeta { path: "a.md".to_string(), title: "Alpha".to_string() },
        NoteMeta { path: "b.md".to_string(), title: "Beta".to_string() },
        NoteMeta { path: "c.md".to_string(), title: "Beta".to_string() },
    ];
    assert_eq!(note_by_title(&notes, "  Beta "), Ok(1));
    assert_eq!(note_by_title(&notes, "beta"), Err("note with title 'beta' not found".to_string()));
}

#[test]
fn choosing_a_search_hit() {
    let hits = vec![GlobalSearchResult::Dir("docs".to_string()), GlobalSearchResult::Note { path: "a.md".to_string(), matched_by_tag: false }];
    assert_eq!(
        apply_global_search_selection(&hits, 0),
        Some(SearchJump::EnterDir { dir: "docs".to_string(), status: "entered docs/".to_string() })
    );
    assert_eq!(apply_global_search_selection(&hits, 1), Some(SearchJump::OpenNote("a.md".to_string())));
    assert_eq!(apply_global_search_selection(&hits, 2), None);
}

#[test]
fn list_selection_stays_in_range() {
    assert_eq!(list_moved(0, 3, true), 1);
    assert_eq!(list_moved(2, 3, true), 2);
    assert_eq!(list_moved(0, 3, false), 0);
    assert_eq!(list_moved(2, 3, false), 1);
    assert_eq!(list_moved(0, 0, true), 0);
}

#[test]
fn watcher_changes_to_notes_are_reread() {
    assert_eq!(watched_note("/v/notes/a/b.md", "/v/notes", None, None), Some(vec![name("a"), name("b.md")]));
    assert_eq!(watched_note("/v/notes/a/b.txt", "/v/notes", None, None), None);
    assert_eq!(watched_note("/v/notes/.md", "/v/notes", None, None), None);
    assert_eq!(watched_note("/elsewhere/b.md", "/v/notes", None, None), None);
    assert_eq!(watched_note("/v/notes/x.tar.md", "/v/notes/", None, None), Some(vec![name("x.tar.md")]));
}

#[test]
fn the_echo_of_an_autosave_is_ignored() {
    assert_eq!(watched_note("/v/n/a.md", "/v/n", Some("a.md"), Some(300)), None);
    assert_eq!(watched_note("/v/n/a.md", "/v/n", Some("a.md"), Some(1200)), Some(vec![name("a.md")]));
    assert_eq!(watched_note("/v/n/a.md", "/v/n", Some("b.md"), Some(10)), Some(vec![name("a.md")]));
    assert_eq!(watched_note("/v/n/a.md", "/v/n", Some("a.md"), None), Some(vec![name("a.md")]));
}

#[test]
fn directories_are_made_from_what_was_typed() {
    assert_eq!(new_dir_plan("a/b"), Ok("a/b".to_string()));
    assert_eq!(new_dir_plan("../x"), Ok("x".to_string()));
    assert_eq!(new_dir_plan("  "), Err("directory path cannot be empty"));
    assert_eq!(dir_exists_message("a"), "directory 'a' already exists");
    assert_eq!(created_dir_message("a/b"), "created directory a/b/");
}

#[test]
fn notes_are_listed_in_path_order() {
    let n = |p: &str| NoteMeta { path: p.to_string(), title: p.to_string() };
    let sorted = sort_notes_by_path(vec![n("b.md"), n("a/z.md"), n("a.md"), n("a-b.md")]);
    let paths: Vec<&str> = sorted.iter().map(|m| m.path.as_str()).collect();
    assert_eq!(paths, vec!["a/z.md", "a-b.md", "a.md", "b.md"]);
}

#[test]
fn note_paths_are_listed_in_key_order() {
    let sorted = sort_paths_by_key(vec!["b.md".to_string(), "a\\z.md".to_string(), "a.md".to_string(), "a-b.md".to_string()]);
    assert_eq!(sorted, vec!["a-b.md".to_string(), "a.md".to_string(), "a\\z.md".to_string(), "b.md".to_string()]);
}

#[test]
fn sorting_keeps_the_order_of_equal_keys() {
    let sorted = sort_paths_by_key(vec!["b.md".to_string(), "a/b.md".to_string(), "a\\b.md".to_string()]);
    assert_eq!(sorted, vec!["a/b.md".to_string(), "a\\b.md".to_string(), "b.md".to_string()]);
    let n = |p: &str, t: &str| NoteMeta { path: p.to_string(), title: t.to_string() };
    let notes = sort_notes_by_path(vec![n("z.md", "z"), n("a//b.md", "first"), n("a/b.md", "second")]);
    let titles: Vec<&str> = notes.iter().map(|m| m.title.as_str()).collect();
    assert_eq!(titles, vec!["first", "second", "z"]);
}
