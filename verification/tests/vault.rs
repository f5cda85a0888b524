use monux::vault::moved_tag_row;
use monux::index::NoteMeta;
use monux::storage::{normalize_rel, NoteStorage, Notes};
use monux::vault::{
    check_dir_delete, entry_has_tag, note_reference_path, orphan_keys, plan_dir_move, prefix_key,
    resolve_note_reference, rewrite_key, tags_entry, title_for_note, DirError, ReferenceError,
};

fn note(path: &str, title: &str) -> NoteMeta {
    NoteMeta { path: path.to_string(), title: title.to_string() }
}

fn strings(v: &[&str]) -> Vec<String> {
    v.iter().map(|s| s.to_string()).collect()
}

#[test]
fn references_resolve_by_path_title_text_and_fuzz() {
    let notes = vec![note("rust/ownership.md", "Ownership"), note("rust/borrowing.md", "Borrowing")];
    let found = resolve_note_reference("ownership", None, &notes, &Vec::new()).unwrap();
    assert_eq!(found.path, "rust/ownership.md");
    let direct = note("rust/ownership.md", "Ownership");
    let found = resolve_note_reference(" rust/ownership.md ", Some(direct), &notes, &Vec::new()).unwrap();
    assert_eq!(found.title, "Ownership");
    let found = resolve_note_reference("borrow", None, &notes, &Vec::new()).unwrap();
    assert_eq!(found.title, "Borrowing");
    let fuzzy = vec![note("rust/ownership.md", "Ownership")];
    let found = resolve_note_reference("ownrship", None, &notes, &fuzzy).unwrap();
    assert_eq!(found.title, "Ownership");
}

#[test]
fn references_that_name_no_single_note() {
    let notes = vec![note("rust/ownership.md", "Ownership"), note("rust/borrowing.md", "Borrowing")];
    let err = resolve_note_reference("  ", None, &notes, &Vec::new()).err().unwrap();
    assert_eq!(err, ReferenceError::Empty);
    assert_eq!(err.message(), "note reference is empty");
    let err = resolve_note_reference("rust", None, &notes, &Vec::new()).err().unwrap();
    assert_eq!(err, ReferenceError::Ambiguous("rust".to_string()));
    assert_eq!(err.message(), "multiple notes matched 'rust'; refine query or\nuse path");
    let err = resolve_note_reference("zzz", None, &notes, &Vec::new()).err().unwrap();
    assert_eq!(err.message(), "note 'zzz' not found");
    let twins = vec![note("a/x.md", "Same"), note("b/y.md", "same")];
    let err = resolve_note_reference("SAME", None, &twins, &Vec::new()).err().unwrap();
    assert_eq!(err, ReferenceError::AmbiguousTitle("SAME".to_string()));
    let err = resolve_note_reference("qq", None, &notes, &notes).err().unwrap();
    assert_eq!(err, ReferenceError::AmbiguousFuzzy("qq".to_string()));
    assert_eq!(note_reference_path("Some Note"), Some("Some Note.md".to_string()));
    assert_eq!(note_reference_path("  "), None);
}

#[test]
fn tag_keys_move_with_their_notes() {
    assert_eq!(rewrite_key("old/a.md", "old/", "new/"), Some("new/a.md".to_string()));
    assert_eq!(rewrite_key("other/a.md", "old/", "new/"), None);
    assert_eq!(prefix_key("dir"), "dir/");
    assert_eq!(prefix_key("a\\b"), "a/b/");
    assert_eq!(
        orphan_keys(&strings(&["a.md", "b.md", "c.md"]), &strings(&["b.md"])),
        vec!["a.md", "c.md"]
    );
}

#[test]
fn directories_move_and_go_only_when_allowed() {
    assert_eq!(plan_dir_move("a", "a/b"), Err(DirError::IntoOwnChild));
    assert_eq!(plan_dir_move("a", " a/ "), Ok(None));
    assert_eq!(plan_dir_move("", "x"), Err(DirError::EmptyPath));
    assert_eq!(plan_dir_move(" a ", "b"), Ok(Some(("a".to_string(), "b".to_string()))));
    assert_eq!(plan_dir_move("ab", "abc"), Ok(Some(("ab".to_string(), "abc".to_string()))));
    let err = check_dir_delete("docs", &strings(&["docs/x.md"])).err().unwrap();
    assert_eq!(err, DirError::NotEmpty("docs".to_string()));
    assert_eq!(err.message(), "directory docs/ is not empty");
    assert_eq!(check_dir_delete("docs", &strings(&["other.md", "docsx/y.md"])), Ok("docs".to_string()));
    assert_eq!(check_dir_delete("/", &Vec::new()), Err(DirError::RootDir));
    assert_eq!(DirError::IntoOwnChild.message(), "cannot rename directory into its own\nchild");
}

#[test]
fn tag_entries_and_titles() {
    assert_eq!(tags_entry(&Vec::new()), None);
    assert_eq!(tags_entry(&strings(&["a", "b"])), Some("a,b".to_string()));
    assert!(entry_has_tag("rust, cli", "cli"));
    assert!(!entry_has_tag("rust", "ru"));
    assert_eq!(title_for_note(Some("---\ntitle: X\n---\n"), "a/b.md", None), "X");
    assert_eq!(title_for_note(Some("plain"), "a/b.md", Some("Name")), "b");
    assert_eq!(title_for_note(None, "a/b.md", Some("")), "b");
    assert_eq!(title_for_note(None, "a/b.md", Some("Name")), "Name");
}

#[test]
fn notes_are_found_by_file_name() {
    let notes = Notes::new("root".to_string());
    assert_eq!(notes.root(), "root");
    let listed = strings(&["root/a/Rust notes.md", "root/b.md", "root/rusty.md"]);
    assert_eq!(notes.find(&listed, "ust"), vec!["root/a/Rust notes.md", "root/rusty.md"]);
    assert!(notes.find(&listed, "zzz").is_empty());
    let storage = NoteStorage::new("/v".to_string());
    assert_eq!(storage.notes_root(), "/v");
    assert_eq!(storage.abs_path("a.md"), "/v/a.md");
    assert_eq!(normalize_rel("[[X|y]]"), "X.md");
}

#[test]
fn tag_rows_follow_their_notes() {
    assert_eq!(
        moved_tag_row(Some("rust,cli".to_string()), "b/new.md"),
        Some(("b/new.md".to_string(), "rust,cli".to_string()))
    );
    assert_eq!(moved_tag_row(Some("  ".to_string()), "b/new.md"), None);
    assert_eq!(moved_tag_row(None, "b/new.md"), None);
}
