use monux::slug::{create_note_plan, find_slug_notes, find_slug_notes_by_tag, rename_note_plan, NoteMeta as SlugNote};
use monux::slug::{normalize_slug, note_path, note_slug_with_dir, slugify};

#[test]
fn normalize_slug_handles_links_paths_and_ext() {
    assert_eq!(normalize_slug("Some Note"), "some-note");
    assert_eq!(normalize_slug("folder/Some Note.md"), "folder/some-note");
    assert_eq!(normalize_slug("[[Some Note|Alias]]"), "some-note");
}

#[test]
fn slugs_collapse_separators() {
    assert_eq!(slugify("  Hello,   World!! "), "hello-world");
    assert_eq!(note_slug_with_dir(Some("Docs"), "My Plan"), "docs/my-plan");
    assert_eq!(note_path("/notes", "a/b"), "/notes/a/b.md");
}

#[test]
fn id_index_note_plans() {
    assert_eq!(create_note_plan("  My Note "), Ok(("My Note".to_string(), "my-note".to_string())));
    assert_eq!(create_note_plan("   "), Err("note name cannot be empty"));
    assert_eq!(create_note_plan("!!!"), Err("failed to build note slug from name"));
    assert_eq!(rename_note_plan(""), Err("new note name cannot be empty"));
    assert_eq!(rename_note_plan("???"), Err("failed to build note slug from new name"));
}

#[test]
fn id_index_find_by_text_and_tag() {
    let n = |id: u64, slug: &str, title: &str| SlugNote { id, slug: slug.to_string(), title: title.to_string() };
    let notes = vec![n(1, "alpha", "Alpha Note"), n(2, "beta", "Second"), n(3, "gamma", "NOTE three")];
    assert_eq!(find_slug_notes(&notes, " note "), vec![0, 2]);
    assert_eq!(find_slug_notes(&notes, "BET"), vec![1]);
    assert_eq!(find_slug_notes(&notes, "  "), Vec::<usize>::new());
    let t = |xs: &[&str]| xs.iter().map(|s| s.chars().collect::<Vec<char>>()).collect::<Vec<_>>();
    let tags = vec![t(&["rust", "work"]), t(&[]), t(&["work"])];
    assert_eq!(find_slug_notes_by_tag(&tags, " #Work "), vec![0, 2]);
    assert_eq!(find_slug_notes_by_tag(&tags, "#"), Vec::<usize>::new());
}
