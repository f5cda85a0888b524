use monux::frontmatter::note_title_from_content;
use monux::index::{
    abs_note_path, decode_tags, encode_tags, normalize_dir_path, normalize_note_path, normalize_tag,
    note_path_with_dir, parse_tags_input, path_in_dir, title_from_path, NoteMeta,
};

#[test]
fn normalize_note_path_handles_links_paths_and_ext() {
    assert_eq!(normalize_note_path("Some Note"), "Some Note.md");
    assert_eq!(normalize_note_path("folder/Some Note.md"), "folder/Some Note.md");
    assert_eq!(normalize_note_path("[[Some Note|Alias]]"), "Some Note.md");
    assert_eq!(
        normalize_note_path("vault/rust/ownership.md"),
        "vault/rust/ownership.md"
    );
}

#[test]
fn index_parse_tags_normalizes_and_deduplicates() {
    let tags = parse_tags_input(" Rust, rust  CLI #ignored cli ");
    assert_eq!(tags, vec!["rust", "cli", "ignored"]);
}

#[test]
fn parse_tags_normalizes_and_deduplicates() {
    let tags = parse_tags_input(" Rust, rust  CLI #ignored cli ");
    assert_eq!(tags, vec!["rust", "cli", "ignored"]);
}

#[test]
fn note_title_from_content_reads_frontmatter_only() {
    let fm = "---\ntitle: My Title\n---\n\n# Ignored\n";
    assert_eq!(note_title_from_content(fm).as_deref(), Some("My Title"));

    let heading = "# First Heading\nbody\n";
    assert_eq!(note_title_from_content(heading), None);
}

#[test]
fn dir_paths_are_cleaned_segment_by_segment() {
    assert_eq!(normalize_dir_path("  a\\b/../c/./d<>  "), "a/b/c/d");
    assert_eq!(normalize_dir_path("///"), "");
}

#[test]
fn notes_with_a_directory_get_joined_paths() {
    assert_eq!(note_path_with_dir(Some("docs/"), "Plan"), "docs/Plan.md");
    assert_eq!(note_path_with_dir(Some(""), "Plan"), "Plan.md");
    assert_eq!(note_path_with_dir(None, "  "), "");
}

#[test]
fn path_in_dir_matches_the_directory_and_below() {
    assert!(path_in_dir("docs/a.md", "docs"));
    assert!(path_in_dir("docs\\a.md", "docs/"));
    assert!(!path_in_dir("docsx/a.md", "docs"));
    assert!(path_in_dir("anything.md", ""));
}

#[test]
fn note_meta_paths() {
    let note = NoteMeta { path: "a\\b.md".to_string(), title: "B".to_string() };
    assert_eq!(note.display_path(), "a/b.md");
    assert_eq!(note.abs_path("/vault"), "/vault/a\\b.md");
    assert_eq!(abs_note_path("/vault/", "x.md"), "/vault/x.md");
    assert_eq!(abs_note_path("/vault", "/abs.md"), "/abs.md");
}

#[test]
fn titles_come_from_file_stems() {
    assert_eq!(title_from_path("dir/My Note.md"), "My Note");
    assert_eq!(title_from_path(".hidden"), ".hidden");
    assert_eq!(title_from_path("dir/.."), "");
}

#[test]
fn tags_encode_and_decode() {
    let tags = vec!["rust".to_string(), "cli".to_string()];
    assert_eq!(encode_tags(&tags), "rust,cli");
    assert_eq!(decode_tags(" rust , ,cli"), vec!["rust", "cli"]);
    assert_eq!(normalize_tag("  C++_Lang! "), "c_lang");
}

#[test]
fn today_is_a_dated_path() {
    let d = monux::index::today_date_path();
    let c: Vec<char> = d.chars().collect();
    assert_eq!(c.len(), 10);
    assert_eq!(c[4], '-');
    assert_eq!(c[7], '-');
    assert!(c.iter().enumerate().all(|(i, ch)| i == 4 || i == 7 || ch.is_ascii_digit()));
}
