use monux::frontmatter::{read_tags_from_markdown, split_frontmatter, write_tags_to_markdown};
use monux::index::normalize_tags;
use monux::storage;

fn strings(v: &[&str]) -> Vec<String> {
    v.iter().map(|s| s.to_string()).collect()
}

#[test]
fn written_tags_read_back() {
    let content = "---\ntitle: T\ntags: [old]\n---\nbody\n";
    let written = write_tags_to_markdown(content, &strings(&["Rust", "cli", "rust"]));
    assert_eq!(written, "---\ntitle: T\ntags: [rust, cli]\n---\nbody\n");
    assert_eq!(read_tags_from_markdown(&written), vec!["rust", "cli"]);
}

#[test]
fn tags_go_into_a_new_front_matter() {
    let written = write_tags_to_markdown("# Hello\n", &strings(&["a"]));
    assert_eq!(written, "---\ntags: [a]\n---\n# Hello\n");
    assert_eq!(read_tags_from_markdown(&written), vec!["a"]);
}

#[test]
fn clearing_the_only_entry_drops_the_front_matter() {
    let written = write_tags_to_markdown("---\ntags: [x]\n---\nbody\n", &Vec::new());
    assert_eq!(written, "body\n");
    assert!(read_tags_from_markdown(&written).is_empty());
}

#[test]
fn front_matter_splits_at_the_closing_fence() {
    let (fm, body) = split_frontmatter("---\r\na: 1\n  ---  \nx\ny").unwrap();
    assert_eq!(fm, "a: 1");
    assert_eq!(body, "x\ny\n");
    assert!(split_frontmatter("---\nnever closed\n").is_none());
    assert!(split_frontmatter("text\n---\n").is_none());
}

#[test]
fn quoted_and_spaced_tags_are_read() {
    let content = "---\ntags: [\"A\", b c, 'd']\n---\n";
    assert_eq!(read_tags_from_markdown(content), vec!["a", "b", "c", "d"]);
}

#[test]
fn the_file_store_splits_tags_at_spaces() {
    let tags = strings(&["a b", "A"]);
    assert_eq!(storage::normalize_tags(&tags), vec!["a", "b"]);
    assert_eq!(normalize_tags(&tags), vec!["ab", "a"]);
}

#[test]
fn the_file_store_front_matter_for_new_notes() {
    assert_eq!(
        storage::tags_frontmatter(&strings(&["Rust", "cli"])),
        "---\ntags: [rust, cli]\n---\n"
    );
    assert_eq!(storage::tags_frontmatter(&strings(&["#", " "])), "");
}

#[test]
fn the_file_store_reads_back_what_it_writes() {
    let (next, stored) = storage::retag("# Title\n", &strings(&["Zed", "alpha beta"]));
    assert_eq!(stored, vec!["zed", "alpha", "beta"]);
    assert_eq!(next, "---\ntags: [zed, alpha, beta]\n---\n# Title\n");
    assert_eq!(storage::read_tags_from_markdown(&next), stored);
    assert_eq!(
        storage::parse_tags_frontmatter_value(" [\"A\", b c] "),
        vec!["a", "b", "c"]
    );
    assert_eq!(
        storage::write_tags_to_markdown("---\ntags: [q]\nx: 1\n---\n", &strings(&["N"])),
        "---\nx: 1\ntags: [n]\n---\n"
    );
}
