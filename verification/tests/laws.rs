use std::cell::RefCell;
use std::collections::HashMap;
use std::rc::Rc;

use monux::editor::error::EditorError;
use monux::editor::machine::Editor;
use monux::editor::storage::Storage;
use monux::frontmatter::{read_tags_from_markdown, write_tags_to_markdown};
use monux::index::{normalize_note_path, parse_tags_input};
use monux::slug::slugify;
use monux::storage;

#[derive(Clone, Default)]
struct SharedStore {
    files: Rc<RefCell<HashMap<String, String>>>,
    writes: Rc<RefCell<Vec<(String, String)>>>,
}

impl Storage for SharedStore {
    fn read_to_string(&self, path: &str) -> Result<String, std::io::Error> {
        self.files
            .borrow()
            .get(path)
            .cloned()
            .ok_or_else(|| std::io::Error::new(std::io::ErrorKind::NotFound, "missing"))
    }

    fn write_string(&self, path: &str, data: &str) -> Result<(), std::io::Error> {
        self.writes.borrow_mut().push((path.to_string(), data.to_string()));
        self.files.borrow_mut().insert(path.to_string(), data.to_string());
        Ok(())
    }
}

fn is_slug_shaped(s: &str) -> bool {
    s.chars().all(|c| c.is_ascii_lowercase() || c.is_ascii_digit() || c == '-' || c == '_')
        && !s.starts_with('-')
        && !s.ends_with('-')
        && !s.contains("--")
}

#[test]
fn slugs_have_their_shape_and_are_fixed_points() {
    for raw in ["  Hello,  World! ", "--a--b--", "Ünïcödé ⇒ text", "x_y - z", "", "  - -  ", "ABC123"] {
        let s = slugify(raw);
        assert!(is_slug_shaped(&s), "{raw:?} gave {s:?}");
        assert_eq!(slugify(&s), s);
    }
    assert_eq!(slugify("  Hello,  World! "), "hello-world");
    assert_eq!(slugify("--a--b--"), "a-b");
}

#[test]
fn parsed_tags_reparse_to_themselves() {
    for raw in [" Rust, rust  CLI #ignored cli ", "", " , ,", "a-b,A_B c\td\ne", "#x #y"] {
        let tags = parse_tags_input(raw);
        assert_eq!(parse_tags_input(&tags.join(",")), tags);
    }
    assert_eq!(parse_tags_input(&parse_tags_input("Rust, cli rust").join(",")), vec!["rust", "cli"]);
}

#[test]
fn canonical_note_paths_are_fixed_points() {
    for raw in ["Some Note", "[[folder\\Sub/ Note |alias]]", "a/./b/../c.md", " /x//y.md/ ", "", "notes.md.md"] {
        let p = normalize_note_path(raw);
        assert_eq!(normalize_note_path(&p), p, "{raw:?}");
        if !p.is_empty() {
            assert!(p.ends_with(".md"));
            assert!(p.split('/').all(|s| !s.is_empty() && s != "." && s != ".."));
        }
    }
    assert_eq!(normalize_note_path("a/./b/../c"), "a/b/c.md");
}

#[test]
fn reserved_characters_can_leave_a_parent_segment() {
    // `<..>` loses its angle brackets only after the `..` check, so the
    // path keeps a `..` segment, which a second pass drops.
    let p = normalize_note_path("<..>/a");
    assert_eq!(p, "../a.md");
    assert_eq!(normalize_note_path(&p), "a.md");
}

#[test]
fn tags_read_back_from_a_crlf_note() {
    let content = "---\r\ntitle: T\r\ntags: [old]\r\n---\r\nbody\r\nmore\r\n";
    let tags = vec!["Rust".to_string(), "cli".to_string(), "rust".to_string()];
    let written = write_tags_to_markdown(content, &tags);
    assert_eq!(written, "---\ntitle: T\ntags: [rust, cli]\n---\nbody\nmore\n");
    assert_eq!(read_tags_from_markdown(&written), vec!["rust", "cli"]);
    let stored = storage::write_tags_to_markdown(content, &tags);
    assert_eq!(storage::read_tags_from_markdown(&stored), vec!["rust", "cli"]);
}

#[test]
fn input_mode_follows_the_commands_typed() {
    let mut ed = Editor::new(SharedStore::default());
    assert!(!ed.is_in_input_mode());
    assert!(matches!(ed.execute("c"), Err(EditorError::EmptyBuffer)));
    assert!(!ed.is_in_input_mode());
    ed.execute("a").unwrap();
    assert!(ed.is_in_input_mode());
    ed.execute("a").unwrap();
    ed.execute("p").unwrap();
    assert!(ed.is_in_input_mode());
    ed.execute(".").unwrap();
    assert!(!ed.is_in_input_mode());
    ed.execute("1,$p").unwrap();
    assert!(!ed.is_in_input_mode());
    ed.execute("1i").unwrap();
    assert!(ed.is_in_input_mode());
    ed.execute(".").unwrap();
    assert!(!ed.is_in_input_mode());
}

#[test]
fn a_file_read_and_written_back_keeps_its_bytes() {
    let store = SharedStore::default();
    let text = "first\n\nthird line\n";
    store.files.borrow_mut().insert("notes.txt".to_string(), text.to_string());
    let mut ed = Editor::new(store.clone());
    ed.execute("e notes.txt").unwrap();
    let out = ed.execute("w").unwrap();
    assert!(!out.should_quit);
    let writes = store.writes.borrow();
    assert_eq!(writes.len(), 1);
    assert_eq!(writes[0], ("notes.txt".to_string(), text.to_string()));
}

#[test]
fn tags_read_back_from_a_note_with_stray_carriage_returns() {
    let content = "---\ntitle: a\r\r\r\nx\ry\r\ntags: old\n---\nbody\rmore\r";
    let tags = vec!["New".to_string(), "x".to_string()];
    let written = write_tags_to_markdown(content, &tags);
    assert_eq!(read_tags_from_markdown(&written), vec!["new", "x"]);
    assert!(written.starts_with("---\n"));
    let stored = storage::write_tags_to_markdown(content, &tags);
    assert_eq!(storage::read_tags_from_markdown(&stored), vec!["new", "x"]);
}
