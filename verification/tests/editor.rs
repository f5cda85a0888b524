use std::cell::RefCell;
use std::collections::HashMap;

use monux::editor::address::{parse_address_range, Addr, AddressRange};
use monux::editor::command::{parse_command, Command};
use monux::editor::error::EditorError;
use monux::editor::event::Event;
use monux::editor::machine::Editor;
use monux::editor::storage::Storage;

#[derive(Default)]
struct MemStore {
    files: RefCell<HashMap<String, String>>,
}

impl Storage for MemStore {
    fn read_to_string(&self, path: &str) -> Result<String, std::io::Error> {
        self.files
            .borrow()
            .get(path)
            .cloned()
            .ok_or_else(|| std::io::Error::new(std::io::ErrorKind::NotFound, "no such file"))
    }

    fn write_string(&self, path: &str, data: &str) -> Result<(), std::io::Error> {
        self.files.borrow_mut().insert(path.to_string(), data.to_string());
        Ok(())
    }
}

fn message(events: &[Event]) -> String {
    match events {
        [Event::Message(m)] => m.clone(),
        _ => panic!("expected one message"),
    }
}

fn lines(events: &[Event]) -> Vec<String> {
    events
        .iter()
        .map(|e| match e {
            Event::Line(l) => l.clone(),
            Event::Message(_) => panic!("expected lines"),
        })
        .collect()
}

#[test]
fn append_print_write_and_read_back() {
    let mut ed = Editor::new(MemStore::default());
    let out = ed.execute("a").unwrap();
    assert_eq!(message(&out.events), "enter input mode, finish with '.'");
    assert!(ed.is_in_input_mode());
    assert!(ed.execute("one").unwrap().events.is_empty());
    ed.execute("two").unwrap();
    let out = ed.execute(".").unwrap();
    assert_eq!(message(&out.events), "2");
    assert!(!ed.is_in_input_mode());
    let out = ed.execute("1,2p").unwrap();
    assert_eq!(lines(&out.events), vec!["one", "two"]);
    let out = ed.execute("1,$n").unwrap();
    assert_eq!(lines(&out.events), vec!["1\tone", "2\ttwo"]);
    let out = ed.execute("w notes.txt").unwrap();
    assert_eq!(message(&out.events), "8");
    let out = ed.execute("e").unwrap();
    assert_eq!(message(&out.events), "2");
    let out = ed.execute("q").unwrap();
    assert!(out.should_quit);
}

#[test]
fn errors_name_their_cause() {
    let mut ed = Editor::new(MemStore::default());
    assert!(matches!(ed.execute("p"), Err(EditorError::EmptyBuffer)));
    assert!(matches!(ed.execute("w"), Err(EditorError::MissingFilename)));
    assert!(matches!(ed.execute("z"), Err(EditorError::InvalidCommand(_))));
    ed.execute("a").unwrap();
    ed.execute("x").unwrap();
    ed.execute(".").unwrap();
    assert!(matches!(ed.execute("1,5p"), Err(EditorError::OutOfRange)));
    assert!(matches!(ed.execute("q"), Err(EditorError::UnsavedChanges)));
    assert!(ed.execute("Q").unwrap().should_quit);
    assert!(matches!(ed.execute("e missing.txt"), Err(EditorError::UnsavedChanges)));
}

#[test]
fn change_and_delete_lines() {
    let mut ed = Editor::new(MemStore::default());
    ed.execute("a").unwrap();
    for l in ["a", "b", "c"] {
        ed.execute(l).unwrap();
    }
    ed.execute(".").unwrap();
    ed.execute("2c").unwrap();
    ed.execute("B").unwrap();
    ed.execute(".").unwrap();
    let out = ed.execute("1,3p").unwrap();
    assert_eq!(lines(&out.events), vec!["a", "B", "c"]);
    let out = ed.execute("1d").unwrap();
    assert_eq!(message(&out.events), "1");
    let out = ed.execute("1,$p").unwrap();
    assert_eq!(lines(&out.events), vec!["B", "c"]);
}

#[test]
fn commands_and_addresses_parse() {
    assert!(matches!(
        parse_command("3,$p"),
        Ok(Command::Print { range: Some(AddressRange { start: Addr::Absolute(3), end: Addr::Last }), numbered: false })
    ));
    assert!(matches!(parse_command("w  out.txt "), Ok(Command::Write { path: Some(p) }) if p == "out.txt"));
    assert!(matches!(parse_command("q!"), Err(EditorError::InvalidCommand(_))));
    let (range, used) = parse_address_range(".,5x").unwrap().unwrap();
    assert_eq!(range, AddressRange { start: Addr::Current, end: Addr::Absolute(5) });
    assert_eq!(used, 3);
    assert_eq!(AddressRange::single(Addr::Last), AddressRange { start: Addr::Last, end: Addr::Last });
}

#[test]
fn address_errors_report_the_text_they_stop_at() {
    let err = parse_address_range("1,99999999999999999999999p").unwrap_err();
    assert!(matches!(err, EditorError::InvalidAddress(ref m) if m == "99999999999999999999999p"));
    let err = parse_address_range("99999999999999999999999p").unwrap_err();
    assert!(matches!(err, EditorError::InvalidAddress(ref m) if m == "99999999999999999999999p"));
    let err = parse_address_range("1,x").unwrap_err();
    assert!(matches!(err, EditorError::InvalidAddress(ref m) if m == "1,x"));
    let err = parse_command("  2,99999999999999999999999 ").unwrap_err();
    assert!(matches!(err, EditorError::InvalidAddress(ref m) if m == "99999999999999999999999"));
}
