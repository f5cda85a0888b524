use monux::tui::state::{state_file_path, state_path_for_parent};
use monux::tui::screen::initial_status;
use monux::tui::state::{last_opened_state, load_last_opened_path};

#[test]
fn state_file_names_the_open_note() {
    assert_eq!(last_opened_state("a/b.md"), "last_opened_path = \"a/b.md\"\n");
}

#[test]
fn quotes_in_the_path_are_escaped() {
    assert_eq!(last_opened_state("say \"hi\".md"), "last_opened_path = \"say \\\"hi\\\".md\"\n");
}

#[test]
fn written_state_reads_back() {
    let text = last_opened_state("a/b.md");
    assert_eq!(load_last_opened_path(&text), Some("a/b.md".to_string()));
}

#[test]
fn comments_and_blank_lines_name_no_note() {
    let text = "# state\n\n  \nother = \"x.md\"\nlast_opened_slug = \"dir/note\"\n";
    assert_eq!(load_last_opened_path(text), Some("dir/note.md".to_string()));
}

#[test]
fn an_empty_value_is_passed_over() {
    let text = "last_opened_path = \"\"\nlast_opened_path = \"z\"\n";
    assert_eq!(load_last_opened_path(text), Some("z.md".to_string()));
}

#[test]
fn no_key_names_no_note() {
    assert_eq!(load_last_opened_path("nothing here\n"), None);
    assert_eq!(load_last_opened_path(""), None);
}

#[test]
fn state_file_sits_beside_the_config() {
    assert_eq!(state_file_path("/home/u/.config/monux/config.toml"), "/home/u/.config/monux/tui_state.toml");
    assert_eq!(state_file_path("config.toml"), "tui_state.toml");
    assert_eq!(state_file_path("/"), "tui_state.toml");
    assert_eq!(state_path_for_parent(Some("/etc/")), "/etc/tui_state.toml");
    assert_eq!(state_path_for_parent(None), "tui_state.toml");
}

#[test]
fn the_browser_starts_with_a_key_reminder() {
    assert_eq!(
        initial_status(),
        "tab/shift+tab: pane, h/j/k/l: move, i/a/o: insert, : for commands, ctrl+s: save"
    );
}
