use monux::config::{from_entries_with, join_rest, parse_config_entries, parse_env_path, resolve_home};
use monux::context::{AppDir, ContextError, StorageContext};

#[test]
fn app_dir_lies_under_the_config_dir() {
    let dir = AppDir::from_dirs(Some("/home/u/.config".to_string()), Some("/home/u".to_string())).unwrap();
    assert_eq!(dir.root(), "/home/u/.config/monux");
    assert_eq!(dir.config_path(), "/home/u/.config/monux/config.toml");
    assert_eq!(dir.index_path(), "/home/u/.config/monux/notes.redb");
    let ctx = StorageContext::with_app_dir(dir);
    assert_eq!(ctx.config_path(), "/home/u/.config/monux/config.toml");
    assert_eq!(ctx.index_path(), "/home/u/.config/monux/notes.redb");
}

#[test]
fn app_dir_falls_back_to_home() {
    let dir = AppDir::from_dirs(None, Some("/home/u".to_string())).unwrap();
    assert_eq!(dir.root(), "/home/u/monux");
    let err = AppDir::from_dirs(None, None).err().unwrap();
    assert_eq!(err, ContextError::NoConfigDir);
    assert_eq!(err.message(), "No config/home\ndirectory");
}

#[test]
fn config_entries_are_read() {
    let e = parse_config_entries("notes_dir = \"~/notes\"\n# comment\nautosave = off\ndaily_notes_dir = daily\nbad line\n");
    assert_eq!(e.notes_dir.as_deref(), Some("~/notes"));
    assert_eq!(e.daily_notes_dir, "daily");
    assert!(!e.autosave);
    let c = from_entries_with(e, None, Some("/home/u".to_string())).ok().unwrap();
    assert_eq!(c.notes_dir, "/home/u/notes");
    assert_eq!(c.daily_notes_dir, "daily");
    assert!(!c.autosave);
}

#[test]
fn config_without_notes_dir_is_refused() {
    let e = parse_config_entries("autosave = yes\n");
    assert!(e.autosave);
    let err = from_entries_with(e, None, None).err().unwrap();
    assert_eq!(err, ContextError::MissingNotesDir);
    assert_eq!(err.message(), "missing notes_dir");
}

#[test]
fn env_paths_resolve_against_the_variable() {
    assert_eq!(
        parse_env_path("env(\"NOTES\")/sub"),
        Some(("NOTES".to_string(), Some("sub".to_string())))
    );
    assert_eq!(parse_env_path("env(\"\")/x"), None);
    assert_eq!(parse_env_path("plain"), None);
    assert_eq!(resolve_home("env(\"NOTES\")/sub", Some("/data".to_string()), None), "/data/sub");
    assert_eq!(resolve_home("env(\"NOTES\")", None, Some("/h".to_string())), "env(\"NOTES\")");
    assert_eq!(resolve_home("~", None, Some("/h".to_string())), "/h");
    assert_eq!(resolve_home("~\\x", None, Some("/h".to_string())), "/h/x");
    assert_eq!(resolve_home("rel/x", None, Some("/h".to_string())), "rel/x");
    assert_eq!(join_rest("/b", Some("")), "/b");
    assert_eq!(join_rest("/b", Some("c")), "/b/c");
}
