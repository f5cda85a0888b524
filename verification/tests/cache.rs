use monux::tui::cache::{BufferCache, MAX_NOTE_BUFFER_CACHE};

#[test]
fn stashed_buffers_are_taken_back() {
    let mut c: BufferCache<i32> = BufferCache::new();
    c.stash("a.md".to_string(), 1);
    c.stash("dir/b.md".to_string(), 2);
    c.stash("a.md".to_string(), 3);
    assert_eq!(c.len(), 2);
    assert_eq!(c.take("dir//b.md"), Some(2));
    assert_eq!(c.take("dir/b.md"), None);
    assert_eq!(c.take("a.md"), Some(3));
    assert_eq!(c.len(), 0);
}

#[test]
fn the_buffer_used_longest_ago_goes_first() {
    let mut c: BufferCache<usize> = BufferCache::new();
    for i in 0..MAX_NOTE_BUFFER_CACHE {
        c.stash(format!("n{i}.md"), i);
    }
    c.stash("n0.md".to_string(), 100);
    c.stash("x.md".to_string(), 7);
    assert_eq!(c.len(), MAX_NOTE_BUFFER_CACHE);
    assert_eq!(c.take("n1.md"), None);
    assert_eq!(c.take("n0.md"), Some(100));
    assert_eq!(c.take("x.md"), Some(7));
    assert_eq!(c.take("n2.md"), Some(2));
}

#[test]
fn dropped_and_renamed_buffers() {
    let mut c: BufferCache<&str> = BufferCache::new();
    c.stash("a.md".to_string(), "A");
    c.drop_buffer("a.md");
    assert_eq!(c.take("a.md"), None);
    c.stash("old.md".to_string(), "O");
    let moved = c.remove_entry("old.md").unwrap();
    c.insert_entry("new.md".to_string(), moved);
    assert_eq!(c.take("new.md"), Some("O"));
    assert_eq!(c.take("old.md"), None);
}
