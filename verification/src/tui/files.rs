//! The browser's note files: the text a buffer is written as, and what is
//! decided before a note is renamed, moved, written under a name, created or
//! opened.
use vstd::prelude::*;
use crate::text::{chars_of, join, join_with, string_of, trim_whitespace, trim_ws, find_char, CharSet};
use crate::index::{
    dir_path, file_name, file_name_chars, normalize_dir_path, note_path_in, note_path_of_path, note_path_with_dir,
    note_rel_path, normalize_note_path, opt_view, parse_tags_input, resolve_note_path_ref, strs, tags_of_input, NoteMeta,
};
use crate::storage::{tags_block, tags_frontmatter};
use crate::editor::machine::split_lines;
use crate::tui::edit::with_line;
use crate::tui::paths::{same_note_path, same_path};
use crate::tui::tree::{parent_of, parent_dir_of};
use crate::tui::links::note_at;
use crate::tui::panes::FocusPane;
use crate::tui::tree::{row_note, rows_view, selected_tree_note, NotesTreeRow};

verus! {

broadcast use vstd::string::group_string_axioms;

/// The text a buffer is written as: its lines joined by newlines, with a
/// final newline unless that leaves nothing.
pub open spec fn buffer_text(ls: Seq<Seq<char>>) -> Seq<char> {
    let j = join(ls, seq!['\n']);
    if j.len() == 0 {
        j
    } else {
        j.push('\n')
    }
}

pub fn buffer_content(lines: &Vec<String>) -> (r: String)
    ensures
        r@ == buffer_text(strs(lines@)),
{
    let mut parts: Vec<Vec<char>> = Vec::new();
    let mut i: usize = 0;
    while i < lines.len()
        invariant
            i <= lines@.len(),
            crate::text::views(parts@) == strs(lines@).take(i as int),
        decreases lines.len() - i,
    {
        let p = chars_of(lines[i].as_str());
        proof {
            assert(strs(lines@)[i as int] == lines@[i as int]@);
            assert(crate::text::views(parts@.push(p)) =~= crate::text::views(parts@).push(p@));
            assert(strs(lines@).take(i as int + 1) =~= strs(lines@).take(i as int).push(strs(lines@)[i as int]));
        }
        parts.push(p);
        i = i + 1;
    }
    assert(strs(lines@).take(lines@.len() as int) =~= strs(lines@));
    let mut nl: Vec<char> = Vec::new();
    nl.push('\n');
    assert(nl@ =~= seq!['\n']);
    let mut j = join_with(&parts, &nl);
    if j.len() > 0 {
        j.push('\n');
    }
    string_of(&j)
}

/// Writing a buffer whose lines hold no newline and reading the text back
/// as a buffer (which always has a line) gives the buffer back.
pub proof fn lemma_buffer_round_trip(ls: Seq<Seq<char>>)
    requires
        forall|i: int| 0 <= i < ls.len() ==> !(#[trigger] ls[i]).contains('\n'),
    ensures
        with_line(split_lines(buffer_text(ls))) == with_line(ls),
{
    let j = join(ls, seq!['\n']);
    if ls.len() == 0 {
        assert(j.len() == 0);
    } else if j.len() == 0 {
        if ls.len() >= 2 {
            lemma_join_long(ls);
        }
        assert(ls.len() == 1);
        assert(ls[0] == j);
        assert(ls[0] =~= Seq::<char>::empty());
        assert(ls =~= seq![Seq::<char>::empty()]);
    } else {
        crate::editor::laws::lemma_split_join(ls);
        let c = j.push('\n');
        assert(c.drop_last() =~= j);
        assert(split(c, CharSet::Only('\n')) == split(j, CharSet::Only('\n')).push(Seq::<char>::empty()));
        assert(split(c, CharSet::Only('\n')).drop_last() =~= ls);
    }
}

proof fn lemma_join_long(ls: Seq<Seq<char>>)
    requires
        ls.len() >= 2,
    ensures
        join(ls, seq!['\n']).len() > 0,
{
    let d = ls.drop_last();
    assert(join(ls, seq!['\n']) == join(d, seq!['\n']) + seq!['\n'] + ls.last());
}

use crate::text::split;

// ---------------------------------------------------------------------------
// What stops an operation on a note
// ---------------------------------------------------------------------------

/// Why an operation on a note does not go ahead.
#[derive(Clone, Copy, Debug, PartialEq, Eq, Structural)]
pub enum NoteRefusal {
    /// A rename to a blank name.
    EmptyNewName,
    /// The note is not listed.
    NotFound,
    /// The note is open with unsaved changes.
    Unsaved,
    /// The new path normalises to nothing.
    InvalidPath,
    /// The note already has that path.
    SameName,
    /// A move's target normalises to nothing.
    InvalidTarget,
    /// The note is in that directory already.
    AlreadyThere,
    /// No note is selected or open.
    NoNote,
    /// `:w` with a blank name.
    SaveUsage,
    /// `:w name` for a note that has a name.
    AlreadyNamed,
    /// The name for `:w name` normalises to nothing.
    InvalidName,
    /// A new note with a blank name.
    EmptyName,
    /// A new note's path normalises to nothing.
    InvalidNotePath,
    /// Opening another note over unsaved changes.
    UnsavedSwitch,
}

pub open spec fn refusal_message(r: NoteRefusal) -> Seq<char> {
    match r {
        NoteRefusal::EmptyNewName => "new note name cannot be empty"@,
        NoteRefusal::NotFound => "note not found"@,
        NoteRefusal::Unsaved => "unsaved changes; save with :w\nfirst"@,
        NoteRefusal::InvalidPath => "invalid note path"@,
        NoteRefusal::SameName => "note already has this name"@,
        NoteRefusal::InvalidTarget => "target directory is invalid"@,
        NoteRefusal::AlreadyThere => "note is already in this\ndirectory"@,
        NoteRefusal::NoNote => "no note selected"@,
        NoteRefusal::SaveUsage => "usage: :w <name>"@,
        NoteRefusal::AlreadyNamed => "current note already has a name; use\n:w"@,
        NoteRefusal::InvalidName => "note name is invalid"@,
        NoteRefusal::EmptyName => "note name cannot be empty"@,
        NoteRefusal::InvalidNotePath => "note path is invalid"@,
        NoteRefusal::UnsavedSwitch => "unsaved changes; use :w before switching or\n:e!"@,
    }
}

impl NoteRefusal {
    /// What the status line says.
    pub fn message(&self) -> (r: String)
        ensures
            r@ == refusal_message(*self),
    {
        let s = match self {
            NoteRefusal::EmptyNewName => "new note name cannot be empty",
            NoteRefusal::NotFound => "note not found",
            NoteRefusal::Unsaved => "unsaved changes; save with :w\nfirst",
            NoteRefusal::InvalidPath => "invalid note path",
            NoteRefusal::SameName => "note already has this name",
            NoteRefusal::InvalidTarget => "target directory is invalid",
            NoteRefusal::AlreadyThere => "note is already in this\ndirectory",
            NoteRefusal::NoNote => "no note selected",
            NoteRefusal::SaveUsage => "usage: :w <name>",
            NoteRefusal::AlreadyNamed => "current note already has a name; use\n:w",
            NoteRefusal::InvalidName => "note name is invalid",
            NoteRefusal::EmptyName => "note name cannot be empty",
            NoteRefusal::InvalidNotePath => "note path is invalid",
            NoteRefusal::UnsavedSwitch => "unsaved changes; use :w before switching or\n:e!",
        };
        String::from_str(s)
    }
}

/// Whether the open note is the one at `p` and has unsaved changes.
pub open spec fn open_and_dirty(open_note: Option<Seq<char>>, p: Seq<char>, dirty: bool) -> bool {
    dirty && (open_note matches Some(o) && same_path(o, p))
}

fn is_open_dirty(open_note: Option<&str>, p: &str, dirty: bool) -> (b: bool)
    ensures
        b == open_and_dirty(opt_view(open_note), p@, dirty),
{
    if !dirty {
        return false;
    }
    match open_note {
        Some(o) => same_note_path(o, p),
        None => false,
    }
}

// ---------------------------------------------------------------------------
// Renaming and moving a note
// ---------------------------------------------------------------------------

/// Renaming the note at `p` to `name`: the note found and the path it goes
/// to. A name with a separator is a path of its own; a plain name stays in
/// the note's directory.
pub open spec fn rename_plan(
    notes: Seq<NoteMeta>,
    p: Seq<char>,
    name: Seq<char>,
    open_note: Option<Seq<char>>,
    dirty: bool,
) -> Result<(Seq<char>, Seq<char>), NoteRefusal> {
    let n = trim_ws(name);
    if n.len() == 0 {
        Err(NoteRefusal::EmptyNewName)
    } else {
        match note_at(notes, p) {
            None => Err(NoteRefusal::NotFound),
            Some(note) => if open_and_dirty(open_note, p, dirty) {
                Err(NoteRefusal::Unsaved)
            } else {
                let target = if n.contains('/') || n.contains('\\') {
                    note_rel_path(n)
                } else {
                    note_path_in(Some(parent_of(note.path@)), n)
                };
                if target.len() == 0 {
                    Err(NoteRefusal::InvalidPath)
                } else if same_path(target, note.path@) {
                    Err(NoteRefusal::SameName)
                } else {
                    Ok((note.path@, target))
                }
            },
        }
    }
}

fn find_note_at(notes: &Vec<NoteMeta>, p: &str) -> (r: Option<usize>)
    ensures
        match r {
            Some(i) => i < notes@.len() && note_at(notes@, p@) == Some(notes@[i as int]),
            None => note_at(notes@, p@) is None,
        },
{
    let mut i: usize = 0;
    assert(notes@.skip(0) =~= notes@);
    while i < notes.len()
        invariant
            i <= notes@.len(),
            note_at(notes@, p@) == note_at(notes@.skip(i as int), p@),
        decreases notes.len() - i,
    {
        assert(notes@.skip(i as int)[0] == notes@[i as int]);
        if same_note_path(notes[i].path.as_str(), p) {
            return Some(i);
        }
        assert(notes@.skip(i as int).drop_first() =~= notes@.skip(i as int + 1));
        i = i + 1;
    }
    None
}

/// Deciding a rename: the note's path and the path it goes to.
pub fn plan_note_rename(
    notes: &Vec<NoteMeta>,
    note_path: &str,
    new_name: &str,
    open_note: Option<&str>,
    dirty: bool,
) -> (r: Result<(String, String), NoteRefusal>)
    ensures
        match (r, rename_plan(notes@, note_path@, new_name@, opt_view(open_note), dirty)) {
            (Ok((a, b)), Ok((av, bv))) => a@ == av && b@ == bv,
            (Err(e), Err(ev)) => e == ev,
            _ => false,
        },
{
    let n = trim_whitespace(&chars_of(new_name));
    if n.len() == 0 {
        return Err(NoteRefusal::EmptyNewName);
    }
    let i = match find_note_at(notes, note_path) {
        Some(i) => i,
        None => {
            return Err(NoteRefusal::NotFound);
        },
    };
    if is_open_dirty(open_note, note_path, dirty) {
        return Err(NoteRefusal::Unsaved);
    }
    let name = string_of(&n);
    let has_sep = match find_char(&n, '/') {
        Some(_) => true,
        None => match find_char(&n, '\\') {
            Some(_) => true,
            None => false,
        },
    };
    proof {
        if n@.contains('/') {
            let k = choose|k: int| 0 <= k < n@.len() && n@[k] == '/';
        }
    }
    assert(has_sep == (n@.contains('/') || n@.contains('\\')));
    let from = notes[i].path.as_str();
    let target = if has_sep {
        normalize_note_path(name.as_str())
    } else {
        let parent = parent_dir_of(from);
        note_path_with_dir(Some(parent.as_str()), name.as_str())
    };
    if target.as_str().unicode_len() == 0 {
        return Err(NoteRefusal::InvalidPath);
    }
    if same_note_path(target.as_str(), from) {
        return Err(NoteRefusal::SameName);
    }
    Ok((string_of(&chars_of(from)), target))
}

/// Moving the note at `p` into directory `raw_dir`: the path it goes to,
/// with its file name kept.
pub open spec fn move_plan(p: Seq<char>, raw_dir: Seq<char>, open_note: Option<Seq<char>>, dirty: bool) -> Result<Seq<char>, NoteRefusal> {
    let fname = match file_name(p) {
        Some(f) => f,
        None => Seq::<char>::empty(),
    };
    let target = note_path_in(Some(dir_path(raw_dir)), fname);
    if target.len() == 0 {
        Err(NoteRefusal::InvalidTarget)
    } else if same_path(target, p) {
        Err(NoteRefusal::AlreadyThere)
    } else if open_and_dirty(open_note, p, dirty) {
        Err(NoteRefusal::Unsaved)
    } else {
        Ok(target)
    }
}

pub fn plan_note_move(note_path: &str, raw_dir: &str, open_note: Option<&str>, dirty: bool) -> (r: Result<String, NoteRefusal>)
    ensures
        match (r, move_plan(note_path@, raw_dir@, opt_view(open_note), dirty)) {
            (Ok(t), Ok(tv)) => t@ == tv,
            (Err(e), Err(ev)) => e == ev,
            _ => false,
        },
{
    let dir = normalize_dir_path(raw_dir);
    let fname = match file_name_chars(&chars_of(note_path)) {
        Some(f) => string_of(&f),
        None => String::new(),
    };
    let target = note_path_with_dir(Some(dir.as_str()), fname.as_str());
    if target.as_str().unicode_len() == 0 {
        return Err(NoteRefusal::InvalidTarget);
    }
    if same_note_path(target.as_str(), note_path) {
        return Err(NoteRefusal::AlreadyThere);
    }
    if is_open_dirty(open_note, note_path, dirty) {
        return Err(NoteRefusal::Unsaved);
    }
    Ok(target)
}

// ---------------------------------------------------------------------------
// Writing under a name, creating, opening
// ---------------------------------------------------------------------------

/// `:w name` for the unnamed buffer: the note's path and the directory that
/// must exist for it.
pub open spec fn save_as_plan(raw_name: Seq<char>, named: bool) -> Result<(Seq<char>, Seq<char>), NoteRefusal> {
    let n = trim_ws(raw_name);
    if n.len() == 0 {
        Err(NoteRefusal::SaveUsage)
    } else if named {
        Err(NoteRefusal::AlreadyNamed)
    } else {
        let rel = note_path_in(None, n);
        if rel.len() == 0 {
            Err(NoteRefusal::InvalidName)
        } else {
            Ok((rel, dir_path(parent_of(rel))))
        }
    }
}

pub fn plan_save_as(raw_name: &str, named: bool) -> (r: Result<(String, String), NoteRefusal>)
    ensures
        match (r, save_as_plan(raw_name@, named)) {
            (Ok((a, b)), Ok((av, bv))) => a@ == av && b@ == bv,
            (Err(e), Err(ev)) => e == ev,
            _ => false,
        },
{
    let n = string_of(&trim_whitespace(&chars_of(raw_name)));
    if n.as_str().unicode_len() == 0 {
        return Err(NoteRefusal::SaveUsage);
    }
    if named {
        return Err(NoteRefusal::AlreadyNamed);
    }
    let rel = note_path_with_dir(None, n.as_str());
    if rel.as_str().unicode_len() == 0 {
        return Err(NoteRefusal::InvalidName);
    }
    let dir = normalize_dir_path(parent_dir_of(rel.as_str()).as_str());
    Ok((rel, dir))
}

/// A new note to create.
#[derive(Debug, PartialEq, Eq)]
pub struct NewNote {
    /// Its path.
    pub rel: String,
    /// The directory that must exist for it.
    pub dir: String,
    /// Its tags.
    pub tags: Vec<String>,
    /// The text it starts with.
    pub content: String,
}

/// Creating a note named `raw_name` in `raw_dir` with the tags typed in
/// `raw_tags`: its path, the directory that must exist, its tags and its
/// starting text (the tags as front matter).
pub open spec fn new_note_plan(raw_dir: Seq<char>, raw_name: Seq<char>, raw_tags: Seq<char>, dirty: bool) -> Result<(Seq<char>, Seq<char>, Seq<Seq<char>>, Seq<char>), NoteRefusal> {
    let n = trim_ws(raw_name);
    if dirty {
        Err(NoteRefusal::Unsaved)
    } else if n.len() == 0 {
        Err(NoteRefusal::EmptyName)
    } else {
        let rel = note_path_in(Some(raw_dir), n);
        let tags = tags_of_input(raw_tags);
        if rel.len() == 0 {
            Err(NoteRefusal::InvalidNotePath)
        } else {
            Ok((rel, dir_path(raw_dir), tags, tags_block(tags)))
        }
    }
}

pub fn plan_new_note(raw_dir: &str, raw_name: &str, raw_tags: &str, dirty: bool) -> (r: Result<NewNote, NoteRefusal>)
    ensures
        match (r, new_note_plan(raw_dir@, raw_name@, raw_tags@, dirty)) {
            (Ok(p), Ok((rel, dir, tags, content))) => p.rel@ == rel && p.dir@ == dir && strs(p.tags@) == tags
                && p.content@ == content,
            (Err(e), Err(ev)) => e == ev,
            _ => false,
        },
{
    if dirty {
        return Err(NoteRefusal::Unsaved);
    }
    let n = string_of(&trim_whitespace(&chars_of(raw_name)));
    if n.as_str().unicode_len() == 0 {
        return Err(NoteRefusal::EmptyName);
    }
    let tags = parse_tags_input(raw_tags);
    let rel = note_path_with_dir(Some(raw_dir), n.as_str());
    if rel.as_str().unicode_len() == 0 {
        return Err(NoteRefusal::InvalidNotePath);
    }
    let dir = normalize_dir_path(raw_dir);
    let content = tags_frontmatter(&tags);
    Ok(NewNote { rel, dir, tags, content })
}

/// Opening the note at `rel`: refused over unsaved changes unless forced,
/// and for a path that normalises to nothing; nothing to do for the note
/// already open unless forced; else the normalised path to open.
pub open spec fn open_plan(rel: Seq<char>, open_note: Option<Seq<char>>, dirty: bool, force: bool) -> Result<Option<Seq<char>>, NoteRefusal> {
    let n = note_path_of_path(rel);
    if dirty && !force {
        Err(NoteRefusal::UnsavedSwitch)
    } else if n.len() == 0 {
        Err(NoteRefusal::InvalidPath)
    } else if !force && (open_note matches Some(o) && same_path(o, n)) {
        Ok(None)
    } else {
        Ok(Some(n))
    }
}

pub fn plan_open_note(rel: &str, open_note: Option<&str>, dirty: bool, force: bool) -> (r: Result<Option<String>, NoteRefusal>)
    ensures
        match (r, open_plan(rel@, opt_view(open_note), dirty, force)) {
            (Ok(Some(p)), Ok(Some(pv))) => p@ == pv,
            (Ok(None), Ok(None)) => true,
            (Err(e), Err(ev)) => e == ev,
            _ => false,
        },
{
    if dirty && !force {
        return Err(NoteRefusal::UnsavedSwitch);
    }
    let n = resolve_note_path_ref(rel);
    if n.as_str().unicode_len() == 0 {
        return Err(NoteRefusal::InvalidPath);
    }
    if !force {
        match open_note {
            Some(o) => {
                if same_note_path(o, n.as_str()) {
                    return Ok(None);
                }
            },
            None => {},
        }
    }
    Ok(Some(n))
}

/// What the status line says once a note is created.
pub open spec fn created_text(path: Seq<char>, tags: Seq<Seq<char>>) -> Seq<char> {
    if tags.len() == 0 {
        "created "@ + path
    } else {
        "created "@ + path + " with #"@ + join(tags, " #"@)
    }
}

pub fn created_message(path: &str, tags: &Vec<String>) -> (r: String)
    ensures
        r@ == created_text(path@, strs(tags@)),
{
    let mut s = String::from_str("created ");
    s.append(path);
    if tags.len() == 0 {
        return s;
    }
    s.append(" with #");
    let mut parts: Vec<Vec<char>> = Vec::new();
    let mut i: usize = 0;
    while i < tags.len()
        invariant
            i <= tags@.len(),
            crate::text::views(parts@) == strs(tags@).take(i as int),
        decreases tags.len() - i,
    {
        let p = chars_of(tags[i].as_str());
        proof {
            assert(strs(tags@)[i as int] == tags@[i as int]@);
            assert(crate::text::views(parts@.push(p)) =~= crate::text::views(parts@).push(p@));
            assert(strs(tags@).take(i as int + 1) =~= strs(tags@).take(i as int).push(strs(tags@)[i as int]));
        }
        parts.push(p);
        i = i + 1;
    }
    assert(strs(tags@).take(tags@.len() as int) =~= strs(tags@));
    let sep = chars_of(" #");
    let joined = string_of(&join_with(&parts, &sep));
    s.append(joined.as_str());
    s
}

/// What the status line says when the directory a note needs is missing.
pub fn missing_dir_message(dir: &str) -> (r: String)
    ensures
        r@ == "directory '"@ + dir@ + "' does not\nexist; create it first"@,
{
    let mut s = String::from_str("directory '");
    s.append(dir);
    s.append("' does not\nexist; create it first");
    s
}

/// The note an operation applies to: in the notes pane, the note on the
/// selected row; else, or when that row is no note's, the open note when it
/// is listed.
pub open spec fn picked_note(
    focus: FocusPane,
    rows: Seq<crate::tui::tree::TreeRow>,
    notes: Seq<NoteMeta>,
    selected: int,
    open_note: Option<Seq<char>>,
) -> Option<Seq<char>> {
    let from_tree = if focus == FocusPane::Notes {
        row_note(rows, notes.len(), selected)
    } else {
        None
    };
    match from_tree {
        Some(i) => Some(notes[i as int].path@),
        None => match open_note {
            Some(o) => match note_at(notes, o) {
                Some(n) => Some(n.path@),
                None => None,
            },
            None => None,
        },
    }
}

pub fn selected_or_current_note(
    focus: FocusPane,
    rows: &Vec<NotesTreeRow>,
    notes: &Vec<NoteMeta>,
    selected: usize,
    open_note: Option<&str>,
) -> (r: Option<String>)
    ensures
        match r {
            Some(p) => picked_note(focus, rows_view(rows@), notes@, selected as int, opt_view(open_note)) == Some(p@),
            None => picked_note(focus, rows_view(rows@), notes@, selected as int, opt_view(open_note)) is None,
        },
{
    let from_tree = match focus {
        FocusPane::Notes => selected_tree_note(rows, notes, selected),
        _ => None,
    };
    match from_tree {
        Some(i) => Some(string_of(&chars_of(notes[i].path.as_str()))),
        None => match open_note {
            Some(o) => match find_note_at(notes, o) {
                Some(i) => Some(string_of(&chars_of(notes[i].path.as_str()))),
                None => None,
            },
            None => None,
        },
    }
}

} // verus!
