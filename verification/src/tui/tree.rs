//! The notes pane: the rows it shows for one directory (a way up, the
//! directories in it, the notes in it), and what a row selects.
//!
//! Paths are the `/`-separated relative paths the index keeps.
use vstd::prelude::*;
use crate::text::{chars_of, contains_exec, contains_seq, eq_chars, slice_chars, string_of, trim_whitespace, trim_ws};
use crate::vault::{lower_of, to_lowercase};
use crate::index::{file_name, file_name_chars, key_of, opt_view, path_key, stem, strs, title_from_path, NoteMeta};
use crate::tui::names::{display_name, display_name_from_note_path};
use crate::tui::panes::FocusPane;
use crate::index::title_of_path;

verus! {

broadcast use vstd::string::group_string_axioms;

/// A row of the notes pane.
#[derive(Debug, PartialEq, Eq)]
pub enum NotesTreeRow {
    /// The way up to the parent directory.
    ParentDir { path: String },
    /// A directory inside the one shown.
    Dir { path: String, depth: usize, name: String },
    /// A note inside the directory shown, by its place in the notes list.
    Note { note_index: usize, depth: usize, name: String },
}

/// A row as the specifications see it.
pub enum TreeRow {
    ParentDir(Seq<char>),
    Dir(Seq<char>, nat, Seq<char>),
    Note(nat, nat, Seq<char>),
}

pub open spec fn row_view(r: NotesTreeRow) -> TreeRow {
    match r {
        NotesTreeRow::ParentDir { path } => TreeRow::ParentDir(path@),
        NotesTreeRow::Dir { path, depth, name } => TreeRow::Dir(path@, depth as nat, name@),
        NotesTreeRow::Note { note_index, depth, name } => TreeRow::Note(note_index as nat, depth as nat, name@),
    }
}

pub open spec fn rows_view(rs: Seq<NotesTreeRow>) -> Seq<TreeRow> {
    rs.map_values(|r: NotesTreeRow| row_view(r))
}

/// The paths of the listed notes.
pub open spec fn note_paths(notes: Seq<NoteMeta>) -> Seq<Seq<char>> {
    notes.map_values(|n: NoteMeta| n.path@)
}

/// Position of the last `/` in `s`, or -1.
pub open spec fn last_slash(s: Seq<char>) -> int
    decreases s.len(),
{
    if s.len() == 0 {
        -1
    } else if s.last() == '/' {
        s.len() - 1
    } else {
        last_slash(s.drop_last())
    }
}

/// The directory a path is in: what comes before its last `/`, or the root.
pub open spec fn parent_of(path: Seq<char>) -> Seq<char> {
    if last_slash(path) < 0 {
        Seq::<char>::empty()
    } else {
        path.take(last_slash(path))
    }
}

/// The last `/`-separated segment of a path.
pub open spec fn leaf_name(path: Seq<char>) -> Seq<char> {
    path.skip(last_slash(path) + 1)
}

/// The name a note's row shows: its file stem, or its whole path when the
/// path names no file.
pub open spec fn note_row_name(path: Seq<char>) -> Seq<char> {
    match file_name(path) {
        Some(n) => stem(n),
        None => key_of(path),
    }
}

proof fn lemma_last_slash(s: Seq<char>, k: int)
    requires
        -1 <= k < s.len(),
        k >= 0 ==> s[k] == '/',
        forall|j: int| k < j < s.len() ==> s[j] != '/',
    ensures
        last_slash(s) == k,
    decreases s.len(),
{
    if s.len() > 0 && k < s.len() - 1 {
        assert forall|j: int| k < j < s.drop_last().len() implies s.drop_last()[j] != '/' by {
            assert(s.drop_last()[j] == s[j]);
        }
        if k >= 0 {
            assert(s.drop_last()[k] == s[k]);
        }
        lemma_last_slash(s.drop_last(), k);
    }
}

fn last_slash_exec(s: &Vec<char>) -> (r: Option<usize>)
    ensures
        match r {
            Some(k) => last_slash(s@) == k as int && k < s@.len(),
            None => last_slash(s@) == -1,
        },
{
    let mut k = s.len();
    while k > 0 && s[k - 1] != '/'
        invariant
            k <= s@.len(),
            forall|j: int| k <= j < s@.len() ==> s@[j] != '/',
        decreases k,
    {
        k = k - 1;
    }
    proof {
        lemma_last_slash(s@, k as int - 1);
    }
    if k == 0 {
        None
    } else {
        Some(k - 1)
    }
}

fn parent_chars(s: &Vec<char>) -> (r: Vec<char>)
    ensures
        r@ == parent_of(s@),
{
    match last_slash_exec(s) {
        Some(k) => slice_chars(s, 0, k),
        None => Vec::new(),
    }
}

fn leaf_chars(s: &Vec<char>) -> (r: Vec<char>)
    ensures
        r@ == leaf_name(s@),
{
    match last_slash_exec(s) {
        Some(k) => {
            let n = s.len();
            slice_chars(s, k + 1, n)
        },
        None => {
            assert(s@.skip(0) =~= s@);
            s.clone()
        },
    }
}

/// The directory that holds `path`.
pub fn parent_dir_of(path: &str) -> (r: String)
    ensures
        r@ == parent_of(path@),
{
    string_of(&parent_chars(&chars_of(path)))
}

fn note_name(path: &str) -> (r: String)
    ensures
        r@ == note_row_name(path@),
{
    match file_name_chars(&chars_of(path)) {
        Some(_) => title_from_path(path),
        None => path_key(path),
    }
}

/// The rows of the directories of `dirs` that lie directly in `cur`.
pub open spec fn dir_rows(dirs: Seq<Seq<char>>, cur: Seq<char>) -> Seq<TreeRow>
    decreases dirs.len(),
{
    if dirs.len() == 0 {
        Seq::<TreeRow>::empty()
    } else {
        let prev = dir_rows(dirs.drop_last(), cur);
        let d = dirs.last();
        if parent_of(d) == cur {
            prev.push(TreeRow::Dir(d, 0, leaf_name(d)))
        } else {
            prev
        }
    }
}

/// The rows of the notes of `paths` that lie directly in `cur`, each by its
/// place in `paths`.
pub open spec fn note_rows(paths: Seq<Seq<char>>, cur: Seq<char>) -> Seq<TreeRow>
    decreases paths.len(),
{
    if paths.len() == 0 {
        Seq::<TreeRow>::empty()
    } else {
        let prev = note_rows(paths.drop_last(), cur);
        let p = paths.last();
        if parent_of(p) == cur {
            prev.push(TreeRow::Note((paths.len() - 1) as nat, 0, note_row_name(p)))
        } else {
            prev
        }
    }
}

/// The rows the pane shows for directory `cur`: the way up unless `cur` is
/// the root, then its directories, then its notes.
pub open spec fn tree_rows(cur: Seq<char>, dirs: Seq<Seq<char>>, paths: Seq<Seq<char>>) -> Seq<TreeRow> {
    let up = if cur.len() == 0 {
        Seq::<TreeRow>::empty()
    } else {
        seq![TreeRow::ParentDir(parent_of(cur))]
    };
    up + dir_rows(dirs, cur) + note_rows(paths, cur)
}

proof fn lemma_rows_push(rs: Seq<NotesTreeRow>, r: NotesTreeRow)
    ensures
        rows_view(rs.push(r)) == rows_view(rs).push(row_view(r)),
{
    assert(rows_view(rs.push(r)) =~= rows_view(rs).push(row_view(r)));
}

/// The rows of the notes pane for directory `current`, given the
/// directories under the notes root and the listed notes.
pub fn build_notes_tree(current: &str, dirs: &Vec<String>, notes: &Vec<NoteMeta>) -> (r: Vec<NotesTreeRow>)
    ensures
        rows_view(r@) == tree_rows(current@, strs(dirs@), note_paths(notes@)),
        notes_in_range(rows_view(r@), notes@.len()),
{
    let cur = chars_of(current);
    let mut rows: Vec<NotesTreeRow> = Vec::new();
    if cur.len() > 0 {
        let up = NotesTreeRow::ParentDir { path: string_of(&parent_chars(&cur)) };
        proof {
            lemma_rows_push(rows@, up);
        }
        rows.push(up);
    }
    let ghost head = rows_view(rows@);
    assert(head =~= (if current@.len() == 0 {
        Seq::<TreeRow>::empty()
    } else {
        seq![TreeRow::ParentDir(parent_of(current@))]
    }));
    let mut i: usize = 0;
    while i < dirs.len()
        invariant
            i <= dirs@.len(),
            cur@ == current@,
            rows_view(rows@) == head + dir_rows(strs(dirs@).take(i as int), cur@),
        decreases dirs.len() - i,
    {
        let d = chars_of(dirs[i].as_str());
        proof {
            let ds = strs(dirs@);
            assert(ds.take(i as int + 1).drop_last() =~= ds.take(i as int));
            assert(ds.take(i as int + 1).last() == d@);
        }
        if eq_chars(&parent_chars(&d), &cur) {
            let row = NotesTreeRow::Dir { path: string_of(&d), depth: 0, name: string_of(&leaf_chars(&d)) };
            proof {
                lemma_rows_push(rows@, row);
            }
            rows.push(row);
        }
        i = i + 1;
    }
    assert(strs(dirs@).take(dirs@.len() as int) =~= strs(dirs@));
    let ghost with_dirs = rows_view(rows@);
    let mut j: usize = 0;
    while j < notes.len()
        invariant
            j <= notes@.len(),
            cur@ == current@,
            rows_view(rows@) == with_dirs + note_rows(note_paths(notes@).take(j as int), cur@),
        decreases notes.len() - j,
    {
        let p = notes[j].path.as_str();
        proof {
            let ps = note_paths(notes@);
            assert(ps.take(j as int + 1).drop_last() =~= ps.take(j as int));
            assert(ps.take(j as int + 1).last() == p@);
        }
        if eq_chars(&parent_chars(&chars_of(p)), &cur) {
            let row = NotesTreeRow::Note { note_index: j, depth: 0, name: note_name(p) };
            proof {
                lemma_rows_push(rows@, row);
            }
            rows.push(row);
        }
        j = j + 1;
    }
    assert(note_paths(notes@).take(notes@.len() as int) =~= note_paths(notes@));
    proof {
        lemma_tree_rows_in_range(current@, strs(dirs@), note_paths(notes@));
    }
    rows
}

/// The selected row once the pane has `len` rows: kept, or the last row
/// when it lay past the end.
pub open spec fn kept_selection(len: nat, selected: nat) -> nat {
    if selected >= len {
        if len == 0 {
            0
        } else {
            (len - 1) as nat
        }
    } else {
        selected
    }
}

/// The anchor of a selection of rows once the pane has `len` rows: moved
/// to the last row when it lay past the end, gone when there is none.
pub open spec fn kept_anchor(len: nat, anchor: Option<usize>) -> Option<usize> {
    match anchor {
        Some(a) => if a >= len {
            if len == 0 {
                None
            } else {
                Some((len - 1) as usize)
            }
        } else {
            Some(a)
        },
        None => None,
    }
}

/// Whether a row stands for no note, or for one of the first `n`.
pub open spec fn row_in_range(r: TreeRow, n: nat) -> bool {
    match r {
        TreeRow::Note(i, _, _) => i < n,
        _ => true,
    }
}

/// Whether every note row stands for one of the first `n` notes.
pub open spec fn notes_in_range(rows: Seq<TreeRow>, n: nat) -> bool {
    forall|k: int| 0 <= k < rows.len() ==> row_in_range(#[trigger] rows[k], n)
}

proof fn lemma_dir_rows_in_range(dirs: Seq<Seq<char>>, cur: Seq<char>, n: nat)
    ensures
        notes_in_range(dir_rows(dirs, cur), n),
    decreases dirs.len(),
{
    if dirs.len() > 0 {
        lemma_dir_rows_in_range(dirs.drop_last(), cur, n);
    }
}

proof fn lemma_note_rows_in_range(paths: Seq<Seq<char>>, cur: Seq<char>, n: nat)
    requires
        paths.len() <= n,
    ensures
        notes_in_range(note_rows(paths, cur), n),
    decreases paths.len(),
{
    if paths.len() > 0 {
        lemma_note_rows_in_range(paths.drop_last(), cur, n);
    }
}

proof fn lemma_tree_rows_in_range(cur: Seq<char>, dirs: Seq<Seq<char>>, paths: Seq<Seq<char>>)
    ensures
        notes_in_range(tree_rows(cur, dirs, paths), paths.len()),
{
    lemma_dir_rows_in_range(dirs, cur, paths.len());
    lemma_note_rows_in_range(paths, cur, paths.len());
    let up = if cur.len() == 0 {
        Seq::<TreeRow>::empty()
    } else {
        seq![TreeRow::ParentDir(parent_of(cur))]
    };
    let t = tree_rows(cur, dirs, paths);
    let a = up + dir_rows(dirs, cur);
    assert forall|k: int| 0 <= k < t.len() implies row_in_range(#[trigger] t[k], paths.len()) by {
        if k < up.len() {
            assert(t[k] == up[k]);
        } else if k < a.len() {
            assert(t[k] == dir_rows(dirs, cur)[k - up.len()]);
        } else {
            assert(t[k] == note_rows(paths, cur)[k - a.len()]);
        }
    }
}

proof fn lemma_note_rows_exact(paths: Seq<Seq<char>>, cur: Seq<char>)
    ensures
        forall|k: int| 0 <= k < note_rows(paths, cur).len() ==> (#[trigger] note_rows(paths, cur)[k] matches TreeRow::Note(i, _, _)
            && i < paths.len() && parent_of(paths[i as int]) == cur),
        forall|i: int| 0 <= i < paths.len() && parent_of(#[trigger] paths[i]) == cur ==> exists|k: int|
            0 <= k < note_rows(paths, cur).len() && note_rows(paths, cur)[k] == TreeRow::Note(i as nat, 0, note_row_name(paths[i])),
    decreases paths.len(),
{
    if paths.len() > 0 {
        let init = paths.drop_last();
        lemma_note_rows_exact(init, cur);
        let prev = note_rows(init, cur);
        let r = note_rows(paths, cur);
        assert forall|k: int| 0 <= k < r.len() implies (#[trigger] r[k] matches TreeRow::Note(i, _, _) && i < paths.len()
            && parent_of(paths[i as int]) == cur) by {
            if k < prev.len() {
                assert(r[k] == prev[k]);
                if let TreeRow::Note(i, _, _) = prev[k] {
                    assert(paths[i as int] == init[i as int]);
                }
            }
        }
        assert forall|i: int| 0 <= i < paths.len() && parent_of(#[trigger] paths[i]) == cur implies exists|k: int|
            0 <= k < r.len() && r[k] == TreeRow::Note(i as nat, 0, note_row_name(paths[i])) by {
            if i < paths.len() - 1 {
                assert(paths[i] == init[i]);
                let k = choose|k: int| 0 <= k < prev.len() && prev[k] == TreeRow::Note(i as nat, 0, note_row_name(init[i]));
                assert(r[k] == prev[k]);
            } else {
                assert(r[prev.len() as int] == TreeRow::Note(i as nat, 0, note_row_name(paths[i])));
            }
        }
    }
}

/// The notes pane for a directory shows each note of that directory once
/// it is listed, and only notes of that directory.
pub proof fn lemma_tree_notes_are_the_dirs_notes(cur: Seq<char>, dirs: Seq<Seq<char>>, paths: Seq<Seq<char>>)
    ensures
        forall|k: int| 0 <= k < tree_rows(cur, dirs, paths).len() ==> (#[trigger] tree_rows(cur, dirs, paths)[k] matches TreeRow::Note(i, _, _)
            ==> i < paths.len() && parent_of(paths[i as int]) == cur),
        forall|i: int| 0 <= i < paths.len() && parent_of(#[trigger] paths[i]) == cur ==> exists|k: int|
            0 <= k < tree_rows(cur, dirs, paths).len() && tree_rows(cur, dirs, paths)[k] == TreeRow::Note(i as nat, 0, note_row_name(paths[i])),
{
    lemma_note_rows_exact(paths, cur);
    lemma_dir_rows_no_notes(dirs, cur);
    let up = if cur.len() == 0 {
        Seq::<TreeRow>::empty()
    } else {
        seq![TreeRow::ParentDir(parent_of(cur))]
    };
    let a = up + dir_rows(dirs, cur);
    let nr = note_rows(paths, cur);
    let t = tree_rows(cur, dirs, paths);
    assert(t == a + nr);
    assert forall|k: int| 0 <= k < t.len() implies (#[trigger] t[k] matches TreeRow::Note(i, _, _) ==> i < paths.len()
        && parent_of(paths[i as int]) == cur) by {
        if k < up.len() {
            assert(t[k] == up[k]);
        } else if k < a.len() {
            assert(t[k] == dir_rows(dirs, cur)[k - up.len()]);
        } else {
            assert(t[k] == nr[k - a.len()]);
        }
    }
    assert forall|i: int| 0 <= i < paths.len() && parent_of(#[trigger] paths[i]) == cur implies exists|k: int|
        0 <= k < t.len() && t[k] == TreeRow::Note(i as nat, 0, note_row_name(paths[i])) by {
        let k = choose|k: int| 0 <= k < nr.len() && nr[k] == TreeRow::Note(i as nat, 0, note_row_name(paths[i]));
        assert(t[a.len() + k] == nr[k]);
    }
}

proof fn lemma_dir_rows_no_notes(dirs: Seq<Seq<char>>, cur: Seq<char>)
    ensures
        forall|k: int| 0 <= k < dir_rows(dirs, cur).len() ==> !(#[trigger] dir_rows(dirs, cur)[k] is Note),
    decreases dirs.len(),
{
    if dirs.len() > 0 {
        lemma_dir_rows_no_notes(dirs.drop_last(), cur);
        let prev = dir_rows(dirs.drop_last(), cur);
        let r = dir_rows(dirs, cur);
        assert forall|k: int| 0 <= k < r.len() implies !(#[trigger] r[k] is Note) by {
            if k < prev.len() {
                assert(r[k] == prev[k]);
            }
        }
    }
}

/// Rebuilding the pane for directory `current`: its rows, and the selected
/// row and the selection's anchor kept inside them.
pub fn rebuild_notes_tree(
    current: &str,
    dirs: &Vec<String>,
    notes: &Vec<NoteMeta>,
    selected: usize,
    anchor: Option<usize>,
) -> (r: (Vec<NotesTreeRow>, usize, Option<usize>))
    ensures
        rows_view(r.0@) == tree_rows(current@, strs(dirs@), note_paths(notes@)),
        notes_in_range(rows_view(r.0@), notes@.len()),
        r.1 as nat == kept_selection(r.0@.len(), selected as nat),
        r.2 == kept_anchor(r.0@.len(), anchor),
{
    let rows = build_notes_tree(current, dirs, notes);
    let n = rows.len();
    let sel = if selected >= n {
        if n == 0 {
            0
        } else {
            n - 1
        }
    } else {
        selected
    };
    let a = match anchor {
        Some(x) => if x >= n {
            if n == 0 {
                None
            } else {
                Some(n - 1)
            }
        } else {
            Some(x)
        },
        None => None,
    };
    (rows, sel, a)
}

// ---------------------------------------------------------------------------
// Searching the pane
// ---------------------------------------------------------------------------

/// Whether a row matches the lower-cased query `q`: a directory by its path
/// or name, a note by its path, its title or its name.
pub open spec fn row_hit(r: TreeRow, notes: Seq<NoteMeta>, q: Seq<char>) -> bool {
    match r {
        TreeRow::ParentDir(p) => contains_seq(lower_of(p), q),
        TreeRow::Dir(p, _, n) => contains_seq(lower_of(p), q) || contains_seq(lower_of(n), q),
        TreeRow::Note(i, _, n) => i < notes.len() && (contains_seq(lower_of(key_of(notes[i as int].path@)), q)
            || contains_seq(lower_of(notes[i as int].title@), q) || contains_seq(lower_of(n), q)),
    }
}

/// What a search typed in the pane looks for: the input trimmed and
/// lower-cased.
pub open spec fn tree_query(input: Seq<char>) -> Seq<char> {
    lower_of(trim_ws(input))
}

fn lowered(s: &str) -> (r: Vec<char>)
    ensures
        r@ == lower_of(s@),
{
    chars_of(to_lowercase(s).as_str())
}

fn row_matches(row: &NotesTreeRow, notes: &Vec<NoteMeta>, q: &Vec<char>) -> (b: bool)
    ensures
        b == row_hit(row_view(*row), notes@, q@),
{
    match row {
        NotesTreeRow::ParentDir { path } => contains_exec(&lowered(path.as_str()), q),
        NotesTreeRow::Dir { path, name, .. } => contains_exec(&lowered(path.as_str()), q) || contains_exec(
            &lowered(name.as_str()),
            q,
        ),
        NotesTreeRow::Note { note_index, name, .. } => {
            if *note_index >= notes.len() {
                return false;
            }
            let note = &notes[*note_index];
            contains_exec(&lowered(note.display_path().as_str()), q) || contains_exec(
                &lowered(note.title.as_str()),
                q,
            ) || contains_exec(&lowered(name.as_str()), q)
        },
    }
}

/// The first row that a search of the pane for `input` finds; none when the
/// input is blank or no row matches.
pub fn apply_notes_tree_search(rows: &Vec<NotesTreeRow>, notes: &Vec<NoteMeta>, input: &str) -> (r: Option<usize>)
    ensures
        match r {
            Some(i) => {
                &&& tree_query(input@).len() > 0
                &&& i < rows@.len()
                &&& row_hit(rows_view(rows@)[i as int], notes@, tree_query(input@))
                &&& forall|j: int| 0 <= j < i ==> !row_hit(#[trigger] rows_view(rows@)[j], notes@, tree_query(input@))
            },
            None => tree_query(input@).len() == 0 || forall|j: int|
                0 <= j < rows@.len() ==> !row_hit(#[trigger] rows_view(rows@)[j], notes@, tree_query(input@)),
        },
{
    let t = string_of(&trim_whitespace(&chars_of(input)));
    let q = lowered(t.as_str());
    if q.len() == 0 {
        return None;
    }
    let mut i: usize = 0;
    while i < rows.len()
        invariant
            i <= rows@.len(),
            q@ == tree_query(input@),
            q@.len() > 0,
            forall|j: int| 0 <= j < i ==> !row_hit(#[trigger] rows_view(rows@)[j], notes@, q@),
        decreases rows.len() - i,
    {
        assert(rows_view(rows@)[i as int] == row_view(rows@[i as int]));
        if row_matches(&rows[i], notes, &q) {
            return Some(i);
        }
        i = i + 1;
    }
    None
}

// ---------------------------------------------------------------------------
// What the selection holds
// ---------------------------------------------------------------------------

/// The rows a selection of the pane spans, when one is being made.
pub open spec fn tree_bounds(visual: bool, anchor: Option<usize>, selected: usize) -> Option<(usize, usize)> {
    if !visual {
        None
    } else {
        match anchor {
            None => None,
            Some(a) => Some((if a <= selected { a } else { selected }, if a <= selected { selected } else { a })),
        }
    }
}

pub fn notes_tree_selection_bounds(visual: bool, anchor: Option<usize>, selected: usize) -> (r: Option<(usize, usize)>)
    ensures
        r == tree_bounds(visual, anchor, selected),
{
    if !visual {
        return None;
    }
    match anchor {
        None => None,
        Some(a) => if a <= selected {
            Some((a, selected))
        } else {
            Some((selected, a))
        },
    }
}

/// The note a row stands for, by its place in the notes list.
pub open spec fn row_note(rows: Seq<TreeRow>, n_notes: nat, at: int) -> Option<nat> {
    if 0 <= at < rows.len() {
        match rows[at] {
            TreeRow::Note(i, _, _) => if i < n_notes {
                Some(i)
            } else {
                None
            },
            _ => None,
        }
    } else {
        None
    }
}

/// The note on the selected row, by its place in the notes list.
pub fn selected_tree_note(rows: &Vec<NotesTreeRow>, notes: &Vec<NoteMeta>, selected: usize) -> (r: Option<usize>)
    ensures
        match r {
            Some(i) => row_note(rows_view(rows@), notes@.len(), selected as int) == Some(i as nat),
            None => row_note(rows_view(rows@), notes@.len(), selected as int) is None,
        },
{
    if selected >= rows.len() {
        return None;
    }
    match &rows[selected] {
        NotesTreeRow::Note { note_index, .. } => if *note_index < notes.len() {
            Some(*note_index)
        } else {
            None
        },
        _ => None,
    }
}

/// The paths of the notes on rows `from` up to `to` (excluded), in order.
pub open spec fn paths_on_rows(rows: Seq<TreeRow>, paths: Seq<Seq<char>>, from: int, to: int) -> Seq<Seq<char>>
    decreases to - from,
{
    if to <= from {
        Seq::<Seq<char>>::empty()
    } else {
        let prev = paths_on_rows(rows, paths, from, to - 1);
        match row_note(rows, paths.len(), to - 1) {
            Some(i) => prev.push(paths[i as int]),
            None => prev,
        }
    }
}

/// The notes a cut takes: those on the rows of the selection when one is
/// being made, else the note on the selected row.
pub open spec fn tree_selected_paths(
    rows: Seq<TreeRow>,
    paths: Seq<Seq<char>>,
    visual: bool,
    anchor: Option<usize>,
    selected: usize,
) -> Seq<Seq<char>> {
    match tree_bounds(visual, anchor, selected) {
        Some((s, e)) => paths_on_rows(rows, paths, s as int, if e + 1 < rows.len() { e + 1 } else { rows.len() as int }),
        None => match row_note(rows, paths.len(), selected as int) {
            Some(i) => seq![paths[i as int]],
            None => Seq::<Seq<char>>::empty(),
        },
    }
}

pub fn notes_tree_selected_note_paths(
    rows: &Vec<NotesTreeRow>,
    notes: &Vec<NoteMeta>,
    visual: bool,
    anchor: Option<usize>,
    selected: usize,
) -> (r: Vec<String>)
    ensures
        strs(r@) == tree_selected_paths(rows_view(rows@), note_paths(notes@), visual, anchor, selected),
{
    let ghost rv = rows_view(rows@);
    let ghost ps = note_paths(notes@);
    let mut out: Vec<String> = Vec::new();
    match notes_tree_selection_bounds(visual, anchor, selected) {
        Some((s, e)) => {
            let end = if e < rows.len() {
                e + 1
            } else {
                rows.len()
            };
            let mut k = s;
            if k > end {
                return out;
            }
            while k < end
                invariant
                    s <= k <= end <= rows@.len(),
                    strs(out@) == paths_on_rows(rv, ps, s as int, k as int),
                    rv == rows_view(rows@),
                    ps == note_paths(notes@),
                decreases end - k,
            {
                match selected_tree_note(rows, notes, k) {
                    Some(i) => {
                        let p = notes[i].path.clone();
                        proof {
                            assert(strs(out@.push(p)) =~= strs(out@).push(p@));
                        }
                        out.push(p);
                    },
                    None => {},
                }
                k = k + 1;
            }
            out
        },
        None => {
            match selected_tree_note(rows, notes, selected) {
                Some(i) => {
                    let p = notes[i].path.clone();
                    out.push(p);
                    assert(strs(out@) =~= seq![ps[i as int]]);
                },
                None => {
                    assert(strs(out@) =~= Seq::<Seq<char>>::empty());
                },
            }
            out
        },
    }
}

/// Where notes go when they are pasted on the selected row: the directory
/// shown for the way up, the directory of a directory row, the directory a
/// note row's note is in; the root when no row is selected.
pub open spec fn target_dir(rows: Seq<TreeRow>, paths: Seq<Seq<char>>, selected: int, cur: Seq<char>) -> Option<Seq<char>> {
    if selected < 0 || selected >= rows.len() {
        Some(Seq::<char>::empty())
    } else {
        match rows[selected] {
            TreeRow::ParentDir(_) => Some(cur),
            TreeRow::Dir(p, _, _) => Some(p),
            TreeRow::Note(i, _, _) => if i < paths.len() {
                Some(parent_of(paths[i as int]))
            } else {
                None
            },
        }
    }
}

pub fn notes_tree_target_dir(
    rows: &Vec<NotesTreeRow>,
    notes: &Vec<NoteMeta>,
    selected: usize,
    current: &str,
) -> (r: Option<String>)
    ensures
        match r {
            Some(d) => target_dir(rows_view(rows@), note_paths(notes@), selected as int, current@) == Some(d@),
            None => target_dir(rows_view(rows@), note_paths(notes@), selected as int, current@) is None,
        },
{
    if selected >= rows.len() {
        return Some(String::new());
    }
    match &rows[selected] {
        NotesTreeRow::ParentDir { .. } => Some(string_of(&chars_of(current))),
        NotesTreeRow::Dir { path, .. } => Some(string_of(&chars_of(path.as_str()))),
        NotesTreeRow::Note { note_index, .. } => if *note_index < notes.len() {
            Some(parent_dir_of(notes[*note_index].path.as_str()))
        } else {
            None
        },
    }
}

// ---------------------------------------------------------------------------
// Finding rows
// ---------------------------------------------------------------------------

/// Whether a row is the one of the note at `rel`.
pub open spec fn is_row_of_note(r: TreeRow, paths: Seq<Seq<char>>, rel: Seq<char>) -> bool {
    match r {
        TreeRow::Note(i, _, _) => i < paths.len() && paths[i as int] == rel,
        _ => false,
    }
}

/// Whether a row is the one of directory `dir`.
pub open spec fn is_row_of_dir(r: TreeRow, dir: Seq<char>) -> bool {
    match r {
        TreeRow::Dir(p, _, _) => p == dir,
        _ => false,
    }
}

/// The first row of the note at `rel`.
pub fn note_row_position(rows: &Vec<NotesTreeRow>, notes: &Vec<NoteMeta>, rel: &str) -> (r: Option<usize>)
    ensures
        match r {
            Some(i) => i < rows@.len() && is_row_of_note(rows_view(rows@)[i as int], note_paths(notes@), rel@)
                && forall|j: int| 0 <= j < i ==> !is_row_of_note(#[trigger] rows_view(rows@)[j], note_paths(notes@), rel@),
            None => forall|j: int| 0 <= j < rows@.len() ==> !is_row_of_note(#[trigger] rows_view(rows@)[j], note_paths(notes@), rel@),
        },
{
    let want = chars_of(rel);
    let mut i: usize = 0;
    while i < rows.len()
        invariant
            i <= rows@.len(),
            want@ == rel@,
            forall|j: int| 0 <= j < i ==> !is_row_of_note(#[trigger] rows_view(rows@)[j], note_paths(notes@), rel@),
        decreases rows.len() - i,
    {
        match &rows[i] {
            NotesTreeRow::Note { note_index, .. } => {
                if *note_index < notes.len() && eq_chars(&chars_of(notes[*note_index].path.as_str()), &want) {
                    return Some(i);
                }
            },
            _ => {},
        }
        i = i + 1;
    }
    None
}

/// The first row of directory `dir`.
pub fn dir_row_position(rows: &Vec<NotesTreeRow>, dir: &str) -> (r: Option<usize>)
    ensures
        match r {
            Some(i) => i < rows@.len() && is_row_of_dir(rows_view(rows@)[i as int], dir@) && forall|j: int|
                0 <= j < i ==> !is_row_of_dir(#[trigger] rows_view(rows@)[j], dir@),
            None => forall|j: int| 0 <= j < rows@.len() ==> !is_row_of_dir(#[trigger] rows_view(rows@)[j], dir@),
        },
{
    let want = chars_of(dir);
    let mut i: usize = 0;
    while i < rows.len()
        invariant
            i <= rows@.len(),
            want@ == dir@,
            forall|j: int| 0 <= j < i ==> !is_row_of_dir(#[trigger] rows_view(rows@)[j], dir@),
        decreases rows.len() - i,
    {
        match &rows[i] {
            NotesTreeRow::Dir { path, .. } => {
                if eq_chars(&chars_of(path.as_str()), &want) {
                    return Some(i);
                }
            },
            _ => {},
        }
        i = i + 1;
    }
    None
}

/// The first row that is a note's.
pub fn first_note_row(rows: &Vec<NotesTreeRow>) -> (r: Option<usize>)
    ensures
        match r {
            Some(i) => i < rows@.len() && rows_view(rows@)[i as int] is Note && forall|j: int|
                0 <= j < i ==> !(#[trigger] rows_view(rows@)[j] is Note),
            None => forall|j: int| 0 <= j < rows@.len() ==> !(#[trigger] rows_view(rows@)[j] is Note),
        },
{
    let mut i: usize = 0;
    while i < rows.len()
        invariant
            i <= rows@.len(),
            forall|j: int| 0 <= j < i ==> !(#[trigger] rows_view(rows@)[j] is Note),
        decreases rows.len() - i,
    {
        match &rows[i] {
            NotesTreeRow::Note { .. } => {
                return Some(i);
            },
            _ => {},
        }
        i = i + 1;
    }
    None
}

// ---------------------------------------------------------------------------
// What the pane shows
// ---------------------------------------------------------------------------

/// Two spaces for each level of depth.
pub open spec fn indent(depth: nat) -> Seq<char> {
    Seq::new(2 * depth, |_i: int| ' ')
}

/// Whether row `at` lies in the selection `bounds`.
pub open spec fn in_bounds(bounds: Option<(usize, usize)>, at: int) -> bool {
    match bounds {
        Some((s, e)) => s <= at <= e,
        None => false,
    }
}

/// The mark before a note's row: `>` in the selection, `x` when cut, `*`
/// when it is the open note, else a space.
pub open spec fn note_marker(in_selection: bool, cut: Seq<Seq<char>>, current: Option<Seq<char>>, path: Seq<char>) -> char {
    if in_selection {
        '>'
    } else if cut.contains(path) {
        'x'
    } else if current == Some(path) {
        '*'
    } else {
        ' '
    }
}

/// What a note's row names it by: its title (its row name when the title is
/// blank), from the last `/` on unless nothing is left there.
pub open spec fn label_text(title: Seq<char>, name: Seq<char>) -> Seq<char> {
    let raw = if trim_ws(title).len() == 0 {
        name
    } else {
        title
    };
    if trim_ws(leaf_name(raw)).len() == 0 {
        raw
    } else {
        leaf_name(raw)
    }
}

/// The text of row `at` of the pane.
pub open spec fn tree_label(
    r: TreeRow,
    at: int,
    notes: Seq<NoteMeta>,
    bounds: Option<(usize, usize)>,
    cut: Seq<Seq<char>>,
    current: Option<Seq<char>>,
) -> Seq<char> {
    match r {
        TreeRow::ParentDir(_) => seq!['.', '.'],
        TreeRow::Dir(p, d, _) => seq![' ', ' '] + indent(d) + display_name(p) + seq!['/'],
        TreeRow::Note(i, d, name) => seq![note_marker(in_bounds(bounds, at), cut, current, notes[i as int].path@), ' ']
            + indent(d) + label_text(notes[i as int].title@, name),
    }
}

fn push_indent(out: &mut Vec<char>, depth: usize)
    ensures
        final(out)@ == old(out)@ + indent(depth as nat),
{
    let ghost start = out@;
    let mut k: usize = 0;
    while k < depth
        invariant
            k <= depth,
            out@ == start + indent(k as nat),
        decreases depth - k,
    {
        out.push(' ');
        out.push(' ');
        assert(out@ =~= start + indent((k + 1) as nat));
        k = k + 1;
    }
}

fn contains_string(v: &Vec<String>, s: &Vec<char>) -> (b: bool)
    ensures
        b == strs(v@).contains(s@),
{
    let mut i: usize = 0;
    while i < v.len()
        invariant
            i <= v@.len(),
            forall|j: int| 0 <= j < i ==> strs(v@)[j] != s@,
        decreases v.len() - i,
    {
        assert(strs(v@)[i as int] == v@[i as int]@);
        if eq_chars(&chars_of(v[i].as_str()), s) {
            return true;
        }
        i = i + 1;
    }
    false
}

fn label_chars(title: &str, name: &str) -> (r: Vec<char>)
    ensures
        r@ == label_text(title@, name@),
{
    let raw = if trim_whitespace(&chars_of(title)).len() == 0 {
        chars_of(name)
    } else {
        chars_of(title)
    };
    let leaf = leaf_chars(&raw);
    if trim_whitespace(&leaf).len() == 0 {
        raw
    } else {
        leaf
    }
}

/// The text of each row of the pane.
pub fn notes_tree_labels(
    rows: &Vec<NotesTreeRow>,
    notes: &Vec<NoteMeta>,
    visual: bool,
    anchor: Option<usize>,
    selected: usize,
    cut: &Vec<String>,
    current: Option<&str>,
) -> (r: Vec<String>)
    requires
        notes_in_range(rows_view(rows@), notes@.len()),
    ensures
        r@.len() == rows@.len(),
        forall|k: int| 0 <= k < rows@.len() ==> (#[trigger] r@[k])@ == tree_label(
            rows_view(rows@)[k],
            k,
            notes@,
            tree_bounds(visual, anchor, selected),
            strs(cut@),
            opt_view(current),
        ),
{
    let bounds = notes_tree_selection_bounds(visual, anchor, selected);
    let mut out: Vec<String> = Vec::new();
    let mut k: usize = 0;
    while k < rows.len()
        invariant
            k <= rows@.len(),
            out@.len() == k,
            bounds == tree_bounds(visual, anchor, selected),
            notes_in_range(rows_view(rows@), notes@.len()),
            forall|j: int| 0 <= j < k ==> (#[trigger] out@[j])@ == tree_label(
                rows_view(rows@)[j],
                j,
                notes@,
                bounds,
                strs(cut@),
                opt_view(current),
            ),
        decreases rows.len() - k,
    {
        assert(rows_view(rows@)[k as int] == row_view(rows@[k as int]));
        assert(row_in_range(rows_view(rows@)[k as int], notes@.len()));
        let mut label: Vec<char> = Vec::new();
        match &rows[k] {
            NotesTreeRow::ParentDir { .. } => {
                label.push('.');
                label.push('.');
                assert(label@ =~= seq!['.', '.']);
            },
            NotesTreeRow::Dir { path, depth, .. } => {
                label.push(' ');
                label.push(' ');
                push_indent(&mut label, *depth);
                let shown = chars_of(display_name_from_note_path(path.as_str()).as_str());
                crate::text::push_all(&mut label, &shown);
                label.push('/');
                assert(label@ =~= seq![' ', ' '] + indent(*depth as nat) + display_name(path@) + seq!['/']);
            },
            NotesTreeRow::Note { note_index, depth, name } => {
                let note = &notes[*note_index];
                let path = chars_of(note.path.as_str());
                let in_sel = match bounds {
                    Some((s, e)) => s <= k && k <= e,
                    None => false,
                };
                let marker = if in_sel {
                    '>'
                } else if contains_string(cut, &path) {
                    'x'
                } else {
                    match current {
                        Some(c) => if eq_chars(&chars_of(c), &path) {
                            '*'
                        } else {
                            ' '
                        },
                        None => ' ',
                    }
                };
                label.push(marker);
                label.push(' ');
                push_indent(&mut label, *depth);
                let text = label_chars(note.title.as_str(), name.as_str());
                crate::text::push_all(&mut label, &text);
                assert(label@ =~= seq![marker, ' '] + indent(*depth as nat) + text@);
            },
        }
        out.push(string_of(&label));
        k = k + 1;
    }
    out
}

/// The pane's title: the directory it shows.
pub fn notes_tree_title(current: &str) -> (r: String)
    ensures
        r@ == "Notes: /"@ + current@,
{
    let mut t = String::from_str("Notes: /");
    t.append(current);
    t
}

// ---------------------------------------------------------------------------
// Acting on the selected row
// ---------------------------------------------------------------------------

/// What choosing a row does.
#[derive(Debug, PartialEq, Eq)]
pub enum TreeStep {
    /// Nothing.
    Stay,
    /// Show this directory.
    Enter(String),
    /// Open the note at this place of the notes list.
    Open(usize),
}

/// Choosing the selected row: the way up and a directory are entered, a
/// note is opened.
pub fn activate_tree_row(rows: &Vec<NotesTreeRow>, notes: &Vec<NoteMeta>, selected: usize) -> (r: TreeStep)
    ensures
        selected >= rows@.len() ==> r is Stay,
        selected < rows@.len() ==> match rows_view(rows@)[selected as int] {
            TreeRow::ParentDir(p) => r matches TreeStep::Enter(q) && q@ == p,
            TreeRow::Dir(p, _, _) => r matches TreeStep::Enter(q) && q@ == p,
            TreeRow::Note(i, _, _) => if i < notes@.len() {
                r matches TreeStep::Open(j) && j as nat == i
            } else {
                r is Stay
            },
        },
{
    if selected >= rows.len() {
        return TreeStep::Stay;
    }
    match &rows[selected] {
        NotesTreeRow::ParentDir { path } => TreeStep::Enter(string_of(&chars_of(path.as_str()))),
        NotesTreeRow::Dir { path, .. } => TreeStep::Enter(string_of(&chars_of(path.as_str()))),
        NotesTreeRow::Note { note_index, .. } => if *note_index < notes.len() {
            TreeStep::Open(*note_index)
        } else {
            TreeStep::Stay
        },
    }
}

/// What the status line says when directory `path` is entered.
pub open spec fn entered(path: Seq<char>) -> Seq<char> {
    if path.len() == 0 {
        "entered /"@
    } else {
        "entered "@ + path + "/"@
    }
}

pub fn entered_message(path: &str) -> (r: String)
    ensures
        r@ == entered(path@),
{
    if path.unicode_len() == 0 {
        return String::from_str("entered /");
    }
    let mut s = String::from_str("entered ");
    s.append(path);
    s.append("/");
    s
}

/// The directory a way up from `current` leads to; none at the root.
pub fn collapse_target(current: &str) -> (r: Option<String>)
    ensures
        current@.len() == 0 ==> r is None,
        current@.len() > 0 ==> (r matches Some(p) && p@ == parent_of(current@)),
{
    if current.unicode_len() == 0 {
        None
    } else {
        Some(parent_dir_of(current))
    }
}

/// The directory on the selected row, when it is a directory's row.
pub fn dir_row_at(rows: &Vec<NotesTreeRow>, selected: usize) -> (r: Option<String>)
    ensures
        match r {
            Some(p) => selected < rows@.len() && (rows_view(rows@)[selected as int] matches TreeRow::Dir(q, _, _)
                && q == p@),
            None => !(selected < rows@.len() && rows_view(rows@)[selected as int] is Dir),
        },
{
    if selected >= rows.len() {
        return None;
    }
    match &rows[selected] {
        NotesTreeRow::Dir { path, .. } => Some(string_of(&chars_of(path.as_str()))),
        _ => None,
    }
}

/// The question the status line asks before directory `path` goes.
pub fn delete_dir_question(path: &str) -> (r: String)
    ensures
        r@ == "delete directory "@ + path@ + "/ ?"@,
{
    let mut s = String::from_str("delete directory ");
    s.append(path);
    s.append("/ ?");
    s
}

/// Where a new note or directory is suggested to go: in the notes pane,
/// the selected directory, the directory shown (for the way up) or the
/// directory of the selected note; in the note, the open note's directory;
/// else the root.
pub open spec fn suggested_dir(
    focus: FocusPane,
    rows: Seq<TreeRow>,
    paths: Seq<Seq<char>>,
    selected: int,
    current: Seq<char>,
    open_note: Option<Seq<char>>,
) -> Seq<char> {
    match focus {
        FocusPane::Notes => if 0 <= selected < rows.len() {
            match rows[selected] {
                TreeRow::Dir(p, _, _) => p,
                TreeRow::ParentDir(_) => current,
                TreeRow::Note(i, _, _) => if i < paths.len() {
                    parent_of(paths[i as int])
                } else {
                    Seq::<char>::empty()
                },
            }
        } else {
            Seq::<char>::empty()
        },
        FocusPane::Preview => match open_note {
            Some(rel) => parent_of(rel),
            None => Seq::<char>::empty(),
        },
        FocusPane::Links => Seq::<char>::empty(),
    }
}

pub fn suggest_new_dir_parent(
    focus: FocusPane,
    rows: &Vec<NotesTreeRow>,
    notes: &Vec<NoteMeta>,
    selected: usize,
    current: &str,
    open_note: Option<&str>,
) -> (r: String)
    ensures
        r@ == suggested_dir(focus, rows_view(rows@), note_paths(notes@), selected as int, current@, opt_view(open_note)),
{
    match focus {
        FocusPane::Notes => {
            if selected >= rows.len() {
                return String::new();
            }
            match &rows[selected] {
                NotesTreeRow::Dir { path, .. } => string_of(&chars_of(path.as_str())),
                NotesTreeRow::ParentDir { .. } => string_of(&chars_of(current)),
                NotesTreeRow::Note { note_index, .. } => if *note_index < notes.len() {
                    parent_dir_of(notes[*note_index].path.as_str())
                } else {
                    String::new()
                },
            }
        },
        FocusPane::Preview => match open_note {
            Some(rel) => parent_dir_of(rel),
            None => String::new(),
        },
        FocusPane::Links => String::new(),
    }
}

/// Where a new note is suggested to go: as for a new directory.
pub fn suggest_new_note_dir(
    focus: FocusPane,
    rows: &Vec<NotesTreeRow>,
    notes: &Vec<NoteMeta>,
    selected: usize,
    current: &str,
    open_note: Option<&str>,
) -> (r: String)
    ensures
        r@ == suggested_dir(focus, rows_view(rows@), note_paths(notes@), selected as int, current@, opt_view(open_note)),
{
    suggest_new_dir_parent(focus, rows, notes, selected, current, open_note)
}

/// What a rename applies to.
#[derive(Debug, PartialEq, Eq)]
pub enum RenameTarget {
    Note(String),
    Dir(String),
}

/// What the rename popup is opened on: the selected directory or note, else
/// the open note; none when there is neither.
pub open spec fn rename_subject(rows: Seq<TreeRow>, paths: Seq<Seq<char>>, selected: int, open_note: Option<Seq<char>>) -> Option<(bool, Seq<char>)> {
    let from_row = if 0 <= selected < rows.len() {
        match rows[selected] {
            TreeRow::Dir(p, _, _) => Some((true, p)),
            TreeRow::Note(i, _, _) => if i < paths.len() {
                Some((false, paths[i as int]))
            } else {
                None
            },
            TreeRow::ParentDir(_) => None,
        }
    } else {
        None
    };
    match from_row {
        Some(t) => Some(t),
        None => match open_note {
            Some(rel) => Some((false, rel)),
            None => None,
        },
    }
}

/// The popup's caption for a subject (`true` for a directory).
pub open spec fn rename_caption(is_dir: bool, p: Seq<char>) -> Seq<char> {
    if is_dir {
        "dir:\n"@ + p + "/"@
    } else {
        "note: "@ + key_of(p)
    }
}

/// The text the popup starts with: a directory's last segment, a note's
/// file stem.
pub open spec fn rename_start(is_dir: bool, p: Seq<char>) -> Seq<char> {
    if is_dir {
        leaf_name(p)
    } else {
        title_of_path(p)
    }
}

/// Opening the rename popup: its subject, caption and starting text.
pub fn open_rename_popup(
    rows: &Vec<NotesTreeRow>,
    notes: &Vec<NoteMeta>,
    selected: usize,
    open_note: Option<&str>,
) -> (r: Option<(RenameTarget, String, String)>)
    ensures
        match rename_subject(rows_view(rows@), note_paths(notes@), selected as int, opt_view(open_note)) {
            None => r is None,
            Some((is_dir, p)) => r matches Some((t, caption, start)) && (match t {
                RenameTarget::Dir(d) => is_dir && d@ == p,
                RenameTarget::Note(n) => !is_dir && n@ == p,
            }) && caption@ == rename_caption(is_dir, p) && start@ == rename_start(is_dir, p),
        },
{
    let mut subject: Option<(bool, String)> = None;
    if selected < rows.len() {
        match &rows[selected] {
            NotesTreeRow::Dir { path, .. } => {
                subject = Some((true, string_of(&chars_of(path.as_str()))));
            },
            NotesTreeRow::Note { note_index, .. } => {
                if *note_index < notes.len() {
                    subject = Some((false, string_of(&chars_of(notes[*note_index].path.as_str()))));
                }
            },
            NotesTreeRow::ParentDir { .. } => {},
        }
    }
    if subject.is_none() {
        match open_note {
            Some(rel) => {
                subject = Some((false, string_of(&chars_of(rel))));
            },
            None => {},
        }
    }
    match subject {
        None => None,
        Some((true, p)) => {
            let mut caption = String::from_str("dir:\n");
            caption.append(p.as_str());
            caption.append("/");
            let start = string_of(&leaf_chars(&chars_of(p.as_str())));
            Some((RenameTarget::Dir(p), caption, start))
        },
        Some((false, p)) => {
            let mut caption = String::from_str("note: ");
            let k = path_key(p.as_str());
            caption.append(k.as_str());
            let start = title_from_path(p.as_str());
            Some((RenameTarget::Note(p), caption, start))
        },
    }
}

} // verus!
