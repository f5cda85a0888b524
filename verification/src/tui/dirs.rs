//! Directories in the browser: renaming one (what it is renamed to, which
//! notes move and where, which directory the pane then shows), and the
//! ordered list of directories under the notes root.
use vstd::prelude::*;
use crate::text::{
    chars_of, concat, contains_exec, eq_chars, find_char, replace_char, replace_char_exec, slice_chars,
    starts_with, starts_with_exec, string_of, trim_whitespace, trim_ws,
};
use crate::index::{dir_path, key_of, normalize_dir_chars, note_rel_path, normalize_note_path, path_key, strs, NoteMeta};
use crate::tui::paths::{chars_less, chars_lt, lemma_chars_lt_total, lemma_chars_lt_transitive};
use crate::tui::tree::{note_paths, parent_of, parent_dir_of};

verus! {

broadcast use vstd::string::group_string_axioms;

/// Why a directory is not renamed.
#[derive(Debug, Clone, Copy, PartialEq, Eq, Structural)]
pub enum RenameRefusal {
    /// The new name is blank.
    EmptyName,
    /// The old or the new path is empty once normalised.
    EmptyPath,
    /// The new path is the old one.
    SameName,
    /// The new path lies inside the old directory.
    IntoOwnChild,
}

pub open spec fn refusal_text(r: RenameRefusal) -> Seq<char> {
    match r {
        RenameRefusal::EmptyName => "new directory name cannot be\nempty"@,
        RenameRefusal::EmptyPath => "directory path cannot be\nempty"@,
        RenameRefusal::SameName => "directory already has this\nname"@,
        RenameRefusal::IntoOwnChild => "cannot rename directory into its own\nchild"@,
    }
}

impl RenameRefusal {
    /// What the status line says.
    pub fn message(&self) -> (r: String)
        ensures
            r@ == refusal_text(*self),
    {
        match self {
            RenameRefusal::EmptyName => String::from_str("new directory name cannot be\nempty"),
            RenameRefusal::EmptyPath => String::from_str("directory path cannot be\nempty"),
            RenameRefusal::SameName => String::from_str("directory already has this\nname"),
            RenameRefusal::IntoOwnChild => String::from_str("cannot rename directory into its own\nchild"),
        }
    }
}

/// `s` with every leading copy of `p` taken off (`trim_start_matches`).
pub open spec fn strip_all(s: Seq<char>, p: Seq<char>) -> Seq<char>
    decreases s.len(),
{
    if p.len() > 0 && starts_with(s, p) {
        strip_all(s.skip(p.len() as int), p)
    } else {
        s
    }
}

/// The path a directory is renamed to before normalising: a new name with
/// a `/` is a whole path, else it stays in the old directory's parent.
pub open spec fn rename_candidate(old_dir: Seq<char>, new_name: Seq<char>) -> Seq<char> {
    if new_name.contains('/') {
        new_name
    } else if parent_of(old_dir).len() == 0 {
        new_name
    } else {
        parent_of(old_dir) + "/"@ + new_name
    }
}

/// The notes under directory prefix `pre` (a directory and a `/`), each
/// with the path it moves to under `new_dir`, in the order of `paths`.
pub open spec fn moved_notes(paths: Seq<Seq<char>>, pre: Seq<char>, new_dir: Seq<char>) -> Seq<(Seq<char>, Seq<char>)>
    decreases paths.len(),
{
    if paths.len() == 0 {
        Seq::<(Seq<char>, Seq<char>)>::empty()
    } else {
        let prev = moved_notes(paths.drop_last(), pre, new_dir);
        let p = paths.last();
        let key = key_of(p);
        if starts_with(key, pre) {
            prev.push((p, note_rel_path(new_dir + "/"@ + strip_all(key, pre))))
        } else {
            prev
        }
    }
}

/// The directory the pane shows once `old_dir` is `new_dir`: moved along
/// when it is the old directory or lies inside it.
pub open spec fn moved_current(cur: Seq<char>, old_dir: Seq<char>, new_dir: Seq<char>) -> Seq<char> {
    if cur == old_dir {
        new_dir
    } else if starts_with(cur, old_dir + "/"@) {
        new_dir + "/"@ + strip_all(cur, old_dir + "/"@)
    } else {
        cur
    }
}

/// A directory rename as the specifications see it.
pub struct DirRenameView {
    pub old_dir: Seq<char>,
    pub new_dir: Seq<char>,
    pub moved: Seq<(Seq<char>, Seq<char>)>,
    pub current_dir: Seq<char>,
}

/// Renaming directory `old_raw` to `new_raw` while the pane shows `cur`
/// and the notes are at `paths`.
pub open spec fn dir_rename(
    old_raw: Seq<char>,
    new_raw: Seq<char>,
    paths: Seq<Seq<char>>,
    cur: Seq<char>,
) -> Result<DirRenameView, RenameRefusal> {
    let old_dir = dir_path(old_raw);
    let name = trim_ws(new_raw);
    let new_dir = dir_path(rename_candidate(old_dir, name));
    if name.len() == 0 {
        Err(RenameRefusal::EmptyName)
    } else if old_dir.len() == 0 || new_dir.len() == 0 {
        Err(RenameRefusal::EmptyPath)
    } else if old_dir == new_dir {
        Err(RenameRefusal::SameName)
    } else if starts_with(new_dir, old_dir + "/"@) {
        Err(RenameRefusal::IntoOwnChild)
    } else {
        Ok(
            DirRenameView {
                old_dir,
                new_dir,
                moved: moved_notes(paths, old_dir + "/"@, new_dir),
                current_dir: moved_current(cur, old_dir, new_dir),
            },
        )
    }
}

proof fn lemma_moved_notes(paths: Seq<Seq<char>>, pre: Seq<char>, new_dir: Seq<char>)
    ensures
        forall|k: int| 0 <= k < moved_notes(paths, pre, new_dir).len() ==> starts_with(
            key_of(#[trigger] moved_notes(paths, pre, new_dir)[k].0),
            pre,
        ) && paths.contains(moved_notes(paths, pre, new_dir)[k].0),
        forall|i: int| 0 <= i < paths.len() && starts_with(key_of(#[trigger] paths[i]), pre) ==> exists|k: int|
            0 <= k < moved_notes(paths, pre, new_dir).len() && moved_notes(paths, pre, new_dir)[k].0 == paths[i],
    decreases paths.len(),
{
    if paths.len() > 0 {
        let init = paths.drop_last();
        lemma_moved_notes(init, pre, new_dir);
        let prev = moved_notes(init, pre, new_dir);
        let m = moved_notes(paths, pre, new_dir);
        assert forall|k: int| 0 <= k < m.len() implies starts_with(key_of(#[trigger] m[k].0), pre) && paths.contains(m[k].0) by {
            if k < prev.len() {
                assert(m[k] == prev[k]);
                let j = choose|j: int| 0 <= j < init.len() && init[j] == prev[k].0;
                assert(paths[j] == init[j]);
            } else {
                assert(m[k].0 == paths[paths.len() - 1]);
            }
        }
        assert forall|i: int| 0 <= i < paths.len() && starts_with(key_of(#[trigger] paths[i]), pre) implies exists|k: int|
            0 <= k < m.len() && m[k].0 == paths[i] by {
            if i < paths.len() - 1 {
                assert(paths[i] == init[i]);
                let k = choose|k: int| 0 <= k < prev.len() && prev[k].0 == init[i];
                assert(m[k] == prev[k]);
            } else {
                assert(m[prev.len() as int].0 == paths[i]);
            }
        }
    }
}

/// A directory rename moves exactly the notes under the old directory: each
/// note it moves is listed and under it, and each listed note under it is
/// moved.
pub proof fn lemma_rename_moves_the_dirs_notes(old_raw: Seq<char>, new_raw: Seq<char>, paths: Seq<Seq<char>>, cur: Seq<char>)
    requires
        dir_rename(old_raw, new_raw, paths, cur) is Ok,
    ensures
        ({
            let v = dir_rename(old_raw, new_raw, paths, cur).unwrap();
            &&& forall|k: int| 0 <= k < v.moved.len() ==> starts_with(key_of(#[trigger] v.moved[k].0), v.old_dir + "/"@)
                && paths.contains(v.moved[k].0)
            &&& forall|i: int| 0 <= i < paths.len() && starts_with(key_of(#[trigger] paths[i]), v.old_dir + "/"@) ==> exists|k: int|
                0 <= k < v.moved.len() && v.moved[k].0 == paths[i]
        }),
{
    let v = dir_rename(old_raw, new_raw, paths, cur).unwrap();
    let old_dir = dir_path(old_raw);
    let new_dir = dir_path(rename_candidate(old_dir, trim_ws(new_raw)));
    assert(v.old_dir == old_dir && v.new_dir == new_dir);
    assert(v.moved == moved_notes(paths, old_dir + "/"@, new_dir));
    lemma_moved_notes(paths, old_dir + "/"@, new_dir);
}

/// A directory rename the browser carries out.
#[derive(Debug, PartialEq, Eq)]
pub struct DirRename {
    pub old_dir: String,
    pub new_dir: String,
    /// Each note that moves: its path, and the path it moves to.
    pub moved: Vec<(String, String)>,
    /// The directory the pane shows afterwards.
    pub current_dir: String,
}

pub open spec fn pairs_view(v: Seq<(String, String)>) -> Seq<(Seq<char>, Seq<char>)> {
    v.map_values(|p: (String, String)| (p.0@, p.1@))
}

pub open spec fn rename_view(r: DirRename) -> DirRenameView {
    DirRenameView {
        old_dir: r.old_dir@,
        new_dir: r.new_dir@,
        moved: pairs_view(r.moved@),
        current_dir: r.current_dir@,
    }
}

fn strip_all_exec(s: &Vec<char>, p: &Vec<char>) -> (r: Vec<char>)
    ensures
        r@ == strip_all(s@, p@),
{
    let mut cur = s.clone();
    if p.len() == 0 {
        return cur;
    }
    while starts_with_exec(&cur, p)
        invariant
            p@.len() > 0,
            strip_all(cur@, p@) == strip_all(s@, p@),
        decreases cur@.len(),
    {
        let n = cur.len();
        cur = slice_chars(&cur, p.len(), n);
    }
    cur
}

fn slash_chars() -> (r: Vec<char>)
    ensures
        r@ == "/"@,
{
    let mut r: Vec<char> = Vec::new();
    r.push('/');
    proof {
        reveal_strlit("/");
    }
    assert(r@ =~= "/"@);
    r
}

/// Deciding a directory rename: the normalised old and new paths, the notes
/// that move and where, and the directory the pane shows afterwards; or why
/// there is nothing to do.
pub fn plan_directory_rename(
    old_raw: &str,
    new_raw: &str,
    notes: &Vec<NoteMeta>,
    current: &str,
) -> (r: Result<DirRename, RenameRefusal>)
    ensures
        match (r, dir_rename(old_raw@, new_raw@, note_paths(notes@), current@)) {
            (Ok(d), Ok(v)) => rename_view(d) == v,
            (Err(e), Err(ev)) => e == ev,
            _ => false,
        },
{
    let old_dir = normalize_dir_chars(&chars_of(old_raw));
    let name = trim_whitespace(&chars_of(new_raw));
    let sl = slash_chars();
    let candidate = match find_char(&name, '/') {
        Some(_) => {
            assert(name@.contains('/'));
            name.clone()
        },
        None => {
            assert(!name@.contains('/'));
            let parent = parent_dir_of(string_of(&old_dir).as_str());
            let pc = chars_of(parent.as_str());
            if pc.len() == 0 {
                name.clone()
            } else {
                concat(&concat(&pc, &sl), &name)
            }
        },
    };
    let new_dir = normalize_dir_chars(&candidate);
    if name.len() == 0 {
        return Err(RenameRefusal::EmptyName);
    }
    if old_dir.len() == 0 || new_dir.len() == 0 {
        return Err(RenameRefusal::EmptyPath);
    }
    if eq_chars(&old_dir, &new_dir) {
        return Err(RenameRefusal::SameName);
    }
    let pre = concat(&old_dir, &sl);
    if starts_with_exec(&new_dir, &pre) {
        return Err(RenameRefusal::IntoOwnChild);
    }
    let mut moved: Vec<(String, String)> = Vec::new();
    let mut i: usize = 0;
    while i < notes.len()
        invariant
            i <= notes@.len(),
            pre@ == old_dir@ + "/"@,
            sl@ == "/"@,
            pairs_view(moved@) == moved_notes(note_paths(notes@).take(i as int), pre@, new_dir@),
        decreases notes.len() - i,
    {
        let p = &notes[i].path;
        proof {
            let ps = note_paths(notes@);
            assert(ps.take(i as int + 1).drop_last() =~= ps.take(i as int));
            assert(ps.take(i as int + 1).last() == p@);
        }
        let key = chars_of(path_key(p.as_str()).as_str());
        if starts_with_exec(&key, &pre) {
            let rest = strip_all_exec(&key, &pre);
            let target = string_of(&concat(&concat(&new_dir, &sl), &rest));
            let to = normalize_note_path(target.as_str());
            let pair = (p.clone(), to);
            proof {
                assert(pairs_view(moved@.push(pair)) =~= pairs_view(moved@).push((pair.0@, pair.1@)));
            }
            moved.push(pair);
        }
        i = i + 1;
    }
    assert(note_paths(notes@).take(notes@.len() as int) =~= note_paths(notes@));
    let cur = chars_of(current);
    let current_dir = if eq_chars(&cur, &old_dir) {
        string_of(&new_dir)
    } else if starts_with_exec(&cur, &pre) {
        string_of(&concat(&concat(&new_dir, &sl), &strip_all_exec(&cur, &pre)))
    } else {
        string_of(&cur)
    };
    Ok(DirRename { old_dir: string_of(&old_dir), new_dir: string_of(&new_dir), moved, current_dir })
}

/// What the status line says once a directory is renamed.
pub fn renamed_dir_message(old_dir: &str, new_dir: &str) -> (r: String)
    ensures
        r@ == "renamed directory "@ + old_dir@ + "/ ->\n"@ + new_dir@ + "/"@,
{
    let mut s = String::from_str("renamed directory ");
    s.append(old_dir);
    s.append("/ ->\n");
    s.append(new_dir);
    s.append("/");
    s
}

// ---------------------------------------------------------------------------
// The directories under the notes root
// ---------------------------------------------------------------------------

/// Adding `x` to the list `s` of names in order: left out when there,
/// else put before the first name that comes after it.
pub open spec fn name_insert(s: Seq<Seq<char>>, x: Seq<char>) -> Seq<Seq<char>>
    decreases s.len(),
{
    if s.len() == 0 {
        seq![x]
    } else if x == s[0] {
        s
    } else if chars_lt(x, s[0]) {
        seq![x] + s
    } else {
        seq![s[0]] + name_insert(s.drop_first(), x)
    }
}

/// A directory's path below the notes root, normalised.
pub open spec fn dir_entry(rel: Seq<char>) -> Seq<char> {
    dir_path(replace_char(rel, '\\', '/'))
}

/// The directories the pane can show: the paths below the notes root,
/// normalised, the empty ones left out, in order and each once.
pub open spec fn dir_list(rels: Seq<Seq<char>>) -> Seq<Seq<char>>
    decreases rels.len(),
{
    if rels.len() == 0 {
        Seq::<Seq<char>>::empty()
    } else {
        let prev = dir_list(rels.drop_last());
        let d = dir_entry(rels.last());
        if d.len() == 0 {
            prev
        } else {
            name_insert(prev, d)
        }
    }
}

fn name_insert_exec(list: &mut Vec<String>, x: Vec<char>)
    ensures
        strs(final(list)@) == name_insert(strs(old(list)@), x@),
{
    let ghost s0 = strs(list@);
    let mut i: usize = 0;
    assert(s0.take(0) + s0.skip(0) =~= s0);
    while i < list.len()
        invariant
            i <= list@.len(),
            s0 == strs(list@),
            s0 == strs(old(list)@),
            name_insert(s0, x@) == s0.take(i as int) + name_insert(s0.skip(i as int), x@),
        decreases list.len() - i,
    {
        let ghost rest = s0.skip(i as int);
        assert(rest[0] == list@[i as int]@);
        let y = chars_of(list[i].as_str());
        if eq_chars(&x, &y) {
            assert(s0.take(i as int) + rest =~= s0);
            return;
        }
        if chars_less(&x, &y) {
            list.insert(i, string_of(&x));
            proof {
                assert(strs(list@) =~= s0.take(i as int) + (seq![x@] + rest));
            }
            return;
        }
        proof {
            assert(rest.drop_first() =~= s0.skip(i as int + 1));
            assert(s0.take(i as int) + (seq![rest[0]] + name_insert(rest.drop_first(), x@)) =~= s0.take(
                i as int + 1,
            ) + name_insert(s0.skip(i as int + 1), x@));
        }
        i = i + 1;
    }
    let ghost before = list@;
    let xs = string_of(&x);
    list.push(xs);
    proof {
        assert(s0.skip(i as int).len() == 0);
        assert(s0.take(i as int) =~= s0);
        assert(strs(list@) =~= strs(before).push(x@));
    }
}

/// The directories the pane can show, from the paths below the notes root
/// that are directories.
pub fn sorted_dirs(rels: &Vec<String>) -> (r: Vec<String>)
    ensures
        strs(r@) == dir_list(strs(rels@)),
{
    let mut out: Vec<String> = Vec::new();
    let mut i: usize = 0;
    while i < rels.len()
        invariant
            i <= rels@.len(),
            strs(out@) == dir_list(strs(rels@).take(i as int)),
        decreases rels.len() - i,
    {
        proof {
            let rs = strs(rels@);
            assert(rs.take(i as int + 1).drop_last() =~= rs.take(i as int));
            assert(rs.take(i as int + 1).last() == rels@[i as int]@);
        }
        let d = normalize_dir_chars(&replace_char_exec(&chars_of(rels[i].as_str()), '\\', '/'));
        if d.len() > 0 {
            name_insert_exec(&mut out, d);
        }
        i = i + 1;
    }
    assert(strs(rels@).take(rels@.len() as int) =~= strs(rels@));
    out
}

/// Whether each name of `s` comes before the next.
pub open spec fn names_ordered(s: Seq<Seq<char>>) -> bool {
    forall|i: int, j: int| 0 <= i < j < s.len() ==> chars_lt(#[trigger] s[i], #[trigger] s[j])
}

proof fn lemma_name_insert(s: Seq<Seq<char>>, x: Seq<char>)
    requires
        names_ordered(s),
    ensures
        names_ordered(name_insert(s, x)),
        name_insert(s, x).contains(x),
        forall|k: int| 0 <= k < name_insert(s, x).len() ==> (#[trigger] name_insert(s, x)[k] == x || s.contains(name_insert(s, x)[k])),
        forall|k: int| 0 <= k < s.len() ==> name_insert(s, x).contains(#[trigger] s[k]),
    decreases s.len(),
{
    let r = name_insert(s, x);
    if s.len() == 0 {
        assert(r[0] == x);
    } else if x == s[0] {
        assert(r[0] == x);
    } else if chars_lt(x, s[0]) {
        assert forall|i: int, j: int| 0 <= i < j < r.len() implies chars_lt(#[trigger] r[i], #[trigger] r[j]) by {
            if i == 0 {
                if j > 1 {
                    lemma_chars_lt_transitive(x, s[0], s[j - 1]);
                }
            } else {
                assert(r[i] == s[i - 1] && r[j] == s[j - 1]);
            }
        }
        assert(r[0] == x);
        assert forall|k: int| 0 <= k < s.len() implies r.contains(#[trigger] s[k]) by {
            assert(r[k + 1] == s[k]);
        }
        assert forall|k: int| 0 <= k < r.len() implies (#[trigger] r[k] == x || s.contains(r[k])) by {
            if k > 0 {
                assert(r[k] == s[k - 1]);
            }
        }
    } else {
        let t = s.drop_first();
        assert forall|i: int, j: int| 0 <= i < j < t.len() implies chars_lt(#[trigger] t[i], #[trigger] t[j]) by {
            assert(t[i] == s[i + 1] && t[j] == s[j + 1]);
        }
        lemma_name_insert(t, x);
        let rt = name_insert(t, x);
        assert(r == seq![s[0]] + rt);
        lemma_chars_lt_total(x, s[0]);
        assert forall|i: int, j: int| 0 <= i < j < r.len() implies chars_lt(#[trigger] r[i], #[trigger] r[j]) by {
            if i == 0 {
                assert(r[j] == rt[j - 1]);
                if rt[j - 1] == x {
                } else {
                    assert(t.contains(rt[j - 1]));
                    let k = choose|k: int| 0 <= k < t.len() && t[k] == rt[j - 1];
                    assert(t[k] == s[k + 1]);
                }
            } else {
                assert(r[i] == rt[i - 1] && r[j] == rt[j - 1]);
            }
        }
        let w = choose|k: int| 0 <= k < rt.len() && rt[k] == x;
        assert(r[w + 1] == rt[w]);
        assert forall|k: int| 0 <= k < s.len() implies r.contains(#[trigger] s[k]) by {
            if k == 0 {
                assert(r[0] == s[0]);
            } else {
                assert(s[k] == t[k - 1]);
                assert(rt.contains(t[k - 1]));
                let m = choose|m: int| 0 <= m < rt.len() && rt[m] == t[k - 1];
                assert(r[m + 1] == rt[m]);
            }
        }
        assert forall|k: int| 0 <= k < r.len() implies (#[trigger] r[k] == x || s.contains(r[k])) by {
            if k == 0 {
                assert(s[0] == r[0]);
            } else {
                assert(r[k] == rt[k - 1]);
                if rt[k - 1] != x {
                    let m = choose|m: int| 0 <= m < t.len() && t[m] == rt[k - 1];
                    assert(s[m + 1] == t[m]);
                }
            }
        }
    }
}

/// The directory list is in order, each directory once, and holds exactly
/// the non-empty normalised paths it was given.
pub proof fn lemma_dir_list(rels: Seq<Seq<char>>)
    ensures
        names_ordered(dir_list(rels)),
        forall|k: int| 0 <= k < dir_list(rels).len() ==> exists|i: int|
            0 <= i < rels.len() && #[trigger] dir_list(rels)[k] == dir_entry(rels[i]) && dir_entry(rels[i]).len() > 0,
        forall|i: int| 0 <= i < rels.len() && dir_entry(#[trigger] rels[i]).len() > 0 ==> dir_list(rels).contains(
            dir_entry(rels[i]),
        ),
    decreases rels.len(),
{
    if rels.len() > 0 {
        let init = rels.drop_last();
        lemma_dir_list(init);
        let s = dir_list(init);
        let d = dir_entry(rels.last());
        let r = dir_list(rels);
        if d.len() > 0 {
            lemma_name_insert(s, d);
        }
        assert forall|k: int| 0 <= k < r.len() implies exists|i: int|
            0 <= i < rels.len() && #[trigger] r[k] == dir_entry(rels[i]) && dir_entry(rels[i]).len() > 0 by {
            if d.len() > 0 && r[k] == d {
                assert(rels[rels.len() - 1] == rels.last());
            } else {
                assert(s.contains(r[k]));
                let m = choose|m: int| 0 <= m < s.len() && s[m] == r[k];
                let i = choose|i: int| 0 <= i < init.len() && #[trigger] s[m] == dir_entry(init[i]) && dir_entry(init[i]).len() > 0;
                assert(rels[i] == init[i]);
            }
        }
        assert forall|i: int| 0 <= i < rels.len() && dir_entry(#[trigger] rels[i]).len() > 0 implies r.contains(
            dir_entry(rels[i]),
        ) by {
            if i < rels.len() - 1 {
                assert(rels[i] == init[i]);
                assert(s.contains(dir_entry(init[i])));
                if d.len() > 0 {
                    let m = choose|m: int| 0 <= m < s.len() && s[m] == dir_entry(init[i]);
                    assert(r.contains(s[m]));
                }
            }
        }
    }
}

/// Creating a directory from what was typed: its normalised path, or what
/// the status line says when that leaves nothing.
pub fn new_dir_plan(raw: &str) -> (r: Result<String, &'static str>)
    ensures
        match r {
            Ok(p) => p@ == dir_path(raw@) && p@.len() > 0,
            Err(m) => dir_path(raw@).len() == 0 && m@ == "directory path cannot be empty"@,
        },
{
    let path = crate::index::normalize_dir_path(raw);
    if path.as_str().unicode_len() == 0 {
        Err("directory path cannot be empty")
    } else {
        Ok(path)
    }
}

/// What the status line says when the directory is there already.
pub fn dir_exists_message(path: &str) -> (r: String)
    ensures
        r@ == "directory '"@ + path@ + "' already exists"@,
{
    let mut s = String::from_str("directory '");
    s.append(path);
    s.append("' already exists");
    s
}

/// What the status line says once the directory is made.
pub fn created_dir_message(path: &str) -> (r: String)
    ensures
        r@ == "created directory "@ + path@ + "/"@,
{
    let mut s = String::from_str("created directory ");
    s.append(path);
    s.append("/");
    s
}

} // verus!
