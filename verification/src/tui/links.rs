//! Links between notes: the `[[target|alias]]` links a note's text holds,
//! the note each of them names, and the ordered set of notes it links to.
use vstd::prelude::*;
use crate::text::{
    before_char, before_char_exec, chars_of, eq_chars, find_exec, lemma_match_from_bound, match_from,
    slice_chars, string_of, trim_whitespace, trim_ws,
};
use crate::index::{file_name, file_name_chars, key_of, note_rel_path, normalize_note_path, path_key, strs, NoteMeta};
use crate::tui::names::{display_name, display_name_from_note_path};
use crate::tui::paths::{path_set, path_set_insert, same_note_path, same_path, set_insert};
use crate::tui::tree::{kept_selection, note_paths};

verus! {

broadcast use vstd::string::group_string_axioms;

pub open spec fn open_mark() -> Seq<char> {
    seq!['[', '[']
}

pub open spec fn close_mark() -> Seq<char> {
    seq![']', ']']
}

/// The targets of the links in `rest`, in order: after each `[[`, the text
/// up to the next `]]`, cut at its first `|` and trimmed; a `[[` that no
/// `]]` closes ends the search.
pub open spec fn wikilink_targets(rest: Seq<char>) -> Seq<Seq<char>>
    decreases rest.len(),
{
    match match_from(rest, open_mark(), 0) {
        None => Seq::<Seq<char>>::empty(),
        Some(s) => {
            proof {
                lemma_match_from_bound(rest, open_mark(), 0, s);
            }
            let after = rest.skip(s + 2);
            match match_from(after, close_mark(), 0) {
                None => Seq::<Seq<char>>::empty(),
                Some(e) => {
                    proof {
                        lemma_match_from_bound(after, close_mark(), 0, e);
                    }
                    seq![trim_ws(before_char(after.take(e), '|'))] + wikilink_targets(after.skip(e + 2))
                },
            }
        },
    }
}

fn mark(c: char) -> (r: Vec<char>)
    ensures
        r@ == seq![c, c],
{
    let mut r: Vec<char> = Vec::new();
    r.push(c);
    r.push(c);
    assert(r@ =~= seq![c, c]);
    r
}

/// The targets of the links on a line.
pub fn wikilink_targets_in(line: &str) -> (r: Vec<String>)
    ensures
        strs(r@) == wikilink_targets(line@),
{
    let open = mark('[');
    let close = mark(']');
    let mut rest = chars_of(line);
    let mut out: Vec<String> = Vec::new();
    loop
        invariant
            open@ == open_mark(),
            close@ == close_mark(),
            strs(out@) + wikilink_targets(rest@) == wikilink_targets(line@),
        decreases rest@.len(),
    {
        let s = match find_exec(&rest, &open, 0) {
            Some(s) => s,
            None => {
                assert(strs(out@) + Seq::<Seq<char>>::empty() =~= strs(out@));
                return out;
            },
        };
        proof {
            lemma_match_from_bound(rest@, open_mark(), 0, s as int);
        }
        let len = rest.len();
        assert(s + 2 <= len);
        let after = slice_chars(&rest, s + 2, len);
        assert(after@ =~= rest@.skip(s + 2));
        let e = match find_exec(&after, &close, 0) {
            Some(e) => e,
            None => {
                assert(strs(out@) + Seq::<Seq<char>>::empty() =~= strs(out@));
                return out;
            },
        };
        proof {
            lemma_match_from_bound(after@, close_mark(), 0, e as int);
        }
        let raw = slice_chars(&after, 0, e);
        let target = string_of(&trim_whitespace(&before_char_exec(&raw, '|')));
        let next = slice_chars(&after, e + 2, after.len());
        proof {
            assert(raw@ =~= after@.take(e as int));
            assert(next@ =~= after@.skip(e + 2));
            assert(strs(out@.push(target)) =~= strs(out@).push(target@));
            assert(strs(out@).push(target@) + wikilink_targets(next@) =~= strs(out@) + (seq![target@]
                + wikilink_targets(next@)));
        }
        out.push(target);
        rest = next;
    }
}

/// The paths of `paths` whose file name is `leaf`.
pub open spec fn leaf_hits(paths: Seq<Seq<char>>, leaf: Seq<char>) -> Seq<Seq<char>>
    decreases paths.len(),
{
    if paths.len() == 0 {
        Seq::<Seq<char>>::empty()
    } else if file_name(paths.last()) == Some(leaf) {
        leaf_hits(paths.drop_last(), leaf).push(paths.last())
    } else {
        leaf_hits(paths.drop_last(), leaf)
    }
}

/// The paths of the notes whose trimmed title is `t`.
pub open spec fn title_hits(notes: Seq<NoteMeta>, t: Seq<char>) -> Seq<Seq<char>>
    decreases notes.len(),
{
    if notes.len() == 0 {
        Seq::<Seq<char>>::empty()
    } else if trim_ws(notes.last().title@) == t {
        title_hits(notes.drop_last(), t).push(notes.last().path@)
    } else {
        title_hits(notes.drop_last(), t)
    }
}

/// Whether one of the notes is at path `p`.
pub open spec fn listed(notes: Seq<NoteMeta>, p: Seq<char>) -> bool {
    exists|i: int| 0 <= i < notes.len() && same_path(#[trigger] notes[i].path@, p)
}

/// The note a link target names: none when the target normalises to no
/// path; the normalised path when a note is there; else the one note with
/// that file name, or else the one note with that title; else the
/// normalised path all the same.
pub open spec fn link_target(notes: Seq<NoteMeta>, target: Seq<char>) -> Option<Seq<char>> {
    let n = note_rel_path(target);
    if n.len() == 0 {
        None
    } else if listed(notes, n) {
        Some(n)
    } else {
        let leaf = match file_name(n) {
            Some(l) => l,
            None => Seq::<char>::empty(),
        };
        let lh = leaf_hits(note_paths(notes), leaf);
        let th = title_hits(notes, trim_ws(target));
        if lh.len() == 1 {
            Some(lh[0])
        } else if th.len() == 1 {
            Some(th[0])
        } else {
            Some(n)
        }
    }
}

fn is_listed(notes: &Vec<NoteMeta>, p: &str) -> (b: bool)
    ensures
        b == listed(notes@, p@),
{
    let mut i: usize = 0;
    while i < notes.len()
        invariant
            i <= notes@.len(),
            forall|j: int| 0 <= j < i ==> !same_path(#[trigger] notes@[j].path@, p@),
        decreases notes.len() - i,
    {
        if same_note_path(notes[i].path.as_str(), p) {
            return true;
        }
        i = i + 1;
    }
    false
}

/// The first two paths of `hits`, at most.
pub open spec fn first_two(hits: Seq<Seq<char>>) -> Seq<Seq<char>> {
    if hits.len() <= 2 {
        hits
    } else {
        hits.take(2)
    }
}

fn leaf_hits_exec(notes: &Vec<NoteMeta>, leaf: &Vec<char>) -> (r: Vec<String>)
    ensures
        strs(r@) == leaf_hits(note_paths(notes@), leaf@),
{
    let mut r: Vec<String> = Vec::new();
    let mut i: usize = 0;
    while i < notes.len()
        invariant
            i <= notes@.len(),
            strs(r@) == leaf_hits(note_paths(notes@).take(i as int), leaf@),
        decreases notes.len() - i,
    {
        let p = &notes[i].path;
        proof {
            let ps = note_paths(notes@);
            assert(ps.take(i as int + 1).drop_last() =~= ps.take(i as int));
            assert(ps.take(i as int + 1).last() == p@);
        }
        let hit = match file_name_chars(&chars_of(p.as_str())) {
            Some(n) => eq_chars(&n, leaf),
            None => false,
        };
        if hit {
            let c = p.clone();
            proof {
                assert(strs(r@.push(c)) =~= strs(r@).push(c@));
            }
            r.push(c);
        }
        i = i + 1;
    }
    assert(note_paths(notes@).take(notes@.len() as int) =~= note_paths(notes@));
    r
}

fn title_hits_exec(notes: &Vec<NoteMeta>, t: &Vec<char>) -> (r: Vec<String>)
    ensures
        strs(r@) == title_hits(notes@, t@),
{
    let mut r: Vec<String> = Vec::new();
    let mut i: usize = 0;
    while i < notes.len()
        invariant
            i <= notes@.len(),
            strs(r@) == title_hits(notes@.take(i as int), t@),
        decreases notes.len() - i,
    {
        proof {
            assert(notes@.take(i as int + 1).drop_last() =~= notes@.take(i as int));
            assert(notes@.take(i as int + 1).last() == notes@[i as int]);
        }
        if eq_chars(&trim_whitespace(&chars_of(notes[i].title.as_str())), t) {
            let c = notes[i].path.clone();
            proof {
                assert(strs(r@.push(c)) =~= strs(r@).push(c@));
            }
            r.push(c);
        }
        i = i + 1;
    }
    assert(notes@.take(notes@.len() as int) =~= notes@);
    r
}

/// The note a link target names.
pub fn resolve_wikilink_target(notes: &Vec<NoteMeta>, target: &str) -> (r: Option<String>)
    ensures
        match r {
            Some(p) => link_target(notes@, target@) == Some(p@),
            None => link_target(notes@, target@) is None,
        },
{
    let n = normalize_note_path(target);
    if n.as_str().unicode_len() == 0 {
        return None;
    }
    if is_listed(notes, n.as_str()) {
        return Some(n);
    }
    let leaf = match file_name_chars(&chars_of(n.as_str())) {
        Some(l) => l,
        None => Vec::new(),
    };
    let lh = leaf_hits_exec(notes, &leaf);
    if lh.len() == 1 {
        assert(strs(lh@)[0] == lh@[0]@);
        return Some(lh[0].clone());
    }
    let th = title_hits_exec(notes, &trim_whitespace(&chars_of(target)));
    if th.len() == 1 {
        assert(strs(th@)[0] == th@[0]@);
        return Some(th[0].clone());
    }
    Some(n)
}

/// The notes the links of `line` name, in order.
pub open spec fn line_links(notes: Seq<NoteMeta>, targets: Seq<Seq<char>>) -> Seq<Seq<char>>
    decreases targets.len(),
{
    if targets.len() == 0 {
        Seq::<Seq<char>>::empty()
    } else {
        let prev = line_links(notes, targets.drop_last());
        match link_target(notes, targets.last()) {
            Some(p) => prev.push(p),
            None => prev,
        }
    }
}

/// The notes the links of `lines` name, line by line, in order.
pub open spec fn text_links(notes: Seq<NoteMeta>, lines: Seq<Seq<char>>) -> Seq<Seq<char>>
    decreases lines.len(),
{
    if lines.len() == 0 {
        Seq::<Seq<char>>::empty()
    } else {
        text_links(notes, lines.drop_last()) + line_links(notes, wikilink_targets(lines.last()))
    }
}

/// The ordered set of paths `path_set(pre + xs)`, built on `path_set(pre)`.
proof fn lemma_path_set_append(pre: Seq<Seq<char>>, xs: Seq<Seq<char>>, x: Seq<char>)
    ensures
        path_set(pre + xs.push(x)) == set_insert(path_set(pre + xs), x),
{
    assert((pre + xs.push(x)).drop_last() =~= pre + xs);
    assert((pre + xs.push(x)).last() == x);
}

/// The links of a note's lines: the ordered set of the notes they name, and
/// the selected link kept inside it.
pub fn refresh_links(lines: &Vec<String>, notes: &Vec<NoteMeta>, selected: usize) -> (r: (Vec<String>, usize))
    ensures
        strs(r.0@) == path_set(text_links(notes@, strs(lines@))),
        r.1 as nat == kept_selection(r.0@.len(), selected as nat),
{
    let mut set: Vec<String> = Vec::new();
    let mut row: usize = 0;
    while row < lines.len()
        invariant
            row <= lines@.len(),
            strs(set@) == path_set(text_links(notes@, strs(lines@).take(row as int))),
        decreases lines.len() - row,
    {
        let ghost done = text_links(notes@, strs(lines@).take(row as int));
        let targets = wikilink_targets_in(lines[row].as_str());
        proof {
            let ls = strs(lines@);
            assert(ls.take(row as int + 1).drop_last() =~= ls.take(row as int));
            assert(ls.take(row as int + 1).last() == lines@[row as int]@);
        }
        let mut k: usize = 0;
        while k < targets.len()
            invariant
                k <= targets@.len(),
                strs(set@) == path_set(done + line_links(notes@, strs(targets@).take(k as int))),
            decreases targets.len() - k,
        {
            let ghost so_far = line_links(notes@, strs(targets@).take(k as int));
            proof {
                let ts = strs(targets@);
                assert(ts.take(k as int + 1).drop_last() =~= ts.take(k as int));
                assert(ts.take(k as int + 1).last() == targets@[k as int]@);
            }
            match resolve_wikilink_target(notes, targets[k].as_str()) {
                Some(p) => {
                    proof {
                        lemma_path_set_append(done, so_far, p@);
                    }
                    path_set_insert(&mut set, p);
                },
                None => {},
            }
            k = k + 1;
        }
        assert(strs(targets@).take(targets@.len() as int) =~= strs(targets@));
        row = row + 1;
    }
    assert(strs(lines@).take(lines@.len() as int) =~= strs(lines@));
    let n = set.len();
    let sel = if selected >= n {
        if n == 0 {
            0
        } else {
            n - 1
        }
    } else {
        selected
    };
    (set, sel)
}

/// The first of the notes that is at path `p`.
pub open spec fn note_at(notes: Seq<NoteMeta>, p: Seq<char>) -> Option<NoteMeta>
    decreases notes.len(),
{
    if notes.len() == 0 {
        None
    } else if same_path(notes[0].path@, p) {
        Some(notes[0])
    } else {
        note_at(notes.drop_first(), p)
    }
}

/// What the links pane shows for a linked path: the trimmed title of the
/// note there, or the name its path gives when the title is blank or no
/// note is there.
pub open spec fn link_label(notes: Seq<NoteMeta>, p: Seq<char>) -> Seq<char> {
    match note_at(notes, p) {
        Some(n) => if trim_ws(n.title@).len() == 0 {
            display_name(key_of(n.path@))
        } else {
            trim_ws(n.title@)
        },
        None => display_name(key_of(p)),
    }
}

fn find_note(notes: &Vec<NoteMeta>, p: &str) -> (r: Option<usize>)
    ensures
        match r {
            Some(i) => i < notes@.len() && note_at(notes@, p@) == Some(notes@[i as int]),
            None => note_at(notes@, p@) is None,
        },
{
    let mut i: usize = 0;
    assert(notes@.skip(0) =~= notes@);
    while i < notes.len()
        invariant
            i <= notes@.len(),
            note_at(notes@, p@) == note_at(notes@.skip(i as int), p@),
        decreases notes.len() - i,
    {
        assert(notes@.skip(i as int)[0] == notes@[i as int]);
        if same_note_path(notes[i].path.as_str(), p) {
            return Some(i);
        }
        assert(notes@.skip(i as int).drop_first() =~= notes@.skip(i as int + 1));
        i = i + 1;
    }
    None
}

/// The text of each row of the links pane.
pub fn link_labels(links: &Vec<String>, notes: &Vec<NoteMeta>) -> (r: Vec<String>)
    ensures
        r@.len() == links@.len(),
        forall|k: int| 0 <= k < links@.len() ==> (#[trigger] r@[k])@ == link_label(notes@, links@[k]@),
{
    let mut out: Vec<String> = Vec::new();
    let mut k: usize = 0;
    while k < links.len()
        invariant
            k <= links@.len(),
            out@.len() == k,
            forall|j: int| 0 <= j < k ==> (#[trigger] out@[j])@ == link_label(notes@, links@[j]@),
        decreases links.len() - k,
    {
        let label = match find_note(notes, links[k].as_str()) {
            Some(i) => {
                let t = trim_whitespace(&chars_of(notes[i].title.as_str()));
                if t.len() == 0 {
                    display_name_from_note_path(path_key(notes[i].path.as_str()).as_str())
                } else {
                    string_of(&t)
                }
            },
            None => display_name_from_note_path(path_key(links[k].as_str()).as_str()),
        };
        out.push(label);
        k = k + 1;
    }
    out
}

} // verus!
