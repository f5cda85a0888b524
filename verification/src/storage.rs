//! The note files of a vault: where they lie, which of them a search by file
//! name finds, and the tag front matter that the file store writes.
//!
//! The file store normalises a tag list by joining it with spaces and reading
//! it back as input, so a tag that holds a space or a comma becomes several.
use vstd::prelude::*;
use crate::index::{
    file_name, file_name_chars, named_components, normalize_note_path, note_rel_path, path_join, abs_note_path,
    parse_tags_input, tags_of_input, strs, strings_of, chars_of_strings, is_tag,
    lemma_normal_tags_canonical,
};
use crate::frontmatter::{
    dashes, newline, tags_line, declared_tokens, declared_tag_tokens, with_tags, with_tags_chars,
    tags_line_chars, value_tokens, value_tokens_exec, dashes_chars,
};
use crate::text::{chars_of, contains_exec, contains_seq, ends_with, join, join_with, lemma_split_len, split, string_of, views, starts_with, starts_with_exec, slice_chars, CharSet};
use crate::index::{last_dot, lemma_last_dot};

verus! {

broadcast use vstd::string::group_string_axioms;

/// The vault's notes, under `notes_root`.
pub struct NoteStorage {
    notes_root: String,
}

impl NoteStorage {
    pub closed spec fn root_view(&self) -> Seq<char> {
        self.notes_root@
    }

    pub fn new(notes_root: String) -> (r: NoteStorage)
        ensures
            r.root_view() == notes_root@,
    {
        NoteStorage { notes_root }
    }

    pub fn notes_root(&self) -> (r: &str)
        ensures
            r@ == self.root_view(),
    {
        self.notes_root.as_str()
    }

    /// Where the note at `rel` lies on disk.
    pub fn abs_path(&self, rel: &str) -> (r: String)
        ensures
            r@ == path_join(self.root_view(), rel@),
    {
        abs_note_path(self.notes_root.as_str(), rel)
    }
}

/// Whether the file name of `path` holds `query`.
pub open spec fn name_matches(path: Seq<char>, query: Seq<char>) -> bool {
    match file_name(path) {
        Some(n) => contains_seq(n, query),
        None => false,
    }
}

/// The paths whose file name holds `query`, in their order.
pub open spec fn matching_names(paths: Seq<Seq<char>>, query: Seq<char>) -> Seq<Seq<char>>
    decreases paths.len(),
{
    if paths.len() == 0 {
        paths
    } else {
        let prev = matching_names(paths.drop_last(), query);
        if name_matches(paths.last(), query) {
            prev.push(paths.last())
        } else {
            prev
        }
    }
}

/// The markdown files under a directory.
pub struct Notes {
    root: String,
}

impl Notes {
    pub closed spec fn root_view(&self) -> Seq<char> {
        self.root@
    }

    pub fn new(root: String) -> (r: Notes)
        ensures
            r.root_view() == root@,
    {
        Notes { root }
    }

    pub fn root(&self) -> (r: &str)
        ensures
            r@ == self.root_view(),
    {
        self.root.as_str()
    }

    /// Of the files `listed` under the root, those whose file name holds
    /// `query`.
    pub fn find(&self, listed: &Vec<String>, query: &str) -> (r: Vec<String>)
        ensures
            strs(r@) == matching_names(strs(listed@), query@),
    {
        let q = chars_of(query);
        let mut out: Vec<String> = Vec::new();
        let mut i: usize = 0;
        while i < listed.len()
            invariant
                i <= listed.len(),
                q@ == query@,
                strs(out@) == matching_names(strs(listed@).take(i as int), query@),
            decreases listed.len() - i,
        {
            let ghost lv = strs(listed@);
            proof {
                assert(lv.take(i as int + 1).drop_last() =~= lv.take(i as int));
                assert(lv.take(i as int + 1).last() == listed@[i as int]@);
            }
            let p = chars_of(listed[i].as_str());
            let hit = match file_name_chars(&p) {
                Some(n) => contains_exec(&n, &q),
                None => false,
            };
            if hit {
                let s = listed[i].clone();
                proof {
                    assert(strs(out@.push(s)) =~= strs(out@).push(s@));
                }
                out.push(s);
            }
            i = i + 1;
        }
        assert(strs(listed@).take(listed@.len() as int) =~= strs(listed@));
        out
    }
}

/// A relative note path from what the user typed.
pub fn normalize_rel(raw: &str) -> (r: String)
    ensures
        r@ == note_rel_path(raw@),
{
    normalize_note_path(raw)
}

/// The file store's normal form of a tag list: the tags joined by spaces and
/// read as input.
pub open spec fn joined_tags(tags: Seq<Seq<char>>) -> Seq<Seq<char>> {
    tags_of_input(join(tags, seq![' ']))
}

fn space_joined(tags: &Vec<Vec<char>>) -> (r: String)
    ensures
        r@ == join(views(tags@), seq![' ']),
{
    let mut sp: Vec<char> = Vec::new();
    sp.push(' ');
    assert(sp@ =~= seq![' ']);
    string_of(&join_with(tags, &sp))
}

/// The file store's normalisation of a tag list.
pub fn normalize_tags(tags: &Vec<String>) -> (r: Vec<String>)
    ensures
        strs(r@) == joined_tags(strs(tags@)),
        strs(r@).no_duplicates(),
        forall|i: int| 0 <= i < r@.len() ==> is_tag(#[trigger] strs(r@)[i]),
{
    let cs = chars_of_strings(tags);
    let raw = space_joined(&cs);
    parse_tags_input(raw.as_str())
}

/// The front matter a new note starts with: a `tags:` line for the normal
/// form of `tags`, or nothing when that is empty.
pub open spec fn tags_block(tags: Seq<Seq<char>>) -> Seq<char> {
    let t = joined_tags(tags);
    if t.len() == 0 {
        Seq::<char>::empty()
    } else {
        dashes() + newline() + tags_line(t) + newline() + dashes() + newline()
    }
}

pub fn tags_frontmatter(tags: &Vec<String>) -> (r: String)
    ensures
        r@ == tags_block(strs(tags@)),
{
    let normalized = normalize_tags(tags);
    if normalized.len() == 0 {
        return String::new();
    }
    let line = tags_line_chars(&chars_of_strings(&normalized));
    let mut out = dashes_chars();
    out.push('\n');
    crate::text::push_all(&mut out, &line);
    out.push('\n');
    out.push('-');
    out.push('-');
    out.push('-');
    out.push('\n');
    assert(out@ =~= dashes() + newline() + tags_line(joined_tags(strs(tags@))) + newline() + dashes()
        + newline());
    string_of(&out)
}

/// Sets the `tags:` of a note's front matter to the file store's normal form
/// of `tags`.
pub fn write_tags_to_markdown(content: &str, tags: &Vec<String>) -> (r: String)
    ensures
        r@ == with_tags(content@, joined_tags(strs(tags@))),
{
    let normalized = normalize_tags(tags);
    string_of(&with_tags_chars(&chars_of(content), &chars_of_strings(&normalized)))
}

/// The tags of a `tags:` value in the file store's normal form.
pub open spec fn stored_value_tags(raw: Seq<char>) -> Seq<Seq<char>> {
    tags_of_input(join(value_tokens(raw), seq![' ']))
}

pub fn parse_tags_frontmatter_value(raw: &str) -> (r: Vec<String>)
    ensures
        strs(r@) == stored_value_tags(raw@),
{
    let tokens = value_tokens_exec(&chars_of(raw));
    let joined = space_joined(&tokens);
    parse_tags_input(joined.as_str())
}

/// The tags a note declares, in the file store's normal form.
pub open spec fn stored_tags_in(content: Seq<char>) -> Seq<Seq<char>> {
    match declared_tokens(content) {
        None => Seq::<Seq<char>>::empty(),
        Some(tokens) => tags_of_input(join(tokens, seq![' '])),
    }
}

pub fn read_tags_from_markdown(content: &str) -> (r: Vec<String>)
    ensures
        strs(r@) == stored_tags_in(content@),
{
    match declared_tag_tokens(&chars_of(content)) {
        None => Vec::new(),
        Some(tokens) => {
            let joined = space_joined(&tokens);
            parse_tags_input(joined.as_str())
        },
    }
}

/// What writing `tags` into a note whose text is `current` gives: the new
/// text and the tags as stored.
pub fn retag(current: &str, tags: &Vec<String>) -> (r: (String, Vec<String>))
    ensures
        strs(r.1@) == joined_tags(strs(tags@)),
        r.0@ == with_tags(current@, joined_tags(strs(r.1@))),
{
    let normalized = normalize_tags(tags);
    let next = write_tags_to_markdown(current, &normalized);
    (next, normalized)
}

// ---------------------------------------------------------------------------
// Listing the vault
// ---------------------------------------------------------------------------

/// `Path::extension` of a file name: what follows its last dot, unless the
/// only dot is the first character.
pub open spec fn extension_of(name: Seq<char>) -> Option<Seq<char>> {
    if last_dot(name) <= 0 {
        None
    } else {
        Some(name.skip(last_dot(name) + 1))
    }
}

/// A markdown file: its file name has the extension `md`.
pub open spec fn markdown_file(path: Seq<char>) -> bool {
    match file_name(path) {
        Some(n) => extension_of(n) == Some(seq!['m', 'd']),
        None => false,
    }
}

pub fn is_markdown_file(path: &str) -> (b: bool)
    ensures
        b == markdown_file(path@),
{
    let name = match file_name_chars(&chars_of(path)) {
        Some(n) => n,
        None => {
            return false;
        },
    };
    let mut k = name.len();
    while k > 0 && name[k - 1] != '.'
        invariant
            k <= name.len(),
            forall|j: int| k <= j < name.len() ==> name@[j] != '.',
        decreases k,
    {
        k = k - 1;
    }
    proof {
        lemma_last_dot(name@, k as int - 1);
    }
    if k <= 1 {
        return false;
    }
    let ext = slice_chars(&name, k, name.len());
    assert(ext@ =~= name@.skip(k as int));
    let r = ext.len() == 2 && ext[0] == 'm' && ext[1] == 'd';
    proof {
        if ext@ == seq!['m', 'd'] {
            assert(ext@[0] == 'm' && ext@[1] == 'd');
        }
        if r {
            assert(ext@ =~= seq!['m', 'd']);
        }
    }
    r
}

/// The prefix that the files under `root` start with.
pub open spec fn under(root: Seq<char>) -> Seq<char> {
    if root.len() > 0 && root.last() == '/' {
        root
    } else {
        root.push('/')
    }
}

/// Of the files found under `root`, the markdown ones, as paths relative to
/// the root, in their order.
pub open spec fn notes_under(root: Seq<char>, files: Seq<Seq<char>>) -> Seq<Seq<char>>
    decreases files.len(),
{
    if files.len() == 0 {
        files
    } else {
        let prev = notes_under(root, files.drop_last());
        let f = files.last();
        if markdown_file(f) && starts_with(f, under(root)) && f.len() > under(root).len() {
            prev.push(f.skip(under(root).len() as int))
        } else {
            prev
        }
    }
}

pub fn relative_note_paths(root: &str, files: &Vec<String>) -> (r: Vec<String>)
    ensures
        strs(r@) == notes_under(root@, strs(files@)),
{
    let mut pre = chars_of(root);
    if !(pre.len() > 0 && pre[pre.len() - 1] == '/') {
        pre.push('/');
    }
    assert(pre@ == under(root@));
    let ghost fv = strs(files@);
    let mut out: Vec<String> = Vec::new();
    let mut i: usize = 0;
    while i < files.len()
        invariant
            i <= files@.len(),
            fv == strs(files@),
            pre@ == under(root@),
            strs(out@) == notes_under(root@, fv.take(i as int)),
        decreases files.len() - i,
    {
        proof {
            assert(fv.take(i as int + 1).drop_last() =~= fv.take(i as int));
            assert(fv.take(i as int + 1).last() == files@[i as int]@);
        }
        let f = chars_of(files[i].as_str());
        if is_markdown_file(files[i].as_str()) && starts_with_exec(&f, &pre) && f.len() > pre.len() {
            let rel = string_of(&slice_chars(&f, pre.len(), f.len()));
            proof {
                assert(rel@ =~= f@.skip(pre@.len() as int));
                assert(strs(out@.push(rel)) =~= strs(out@).push(rel@));
            }
            out.push(rel);
        }
        i = i + 1;
    }
    assert(fv.take(files@.len() as int) =~= fv);
    out
}

// ---------------------------------------------------------------------------
// What the listing and the search by name keep
// ---------------------------------------------------------------------------

/// The text after the last `/` of a path.
pub open spec fn last_piece(p: Seq<char>) -> Seq<char> {
    split(p, CharSet::Only('/')).last()
}

/// The text after the last `/` of a path ends it.
proof fn lemma_last_piece_ends(p: Seq<char>)
    ensures
        ends_with(p, last_piece(p)),
    decreases p.len(),
{
    let cs = CharSet::Only('/');
    if p.len() == 0 {
        assert(split(p, cs) == seq![Seq::<char>::empty()]);
        assert(p.skip(0) =~= last_piece(p));
    } else {
        let d = p.drop_last();
        lemma_last_piece_ends(d);
        lemma_split_len(d, cs);
        let prev = split(d, cs);
        if p.last() == '/' {
            assert(last_piece(p) == Seq::<char>::empty());
            assert(p.skip(p.len() as int) =~= Seq::<char>::empty());
        } else {
            let l = prev.last();
            assert(last_piece(p) == l.push(p.last()));
            assert(d.skip(d.len() - l.len()) == l);
            assert(p.skip(p.len() - l.len() - 1) =~= d.skip(d.len() - l.len()).push(p.last()));
        }
    }
}

/// When a path's text after its last `/` names something, that text is its
/// file name and ends the path.
pub proof fn lemma_file_name_is_last_piece(p: Seq<char>)
    requires
        last_piece(p).len() > 0,
        last_piece(p) != seq!['.'],
        last_piece(p) != seq!['.', '.'],
    ensures
        file_name(p) == Some(last_piece(p)),
        ends_with(p, last_piece(p)),
{
    let parts = split(p, CharSet::Only('/'));
    lemma_split_len(p, CharSet::Only('/'));
    assert(parts.last() == last_piece(p));
    assert(named_components(parts) == named_components(parts.drop_last()).push(parts.last()));
    lemma_last_piece_ends(p);
}

/// A file counts as a markdown note exactly when its file name is more than
/// `.md` and ends in `.md`.
pub proof fn lemma_markdown_file_ends_in_md(path: Seq<char>)
    ensures
        markdown_file(path) <==> (file_name(path) matches Some(n) && n.len() > 3 && ends_with(n, seq!['.', 'm', 'd'])),
{
    match file_name(path) {
        Some(n) => {
            let md = seq!['.', 'm', 'd'];
            if markdown_file(path) {
                let k = last_dot(n);
                lemma_last_dot_bound(n);
                assert(n.skip(k + 1) == seq!['m', 'd']);
                assert(n.len() == k + 3);
                assert(n[k] == '.');
                assert(n[k + 1] == n.skip(k + 1)[0]);
                assert(n[k + 2] == n.skip(k + 1)[1]);
                assert(n.skip(n.len() - 3) =~= md);
            }
            if n.len() > 3 && ends_with(n, md) {
                let k = n.len() - 3;
                assert(n[k] == n.skip(k)[0]);
                assert(n[k + 1] == n.skip(k)[1]);
                assert(n[k + 2] == n.skip(k)[2]);
                lemma_last_dot(n, k);
                assert(n.skip(k + 1) =~= seq!['m', 'd']);
            }
        },
        None => {},
    }
}

proof fn lemma_last_dot_bound(s: Seq<char>)
    ensures
        -1 <= last_dot(s) < s.len(),
        last_dot(s) >= 0 ==> s[last_dot(s)] == '.',
        forall|j: int| last_dot(s) < j < s.len() ==> s[j] != '.',
    decreases s.len(),
{
    if s.len() > 0 && s.last() != '.' {
        lemma_last_dot_bound(s.drop_last());
        assert forall|j: int| last_dot(s) < j < s.len() implies s[j] != '.' by {
            if j < s.len() - 1 {
                assert(s[j] == s.drop_last()[j]);
            }
        }
    }
}

/// A file whose text after its last `/` names something counts as a
/// markdown note only when the path ends in `.md`.
pub proof fn lemma_markdown_path_ends_in_md(path: Seq<char>)
    requires
        markdown_file(path),
        last_piece(path).len() > 0,
        last_piece(path) != seq!['.'],
        last_piece(path) != seq!['.', '.'],
    ensures
        ends_with(path, seq!['.', 'm', 'd']),
{
    lemma_file_name_is_last_piece(path);
    lemma_markdown_file_ends_in_md(path);
    let n = last_piece(path);
    assert(path.skip(path.len() - n.len()) == n);
    assert(path.skip(path.len() - 3) =~= n.skip(n.len() - 3));
}

/// Every path the listing gives is, put back under the root, one of the
/// files found there, and a markdown file.
pub proof fn lemma_listed_notes_are_markdown(root: Seq<char>, files: Seq<Seq<char>>)
    ensures
        forall|i: int| 0 <= i < notes_under(root, files).len() ==> exists|k: int|
            0 <= k < files.len() && #[trigger] files[k] == under(root) + #[trigger] notes_under(root, files)[i]
                && markdown_file(files[k]),
    decreases files.len(),
{
    let r = notes_under(root, files);
    if files.len() > 0 {
        let d = files.drop_last();
        lemma_listed_notes_are_markdown(root, d);
        let prev = notes_under(root, d);
        let f = files.last();
        assert forall|i: int| 0 <= i < r.len() implies exists|k: int|
            0 <= k < files.len() && #[trigger] files[k] == under(root) + #[trigger] r[i] && markdown_file(files[k]) by {
            if i < prev.len() {
                assert(r[i] == prev[i]);
                let k = choose|k: int| 0 <= k < d.len() && #[trigger] d[k] == under(root) + prev[i] && markdown_file(d[k]);
                assert(files[k] == d[k]);
            } else {
                let u = under(root);
                assert(r[i] == f.skip(u.len() as int));
                assert(f.take(u.len() as int) == u);
                assert(f =~= u + f.skip(u.len() as int));
                assert(files[files.len() - 1] == f);
            }
        }
    }
}

/// The search by name keeps exactly the listed paths whose file name holds
/// the query: every path it gives is listed and has such a file name, and
/// every listed path that has one is given. A query found only in a
/// directory of a path does not select it.
pub proof fn lemma_find_by_file_name(paths: Seq<Seq<char>>, query: Seq<char>)
    ensures
        forall|i: int| 0 <= i < matching_names(paths, query).len() ==> paths.contains(
            #[trigger] matching_names(paths, query)[i],
        ) && (file_name(matching_names(paths, query)[i]) matches Some(n) && contains_seq(n, query)),
        forall|k: int| 0 <= k < paths.len() && (file_name(#[trigger] paths[k]) matches Some(n) && contains_seq(n, query))
            ==> matching_names(paths, query).contains(paths[k]),
    decreases paths.len(),
{
    let r = matching_names(paths, query);
    if paths.len() > 0 {
        let d = paths.drop_last();
        lemma_find_by_file_name(d, query);
        let prev = matching_names(d, query);
        assert forall|i: int| 0 <= i < r.len() implies paths.contains(#[trigger] r[i]) && (file_name(r[i]) matches Some(
            n,
        ) && contains_seq(n, query)) by {
            if i < prev.len() {
                assert(r[i] == prev[i]);
                let k = choose|k: int| 0 <= k < d.len() && d[k] == prev[i];
                assert(paths[k] == d[k]);
            } else {
                assert(r[i] == paths.last());
                assert(paths[paths.len() - 1] == paths.last());
            }
        }
        assert forall|k: int| 0 <= k < paths.len() && (file_name(#[trigger] paths[k]) matches Some(n) && contains_seq(
            n,
            query,
        )) implies r.contains(paths[k]) by {
            if k < d.len() {
                assert(d[k] == paths[k]);
                assert(prev.contains(d[k]));
                let j = choose|j: int| 0 <= j < prev.len() && prev[j] == d[k];
                assert(r[j] == prev[j]);
            } else {
                assert(paths[k] == paths.last());
                assert(r[r.len() - 1] == paths.last());
            }
        }
    }
}

} // verus!
