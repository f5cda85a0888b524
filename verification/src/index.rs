//! Note paths and tags: the rules by which user input becomes a note's
//! relative path, a directory prefix, or a normalised tag list.
//!
//! Relative paths are held as `/`-separated strings (the form `path_key`
//! gives them).
use vstd::prelude::*;
use crate::text::{
    before_char, before_char_exec, chars_of, ends_with, ends_with_exec, is_control, is_ctrl, join,
    join_with, push_all, replace_char, replace_char_exec, slice_chars, split, split_set, starts_with,
    string_of, trim_whitespace, trim_ws, views, CharSet, is_alnum, is_digit, lower, is_ascii_alphanumeric,
    to_ascii_lowercase, trimmed_nonempty, trimmed_nonempty_exec, eq_chars, starts_with_exec, concat,
};

verus! {

broadcast use vstd::string::group_string_axioms;

/// A note as the index lists it: its relative path and its title.
#[derive(Clone, Debug)]
pub struct NoteMeta {
    pub path: String,
    pub title: String,
}

// ---------------------------------------------------------------------------
// Path segments
// ---------------------------------------------------------------------------

/// Characters that never stay in a path segment.
pub open spec fn forbidden(c: char) -> bool {
    ||| c == '<'
    ||| c == '>'
    ||| c == ':'
    ||| c == '"'
    ||| c == '/'
    ||| c == '\\'
    ||| c == '|'
    ||| c == '?'
    ||| c == '*'
    ||| is_ctrl(c)
}

pub open spec fn drop_forbidden(s: Seq<char>) -> Seq<char>
    decreases s.len(),
{
    if s.len() == 0 {
        s
    } else if forbidden(s.last()) {
        drop_forbidden(s.drop_last())
    } else {
        drop_forbidden(s.drop_last()).push(s.last())
    }
}

/// A segment with forbidden characters removed and surrounding whitespace
/// trimmed.
pub open spec fn sanitize(s: Seq<char>) -> Seq<char> {
    trim_ws(drop_forbidden(trim_ws(s)))
}

fn is_forbidden(c: char) -> (b: bool)
    ensures
        b == forbidden(c),
{
    c == '<' || c == '>' || c == ':' || c == '"' || c == '/' || c == '\\' || c == '|' || c == '?'
        || c == '*' || is_control(c)
}

fn sanitize_chars(input: &Vec<char>) -> (r: Vec<char>)
    ensures
        r@ == sanitize(input@),
{
    let t = trim_whitespace(input);
    let mut kept: Vec<char> = Vec::new();
    let mut i: usize = 0;
    while i < t.len()
        invariant
            i <= t.len(),
            kept@ == drop_forbidden(t@.take(i as int)),
        decreases t.len() - i,
    {
        proof {
            assert(t@.take(i as int + 1).drop_last() =~= t@.take(i as int));
        }
        if !is_forbidden(t[i]) {
            kept.push(t[i]);
        }
        i = i + 1;
    }
    assert(t@.take(t@.len() as int) =~= t@);
    trim_whitespace(&kept)
}

/// Removes characters that are not allowed in a file name, and trims.
pub fn sanitize_path_segment(input: &str) -> (r: String)
    ensures
        r@ == sanitize(input@),
{
    string_of(&sanitize_chars(&chars_of(input)))
}

/// A trimmed segment that names something: not empty, not `.` or `..`.
pub open spec fn seg_ok(seg: Seq<char>) -> bool {
    seg.len() > 0 && seg != seq!['.'] && seg != seq!['.', '.']
}

/// The clean segments of a split path: trimmed, `.`/`..`/empty dropped,
/// sanitised, and empty results dropped.
pub open spec fn clean_parts(parts: Seq<Seq<char>>) -> Seq<Seq<char>>
    decreases parts.len(),
{
    if parts.len() == 0 {
        Seq::<Seq<char>>::empty()
    } else {
        let prev = clean_parts(parts.drop_last());
        let seg = trim_ws(parts.last());
        if seg_ok(seg) && sanitize(seg).len() > 0 {
            prev.push(sanitize(seg))
        } else {
            prev
        }
    }
}

fn seg_ok_exec(seg: &Vec<char>) -> (b: bool)
    ensures
        b == seg_ok(seg@),
{
    if seg.len() == 0 {
        return false;
    }
    if seg.len() == 1 && seg[0] == '.' {
        assert(seg@ =~= seq!['.']);
        return false;
    }
    if seg.len() == 2 && seg[0] == '.' && seg[1] == '.' {
        assert(seg@ =~= seq!['.', '.']);
        return false;
    }
    proof {
        if seg@ == seq!['.'] {
            assert(seg@[0] == '.');
        }
        if seg@ == seq!['.', '.'] {
            assert(seg@[0] == '.' && seg@[1] == '.');
        }
    }
    true
}

fn clean_parts_exec(parts: &Vec<Vec<char>>) -> (r: Vec<Vec<char>>)
    ensures
        views(r@) == clean_parts(views(parts@)),
{
    let mut r: Vec<Vec<char>> = Vec::new();
    let mut i: usize = 0;
    while i < parts.len()
        invariant
            i <= parts.len(),
            views(r@) == clean_parts(views(parts@).take(i as int)),
        decreases parts.len() - i,
    {
        proof {
            let pv = views(parts@);
            assert(pv.take(i as int + 1).drop_last() =~= pv.take(i as int));
            assert(pv.take(i as int + 1).last() == parts@[i as int]@);
        }
        let seg = trim_whitespace(&parts[i]);
        if seg_ok_exec(&seg) {
            let clean = sanitize_chars(&seg);
            if clean.len() > 0 {
                proof {
                    assert(views(r@.push(clean)) =~= views(r@).push(clean@));
                }
                r.push(clean);
            }
        }
        i = i + 1;
    }
    assert(views(parts@).take(parts@.len() as int) =~= views(parts@));
    r
}

// ---------------------------------------------------------------------------
// Directories
// ---------------------------------------------------------------------------

pub open spec fn dir_parts(raw: Seq<char>) -> Seq<Seq<char>> {
    clean_parts(split(replace_char(trim_ws(raw), '\\', '/'), CharSet::Only('/')))
}

/// The canonical form of a directory path: clean segments joined by `/`.
pub open spec fn dir_path(raw: Seq<char>) -> Seq<char> {
    join(dir_parts(raw), seq!['/'])
}

fn dir_parts_exec(raw: &Vec<char>) -> (r: Vec<Vec<char>>)
    ensures
        views(r@) == dir_parts(raw@),
{
    let t = trim_whitespace(raw);
    let unified = replace_char_exec(&t, '\\', '/');
    let parts = split_set(&unified, CharSet::Only('/'));
    clean_parts_exec(&parts)
}

pub fn slash() -> (r: Vec<char>)
    ensures
        r@ == seq!['/'],
{
    let mut r: Vec<char> = Vec::new();
    r.push('/');
    assert(r@ =~= seq!['/']);
    r
}

pub fn normalize_dir_chars(raw: &Vec<char>) -> (r: Vec<char>)
    ensures
        r@ == dir_path(raw@),
{
    join_with(&dir_parts_exec(raw), &slash())
}

/// The shape of a `%Y-%m-%d` date: a year of at least four characters, then
/// `-`, two digits, `-` and two digits.
pub open spec fn date_shaped(s: Seq<char>) -> bool {
    let n = s.len() as int;
    &&& n >= 10
    &&& s[n - 6] == '-'
    &&& s[n - 3] == '-'
    &&& is_digit(s[n - 5]) && is_digit(s[n - 4])
    &&& is_digit(s[n - 2]) && is_digit(s[n - 1])
}

/// Today's date in the local time zone, as `YYYY-MM-DD`: chrono's
/// `Local::now`, formatted with `%Y-%m-%d`. Which date it is depends on the
/// clock and the machine's time zone; what holds of every outcome is its
/// shape (chrono writes the year with at least four characters, the month
/// and the day with two digits each).
#[verifier::external_body]
pub fn today_date_path() -> (r: String)
    ensures
        date_shaped(r@),
{
    chrono::Local::now().format("%Y-%m-%d").to_string()
}

/// Normalises a directory path: backslashes become `/`, empty, `.` and `..`
/// segments go, each segment is sanitised.
pub fn normalize_dir_path(raw: &str) -> (r: String)
    ensures
        r@ == dir_path(raw@),
{
    string_of(&normalize_dir_chars(&chars_of(raw)))
}

// ---------------------------------------------------------------------------
// Note paths
// ---------------------------------------------------------------------------

/// `[[x]]` becomes `x`; anything else is kept.
pub open spec fn strip_wikilink(s: Seq<char>) -> Seq<char> {
    if starts_with(s, seq!['[', '[']) && ends_with(s.skip(2), seq![']', ']']) {
        s.subrange(2, s.len() - 2)
    } else {
        s
    }
}

/// The link target of a raw note reference, with `/` separators.
pub open spec fn note_target(raw: Seq<char>) -> Seq<char> {
    replace_char(trim_ws(before_char(strip_wikilink(trim_ws(raw)), '|')), '\\', '/')
}

pub open spec fn note_parts(raw: Seq<char>) -> Seq<Seq<char>> {
    clean_parts(split(note_target(raw), CharSet::Only('/')))
}

pub open spec fn md_ext() -> Seq<char> {
    seq!['.', 'm', 'd']
}

pub open spec fn with_md(seg: Seq<char>) -> Seq<char> {
    if ends_with(seg, md_ext()) {
        seg
    } else {
        seg + md_ext()
    }
}

/// The canonical relative path of a note: the clean segments of the link
/// target, the last one ending in `.md`, joined by `/`; empty when no segment
/// is left.
pub open spec fn note_rel_path(raw: Seq<char>) -> Seq<char> {
    let p = note_parts(raw);
    if p.len() == 0 {
        Seq::<char>::empty()
    } else {
        join(p.update(p.len() - 1, with_md(p.last())), seq!['/'])
    }
}

fn md_chars() -> (r: Vec<char>)
    ensures
        r@ == md_ext(),
{
    let mut r: Vec<char> = Vec::new();
    r.push('.');
    r.push('m');
    r.push('d');
    assert(r@ =~= md_ext());
    r
}

fn strip_wikilink_exec(s: &Vec<char>) -> (r: Vec<char>)
    ensures
        r@ == strip_wikilink(s@),
{
    if s.len() >= 4 && s[0] == '[' && s[1] == '[' && s[s.len() - 2] == ']' && s[s.len() - 1]
        == ']' {
        proof {
            assert(s@.take(2) =~= seq!['[', '[']);
            assert(s@.skip(2).skip(s@.skip(2).len() - 2) =~= seq![']', ']']);
        }
        slice_chars(s, 2, s.len() - 2)
    } else {
        proof {
            if starts_with(s@, seq!['[', '[']) && ends_with(s@.skip(2), seq![']', ']']) {
                assert(s@.take(2)[0] == '[' && s@.take(2)[1] == '[');
                let t = s@.skip(2);
                assert(t.skip(t.len() - 2)[0] == ']' && t.skip(t.len() - 2)[1] == ']');
                assert(s@[s@.len() - 2] == t[t.len() - 2]);
            }
        }
        s.clone()
    }
}

pub fn note_path_chars(raw: &Vec<char>) -> (r: Vec<char>)
    ensures
        r@ == note_rel_path(raw@),
{
    let t = trim_whitespace(raw);
    let unlinked = strip_wikilink_exec(&t);
    let target = before_char_exec(&unlinked, '|');
    let target = trim_whitespace(&target);
    let unified = replace_char_exec(&target, '\\', '/');
    let split_parts = split_set(&unified, CharSet::Only('/'));
    let mut parts = clean_parts_exec(&split_parts);
    if parts.len() == 0 {
        return Vec::new();
    }
    let last_idx = parts.len() - 1;
    let md = md_chars();
    let ghost before = views(parts@);
    if !ends_with_exec(&parts[last_idx], &md) {
        let mut last = parts[last_idx].clone();
        push_all(&mut last, &md);
        parts.set(last_idx, last);
    }
    proof {
        assert(views(parts@) =~= before.update(before.len() - 1, with_md(before.last())));
    }
    join_with(&parts, &slash())
}

/// Normalises a note reference (`name`, `dir/name.md`, `[[name|alias]]`) to
/// its relative path.
pub fn normalize_note_path(raw: &str) -> (r: String)
    ensures
        r@ == note_rel_path(raw@),
{
    string_of(&note_path_chars(&chars_of(raw)))
}

/// Same as `normalize_note_path`.
pub fn resolve_note_path(raw: &str) -> (r: String)
    ensures
        r@ == note_rel_path(raw@),
{
    normalize_note_path(raw)
}

/// `path.replace('\\', "/")`: the path as a `/`-separated key.
pub open spec fn key_of(path: Seq<char>) -> Seq<char> {
    replace_char(path, '\\', '/')
}

pub fn path_key(path: &str) -> (r: String)
    ensures
        r@ == key_of(path@),
{
    string_of(&replace_char_exec(&chars_of(path), '\\', '/'))
}

/// A path given as a path value: empty stays empty, anything else is
/// normalised through its key.
pub open spec fn note_path_of_path(path: Seq<char>) -> Seq<char> {
    if path.len() == 0 {
        Seq::<char>::empty()
    } else {
        note_rel_path(key_of(path))
    }
}

pub fn resolve_note_path_ref(path: &str) -> (r: String)
    ensures
        r@ == note_path_of_path(path@),
{
    if path.is_empty() {
        return String::new();
    }
    let key = replace_char_exec(&chars_of(path), '\\', '/');
    string_of(&note_path_chars(&key))
}


// ---------------------------------------------------------------------------
// Joining and inspecting paths
// ---------------------------------------------------------------------------

/// `Path::join` on `/`-separated paths: an absolute `rel` replaces `base`;
/// otherwise a separator is put between them unless `base` is empty or
/// already ends in one.
pub open spec fn path_join(base: Seq<char>, rel: Seq<char>) -> Seq<char> {
    if rel.len() > 0 && rel[0] == '/' {
        rel
    } else if base.len() == 0 || base.last() == '/' {
        base + rel
    } else {
        base + seq!['/'] + rel
    }
}

pub fn path_join_chars(base: &Vec<char>, rel: &Vec<char>) -> (r: Vec<char>)
    ensures
        r@ == path_join(base@, rel@),
{
    if rel.len() > 0 && rel[0] == '/' {
        rel.clone()
    } else if base.len() == 0 || base[base.len() - 1] == '/' {
        concat(base, rel)
    } else {
        let mut r = base.clone();
        r.push('/');
        push_all(&mut r, rel);
        r
    }
}

/// `root.join(rel)`.
pub fn abs_note_path(notes_root: &str, rel: &str) -> (r: String)
    ensures
        r@ == path_join(notes_root@, rel@),
{
    string_of(&path_join_chars(&chars_of(notes_root), &chars_of(rel)))
}

/// The relative path of note `name` inside directory `dir`.
pub open spec fn note_path_in(dir: Option<Seq<char>>, name: Seq<char>) -> Seq<char> {
    let name_path = note_rel_path(name);
    if name_path.len() == 0 {
        Seq::<char>::empty()
    } else {
        match dir {
            Some(d) if dir_path(d).len() > 0 => path_join(dir_path(d), name_path),
            _ => name_path,
        }
    }
}

pub open spec fn opt_view(o: Option<&str>) -> Option<Seq<char>> {
    match o {
        Some(s) => Some(s@),
        None => None,
    }
}

pub fn note_path_with_dir(dir: Option<&str>, name: &str) -> (r: String)
    ensures
        r@ == note_path_in(opt_view(dir), name@),
{
    let name_path = note_path_chars(&chars_of(name));
    if name_path.len() == 0 {
        return String::new();
    }
    match dir {
        Some(d) => {
            let dir_norm = normalize_dir_chars(&chars_of(d));
            if dir_norm.len() == 0 {
                string_of(&name_path)
            } else {
                string_of(&path_join_chars(&dir_norm, &name_path))
            }
        },
        None => string_of(&name_path),
    }
}

/// Whether the note at `rel` lies in (or is) the directory `dir_filter`; an
/// empty filter takes every note.
pub open spec fn in_dir(rel: Seq<char>, dir_filter: Seq<char>) -> bool {
    let prefix = dir_path(dir_filter);
    let key = key_of(rel);
    prefix.len() == 0 || key == prefix || starts_with(key, prefix.push('/'))
}

pub fn path_in_dir(rel: &str, dir_filter: &str) -> (b: bool)
    ensures
        b == in_dir(rel@, dir_filter@),
{
    let prefix = normalize_dir_chars(&chars_of(dir_filter));
    if prefix.len() == 0 {
        return true;
    }
    let key = replace_char_exec(&chars_of(rel), '\\', '/');
    if eq_chars(&key, &prefix) {
        return true;
    }
    let mut with_sep = prefix.clone();
    with_sep.push('/');
    starts_with_exec(&key, &with_sep)
}

/// The components of a `/`-separated path that name something (empty and
/// `.` pieces dropped).
pub open spec fn named_components(parts: Seq<Seq<char>>) -> Seq<Seq<char>>
    decreases parts.len(),
{
    if parts.len() == 0 {
        parts
    } else {
        let prev = named_components(parts.drop_last());
        let c = parts.last();
        if c.len() > 0 && c != seq!['.'] {
            prev.push(c)
        } else {
            prev
        }
    }
}

/// `Path::file_name`: the last component, unless there is none or it is `..`.
pub open spec fn file_name(path: Seq<char>) -> Option<Seq<char>> {
    let comps = named_components(split(path, CharSet::Only('/')));
    if comps.len() == 0 || comps.last() == seq!['.', '.'] {
        None
    } else {
        Some(comps.last())
    }
}

/// Position of the last `'.'` in `s`, or -1.
pub open spec fn last_dot(s: Seq<char>) -> int
    decreases s.len(),
{
    if s.len() == 0 {
        -1
    } else if s.last() == '.' {
        s.len() - 1
    } else {
        last_dot(s.drop_last())
    }
}

/// `Path::file_stem` of a file name: the part before the last dot, unless the
/// only dot is the first character.
pub open spec fn stem(name: Seq<char>) -> Seq<char> {
    if last_dot(name) <= 0 {
        name
    } else {
        name.take(last_dot(name))
    }
}

/// The title a note gets from its path: the file stem, or empty.
pub open spec fn title_of_path(rel: Seq<char>) -> Seq<char> {
    match file_name(rel) {
        Some(n) => stem(n),
        None => Seq::<char>::empty(),
    }
}

pub proof fn lemma_last_dot(s: Seq<char>, k: int)
    requires
        -1 <= k < s.len(),
        k >= 0 ==> s[k] == '.',
        forall|j: int| k < j < s.len() ==> s[j] != '.',
    ensures
        last_dot(s) == k,
    decreases s.len(),
{
    if s.len() > 0 && k < s.len() - 1 {
        assert forall|j: int| k < j < s.drop_last().len() implies s.drop_last()[j] != '.' by {
            assert(s.drop_last()[j] == s[j]);
        }
        if k >= 0 {
            assert(s.drop_last()[k] == s[k]);
        }
        lemma_last_dot(s.drop_last(), k);
    }
}

fn named_components_exec(parts: &Vec<Vec<char>>) -> (r: Vec<Vec<char>>)
    ensures
        views(r@) == named_components(views(parts@)),
{
    let mut r: Vec<Vec<char>> = Vec::new();
    let mut i: usize = 0;
    while i < parts.len()
        invariant
            i <= parts.len(),
            views(r@) == named_components(views(parts@).take(i as int)),
        decreases parts.len() - i,
    {
        proof {
            let pv = views(parts@);
            assert(pv.take(i as int + 1).drop_last() =~= pv.take(i as int));
            assert(pv.take(i as int + 1).last() == parts@[i as int]@);
        }
        let c = &parts[i];
        let is_dot = c.len() == 1 && c[0] == '.';
        proof {
            if c@ == seq!['.'] {
                assert(c@[0] == '.');
            }
            if is_dot {
                assert(c@ =~= seq!['.']);
            }
        }
        if c.len() > 0 && !is_dot {
            let cc = c.clone();
            proof {
                assert(views(r@.push(cc)) =~= views(r@).push(cc@));
            }
            r.push(cc);
        }
        i = i + 1;
    }
    assert(views(parts@).take(parts@.len() as int) =~= views(parts@));
    r
}

/// `Path::file_name` of a `/`-separated path.
pub fn file_name_chars(path: &Vec<char>) -> (r: Option<Vec<char>>)
    ensures
        match r {
            Some(n) => file_name(path@) == Some(n@),
            None => file_name(path@) is None,
        },
{
    let comps = named_components_exec(&split_set(path, CharSet::Only('/')));
    if comps.len() == 0 {
        return None;
    }
    let name = &comps[comps.len() - 1];
    assert(views(comps@).last() == name@);
    if name.len() == 2 && name[0] == '.' && name[1] == '.' {
        assert(name@ =~= seq!['.', '.']);
        return None;
    }
    proof {
        if name@ == seq!['.', '.'] {
            assert(name@[0] == '.' && name@[1] == '.');
        }
    }
    Some(name.clone())
}

fn title_chars_of_path(rel: &Vec<char>) -> (r: Vec<char>)
    ensures
        r@ == title_of_path(rel@),
{
    let comps = named_components_exec(&split_set(rel, CharSet::Only('/')));
    if comps.len() == 0 {
        return Vec::new();
    }
    let name = &comps[comps.len() - 1];
    if name.len() == 2 && name[0] == '.' && name[1] == '.' {
        assert(name@ =~= seq!['.', '.']);
        return Vec::new();
    }
    proof {
        if name@ == seq!['.', '.'] {
            assert(name@[0] == '.' && name@[1] == '.');
        }
    }
    let mut k = name.len();
    while k > 0 && name[k - 1] != '.'
        invariant
            k <= name.len(),
            forall|j: int| k <= j < name.len() ==> name@[j] != '.',
        decreases k,
    {
        k = k - 1;
    }
    proof {
        lemma_last_dot(name@, k as int - 1);
    }
    if k <= 1 {
        name.clone()
    } else {
        slice_chars(name, 0, k - 1)
    }
}

/// The title a note gets from its path when the file has none.
pub fn title_from_path(rel: &str) -> (r: String)
    ensures
        r@ == title_of_path(rel@),
{
    string_of(&title_chars_of_path(&chars_of(rel)))
}

impl NoteMeta {
    /// The note's absolute path under `notes_root`.
    pub fn abs_path(&self, notes_root: &str) -> (r: String)
        ensures
            r@ == path_join(notes_root@, self.path@),
    {
        abs_note_path(notes_root, self.path.as_str())
    }

    /// The note's path as a `/`-separated key.
    pub fn display_path(&self) -> (r: String)
        ensures
            r@ == key_of(self.path@),
    {
        path_key(self.path.as_str())
    }
}

// ---------------------------------------------------------------------------
// Tags
// ---------------------------------------------------------------------------

pub open spec fn tag_char(c: char) -> bool {
    is_alnum(c) || c == '-' || c == '_'
}

/// The tag characters of `s`, lower-cased.
pub open spec fn keep_tag_chars(s: Seq<char>) -> Seq<char>
    decreases s.len(),
{
    if s.len() == 0 {
        s
    } else if tag_char(s.last()) {
        keep_tag_chars(s.drop_last()).push(lower(s.last()))
    } else {
        keep_tag_chars(s.drop_last())
    }
}

/// One tag in normal form: its ASCII letters, digits, `-` and `_`,
/// lower-cased.
pub open spec fn tag_of(raw: Seq<char>) -> Seq<char> {
    keep_tag_chars(trim_ws(raw))
}

/// The normal forms of `tags`, empty ones dropped, each kept at its first
/// occurrence only.
pub open spec fn normal_tags(tags: Seq<Seq<char>>) -> Seq<Seq<char>>
    decreases tags.len(),
{
    if tags.len() == 0 {
        tags
    } else {
        let prev = normal_tags(tags.drop_last());
        let t = tag_of(tags.last());
        if t.len() > 0 && !prev.contains(t) {
            prev.push(t)
        } else {
            prev
        }
    }
}

/// The tags of a comma- and/or whitespace-separated list.
pub open spec fn tags_of_input(raw: Seq<char>) -> Seq<Seq<char>> {
    normal_tags(trimmed_nonempty(split(raw, CharSet::CommaOrWhitespace)))
}

/// The views of a vector of strings.
pub open spec fn strs(v: Seq<String>) -> Seq<Seq<char>> {
    v.map_values(|s: String| s@)
}

pub open spec fn is_tag(t: Seq<char>) -> bool {
    t.len() > 0 && forall|i: int| 0 <= i < t.len() ==> tag_char(#[trigger] t[i]) && !(
    'A' <= t[i] && t[i] <= 'Z')
}

pub proof fn lemma_keep_tag_chars(s: Seq<char>)
    ensures
        forall|i: int|
            0 <= i < keep_tag_chars(s).len() ==> tag_char(#[trigger] keep_tag_chars(s)[i]) && !(
            'A' <= keep_tag_chars(s)[i] && keep_tag_chars(s)[i] <= 'Z'),
        (forall|i: int| 0 <= i < s.len() ==> tag_char(#[trigger] s[i]) && !('A' <= s[i] && s[i] <= 'Z'))
            ==> keep_tag_chars(s) == s,
    decreases s.len(),
{
    if s.len() > 0 {
        lemma_keep_tag_chars(s.drop_last());
        let c = s.last();
        if tag_char(c) {
            let k = keep_tag_chars(s.drop_last());
            assert(keep_tag_chars(s) == k.push(lower(c)));
            if 'A' <= c && c <= 'Z' {
                assert(lower(c) as u32 == c as u32 + 32);
                assert('a' <= lower(c) && lower(c) <= 'z');
            }
            assert forall|i: int| 0 <= i < keep_tag_chars(s).len() implies tag_char(
                #[trigger] keep_tag_chars(s)[i],
            ) && !('A' <= keep_tag_chars(s)[i] && keep_tag_chars(s)[i] <= 'Z') by {
                if i < k.len() {
                    assert(keep_tag_chars(s)[i] == k[i]);
                }
            }
        }
        if forall|i: int| 0 <= i < s.len() ==> tag_char(#[trigger] s[i]) && !('A' <= s[i] && s[i]
            <= 'Z') {
            assert forall|i: int| 0 <= i < s.drop_last().len() implies tag_char(
                #[trigger] s.drop_last()[i],
            ) && !('A' <= s.drop_last()[i] && s.drop_last()[i] <= 'Z') by {
                assert(s.drop_last()[i] == s[i]);
            }
            assert(tag_char(s[s.len() - 1]));
            assert(s.drop_last().push(s.last()) =~= s);
        }
    }
}

/// A tag in normal form is its own normal form.
pub proof fn lemma_tag_of_tag(t: Seq<char>)
    requires
        is_tag(t),
    ensures
        tag_of(t) == t,
{
    assert(!crate::text::set_has(CharSet::Whitespace, t[0]));
    assert(!crate::text::set_has(CharSet::Whitespace, t.last()));
    assert(t.skip(0) =~= t);
    assert(t.take(t.len() as int) =~= t);
    assert(trim_ws(t) == t);
    lemma_keep_tag_chars(t);
}

/// What `normal_tags` returns is a list of distinct tags in normal form.
pub proof fn lemma_normal_tags_canonical(tags: Seq<Seq<char>>)
    ensures
        normal_tags(tags).no_duplicates(),
        forall|i: int| 0 <= i < normal_tags(tags).len() ==> is_tag(#[trigger] normal_tags(tags)[i]),
    decreases tags.len(),
{
    if tags.len() > 0 {
        lemma_normal_tags_canonical(tags.drop_last());
        let prev = normal_tags(tags.drop_last());
        let t = tag_of(tags.last());
        lemma_keep_tag_chars(trim_ws(tags.last()));
        if t.len() > 0 && !prev.contains(t) {
            assert forall|i: int, j: int|
                0 <= i < prev.push(t).len() && 0 <= j < prev.push(t).len() && i != j implies
                prev.push(t)[i] != prev.push(t)[j] by {
                if i == prev.len() {
                    assert(prev.contains(prev[j]));
                } else if j == prev.len() {
                    assert(prev.contains(prev[i]));
                }
            }
        }
    }
}

/// A list of distinct tags in normal form is its own normal form.
pub proof fn lemma_normal_tags_fixed(tags: Seq<Seq<char>>)
    requires
        tags.no_duplicates(),
        forall|i: int| 0 <= i < tags.len() ==> is_tag(#[trigger] tags[i]),
    ensures
        normal_tags(tags) == tags,
    decreases tags.len(),
{
    if tags.len() > 0 {
        let d = tags.drop_last();
        assert forall|i: int| 0 <= i < d.len() implies is_tag(#[trigger] d[i]) by {
            assert(d[i] == tags[i]);
        }
        lemma_normal_tags_fixed(d);
        lemma_tag_of_tag(tags.last());
        assert(is_tag(tags[tags.len() - 1]));
        if d.contains(tags.last()) {
            let j = choose|j: int| 0 <= j < d.len() && d[j] == tags.last();
            assert(tags[j] == tags[tags.len() - 1]);
        }
        assert(d.push(tags.last()) =~= tags);
    }
}

/// Normalising twice gives what normalising once gives.
pub proof fn lemma_normal_tags_idempotent(tags: Seq<Seq<char>>)
    ensures
        normal_tags(normal_tags(tags)) == normal_tags(tags),
{
    lemma_normal_tags_canonical(tags);
    lemma_normal_tags_fixed(normal_tags(tags));
}

pub fn normalize_tag_chars(raw: &Vec<char>) -> (r: Vec<char>)
    ensures
        r@ == tag_of(raw@),
{
    let t = trim_whitespace(raw);
    let mut out: Vec<char> = Vec::new();
    let mut i: usize = 0;
    while i < t.len()
        invariant
            i <= t.len(),
            out@ == keep_tag_chars(t@.take(i as int)),
        decreases t.len() - i,
    {
        proof {
            assert(t@.take(i as int + 1).drop_last() =~= t@.take(i as int));
        }
        let c = t[i];
        if is_ascii_alphanumeric(c) || c == '-' || c == '_' {
            out.push(to_ascii_lowercase(c));
        }
        i = i + 1;
    }
    assert(t@.take(t@.len() as int) =~= t@);
    out
}

/// One tag in normal form.
pub fn normalize_tag(raw: &str) -> (r: String)
    ensures
        r@ == tag_of(raw@),
{
    string_of(&normalize_tag_chars(&chars_of(raw)))
}

pub fn contains_chars(v: &Vec<Vec<char>>, t: &Vec<char>) -> (b: bool)
    ensures
        b == views(v@).contains(t@),
{
    let mut i: usize = 0;
    while i < v.len()
        invariant
            i <= v.len(),
            forall|j: int| 0 <= j < i ==> v@[j]@ != t@,
        decreases v.len() - i,
    {
        if eq_chars(&v[i], t) {
            assert(views(v@)[i as int] == t@);
            return true;
        }
        i = i + 1;
    }
    proof {
        if views(v@).contains(t@) {
            let j = choose|j: int| 0 <= j < views(v@).len() && views(v@)[j] == t@;
            assert(v@[j]@ == t@);
        }
    }
    false
}

pub fn normalize_tags_chars(tags: &Vec<Vec<char>>) -> (r: Vec<Vec<char>>)
    ensures
        views(r@) == normal_tags(views(tags@)),
{
    let mut out: Vec<Vec<char>> = Vec::new();
    let mut i: usize = 0;
    while i < tags.len()
        invariant
            i <= tags.len(),
            views(out@) == normal_tags(views(tags@).take(i as int)),
        decreases tags.len() - i,
    {
        proof {
            let pv = views(tags@);
            assert(pv.take(i as int + 1).drop_last() =~= pv.take(i as int));
            assert(pv.take(i as int + 1).last() == tags@[i as int]@);
        }
        let t = normalize_tag_chars(&tags[i]);
        if t.len() > 0 && !contains_chars(&out, &t) {
            proof {
                assert(views(out@.push(t)) =~= views(out@).push(t@));
            }
            out.push(t);
        }
        i = i + 1;
    }
    assert(views(tags@).take(tags@.len() as int) =~= views(tags@));
    out
}

pub fn strings_of(v: &Vec<Vec<char>>) -> (r: Vec<String>)
    ensures
        strs(r@) == views(v@),
{
    let mut r: Vec<String> = Vec::new();
    let mut i: usize = 0;
    while i < v.len()
        invariant
            i <= v.len(),
            strs(r@) == views(v@).take(i as int),
        decreases v.len() - i,
    {
        let s = string_of(&v[i]);
        proof {
            assert(strs(r@.push(s)) =~= strs(r@).push(s@));
            assert(views(v@).take(i as int + 1) =~= views(v@).take(i as int).push(v@[i as int]@));
            assert(strs(r@.push(s)) =~= views(v@).take(i as int + 1));
        }
        r.push(s);
        i = i + 1;
    }
    assert(views(v@).take(v@.len() as int) =~= views(v@));
    r
}

pub fn chars_of_strings(v: &Vec<String>) -> (r: Vec<Vec<char>>)
    ensures
        views(r@) == strs(v@),
{
    let mut r: Vec<Vec<char>> = Vec::new();
    let mut i: usize = 0;
    while i < v.len()
        invariant
            i <= v.len(),
            views(r@) == strs(v@).take(i as int),
        decreases v.len() - i,
    {
        let c = chars_of(v[i].as_str());
        proof {
            assert(views(r@.push(c)) =~= views(r@).push(c@));
            assert(strs(v@).take(i as int + 1) =~= strs(v@).take(i as int).push(v@[i as int]@));
            assert(views(r@.push(c)) =~= strs(v@).take(i as int + 1));
        }
        r.push(c);
        i = i + 1;
    }
    assert(strs(v@).take(v@.len() as int) =~= strs(v@));
    r
}

/// Normalises each tag, drops empty ones and repeats.
pub fn normalize_tags(tags: &Vec<String>) -> (r: Vec<String>)
    ensures
        strs(r@) == normal_tags(strs(tags@)),
        strs(r@).no_duplicates(),
        forall|i: int| 0 <= i < r@.len() ==> is_tag(#[trigger] strs(r@)[i]),
{
    proof {
        lemma_normal_tags_canonical(strs(tags@));
    }
    strings_of(&normalize_tags_chars(&chars_of_strings(tags)))
}

/// Parses a comma- and/or whitespace-separated tag list.
pub fn parse_tags_input(raw: &str) -> (r: Vec<String>)
    ensures
        strs(r@) == tags_of_input(raw@),
        strs(r@).no_duplicates(),
        forall|i: int| 0 <= i < r@.len() ==> is_tag(#[trigger] strs(r@)[i]),
{
    proof {
        lemma_normal_tags_canonical(trimmed_nonempty(split(raw@, CharSet::CommaOrWhitespace)));
    }
    let parts = split_set(&chars_of(raw), CharSet::CommaOrWhitespace);
    let tokens = trimmed_nonempty_exec(&parts);
    strings_of(&normalize_tags_chars(&tokens))
}

/// Tags as stored in the index: joined by `,`.
pub fn encode_tags(tags: &Vec<String>) -> (r: String)
    ensures
        r@ == join(strs(tags@), seq![',']),
{
    let mut comma: Vec<char> = Vec::new();
    comma.push(',');
    assert(comma@ =~= seq![',']);
    string_of(&join_with(&chars_of_strings(tags), &comma))
}

/// Tags as read back from the index: the non-empty trimmed pieces between
/// commas.
pub fn decode_tags(raw: &str) -> (r: Vec<String>)
    ensures
        strs(r@) == trimmed_nonempty(split(raw@, CharSet::Only(','))),
{
    let parts = split_set(&chars_of(raw), CharSet::Only(','));
    strings_of(&trimmed_nonempty_exec(&parts))
}

} // verus!
