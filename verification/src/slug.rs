//! Slugs: the lower-case, dash-separated note keys of the id-based index.
use vstd::prelude::*;
use crate::index::{contains_chars, normalize_tag, path_join, path_join_chars, tag_of};
use crate::vault::{lower_of, to_lowercase};
use crate::text::{
    before_char, before_char_exec, chars_of, ends_with, ends_with_exec, is_alnum, is_ascii_alphanumeric,
    is_whitespace, is_ws, join, join_with, lower, push_all, replace_char, replace_char_exec,
    slice_chars, split, split_set, string_of, to_ascii_lowercase, trim, trim_set, contains_seq, contains_exec,
    trim_whitespace, trim_ws, views, CharSet, lead, trail, lemma_lead_bound, lemma_trail_bound,
    lemma_trim_noop, is_digit,
};

verus! {

broadcast use vstd::string::group_string_axioms;

/// A note of the id-based index.
#[derive(Debug, Clone)]
pub struct NoteMeta {
    pub id: u64,
    pub slug: String,
    pub title: String,
}

/// What a character becomes in a slug: ASCII letters and digits lower-cased,
/// `-` and `_` kept, whitespace turned into `-`, anything else dropped.
pub open spec fn slug_char(c: char) -> Option<char> {
    if is_alnum(c) {
        Some(lower(c))
    } else if c == '-' || c == '_' {
        Some(c)
    } else if is_ws(c) {
        Some('-')
    } else {
        None
    }
}

/// The mapped characters of `s`, with runs of `-` collapsed to one.
pub open spec fn collapse(s: Seq<char>) -> Seq<char>
    decreases s.len(),
{
    if s.len() == 0 {
        s
    } else {
        let prev = collapse(s.drop_last());
        match slug_char(s.last()) {
            None => prev,
            Some(c) => if c == '-' && prev.len() > 0 && prev.last() == '-' {
                prev
            } else {
                prev.push(c)
            },
        }
    }
}

/// The slug of one name: collapsed, without leading or trailing dashes.
pub open spec fn slug_of(input: Seq<char>) -> Seq<char> {
    trim(collapse(trim_ws(input)), CharSet::Only('-'))
}

fn map_slug_char(c: char) -> (r: Option<char>)
    ensures
        r == slug_char(c),
{
    if is_ascii_alphanumeric(c) {
        Some(to_ascii_lowercase(c))
    } else if c == '-' || c == '_' {
        Some(c)
    } else if is_whitespace(c) {
        Some('-')
    } else {
        None
    }
}

fn slug_chars(input: &Vec<char>) -> (r: Vec<char>)
    ensures
        r@ == slug_of(input@),
{
    let t = trim_whitespace(input);
    let mut slug: Vec<char> = Vec::new();
    let mut prev_dash = false;
    let mut i: usize = 0;
    while i < t.len()
        invariant
            i <= t.len(),
            slug@ == collapse(t@.take(i as int)),
            prev_dash == (slug@.len() > 0 && slug@.last() == '-'),
        decreases t.len() - i,
    {
        proof {
            assert(t@.take(i as int + 1).drop_last() =~= t@.take(i as int));
        }
        match map_slug_char(t[i]) {
            Some(ch) => {
                if ch == '-' {
                    if !prev_dash {
                        slug.push('-');
                        prev_dash = true;
                    }
                } else {
                    slug.push(ch);
                    prev_dash = false;
                }
            },
            None => {},
        }
        i = i + 1;
    }
    assert(t@.take(t@.len() as int) =~= t@);
    trim_set(&slug, CharSet::Only('-'))
}

/// The slug of one name.
pub fn slugify(input: &str) -> (r: String)
    ensures
        r@ == slug_of(input@),
{
    string_of(&slug_chars(&chars_of(input)))
}

/// The non-empty slugs of the non-empty trimmed parts.
pub open spec fn slug_parts(parts: Seq<Seq<char>>) -> Seq<Seq<char>>
    decreases parts.len(),
{
    if parts.len() == 0 {
        parts
    } else {
        let prev = slug_parts(parts.drop_last());
        let t = trim_ws(parts.last());
        if t.len() > 0 && slug_of(t).len() > 0 {
            prev.push(slug_of(t))
        } else {
            prev
        }
    }
}

pub open spec fn md_suffix() -> Seq<char> {
    seq!['.', 'm', 'd']
}

/// `s` without a final `.md`.
pub open spec fn without_md(s: Seq<char>) -> Seq<char> {
    if ends_with(s, md_suffix()) {
        s.take(s.len() - 3)
    } else {
        s
    }
}

/// The key of a note name or path: each `/`-separated part slugified, empty
/// ones dropped, a trailing `.md` ignored.
pub open spec fn note_key(raw: Seq<char>) -> Seq<char> {
    join(
        slug_parts(split(without_md(replace_char(trim_ws(raw), '\\', '/')), CharSet::Only('/'))),
        seq!['/'],
    )
}

fn md_suffix_chars() -> (r: Vec<char>)
    ensures
        r@ == md_suffix(),
{
    let mut r: Vec<char> = Vec::new();
    r.push('.');
    r.push('m');
    r.push('d');
    assert(r@ =~= md_suffix());
    r
}

fn note_key_chars(raw: &Vec<char>) -> (r: Vec<char>)
    ensures
        r@ == note_key(raw@),
{
    let t = trim_whitespace(raw);
    let unified = replace_char_exec(&t, '\\', '/');
    let no_ext = if ends_with_exec(&unified, &md_suffix_chars()) {
        slice_chars(&unified, 0, unified.len() - 3)
    } else {
        unified.clone()
    };
    assert(no_ext@ == without_md(unified@));
    let parts = split_set(&no_ext, CharSet::Only('/'));
    let mut out: Vec<Vec<char>> = Vec::new();
    let mut i: usize = 0;
    while i < parts.len()
        invariant
            i <= parts.len(),
            views(out@) == slug_parts(views(parts@).take(i as int)),
        decreases parts.len() - i,
    {
        proof {
            let pv = views(parts@);
            assert(pv.take(i as int + 1).drop_last() =~= pv.take(i as int));
            assert(pv.take(i as int + 1).last() == parts@[i as int]@);
        }
        let p = trim_whitespace(&parts[i]);
        if p.len() > 0 {
            let s = slug_chars(&p);
            if s.len() > 0 {
                proof {
                    assert(views(out@.push(s)) =~= views(out@).push(s@));
                }
                out.push(s);
            }
        }
        i = i + 1;
    }
    assert(views(parts@).take(parts@.len() as int) =~= views(parts@));
    let mut sep: Vec<char> = Vec::new();
    sep.push('/');
    assert(sep@ =~= seq!['/']);
    join_with(&out, &sep)
}

/// The key of a note name or path.
pub fn normalize_note_key(raw: &str) -> (r: String)
    ensures
        r@ == note_key(raw@),
{
    string_of(&note_key_chars(&chars_of(raw)))
}

/// The slug a reference names: an alias after `|` is ignored.
pub open spec fn slug_ref(raw: Seq<char>) -> Seq<char> {
    let t = trim_ws(raw);
    if t.len() == 0 {
        t
    } else {
        note_key(before_char(t, '|'))
    }
}

/// The slug of a note reference such as `[[Some Note|Alias]]`.
pub fn normalize_slug(raw: &str) -> (r: String)
    ensures
        r@ == slug_ref(raw@),
{
    let t = trim_whitespace(&chars_of(raw));
    if t.len() == 0 {
        return String::new();
    }
    let target = before_char_exec(&t, '|');
    string_of(&note_key_chars(&target))
}

/// The slug of note `name` inside directory `dir`.
pub open spec fn slug_in(dir: Option<Seq<char>>, name: Seq<char>) -> Seq<char> {
    let name_slug = note_key(name);
    if name_slug.len() == 0 {
        name_slug
    } else {
        let dir_slug = match dir {
            Some(d) => note_key(d),
            None => Seq::<char>::empty(),
        };
        if dir_slug.len() == 0 {
            name_slug
        } else {
            dir_slug.push('/') + name_slug
        }
    }
}

pub fn note_slug_with_dir(dir: Option<&str>, name: &str) -> (r: String)
    ensures
        r@ == slug_in(crate::index::opt_view(dir), name@),
{
    let name_slug = note_key_chars(&chars_of(name));
    if name_slug.len() == 0 {
        return string_of(&name_slug);
    }
    let dir_slug = match dir {
        Some(d) => note_key_chars(&chars_of(d)),
        None => Vec::new(),
    };
    if dir_slug.len() == 0 {
        string_of(&name_slug)
    } else {
        let mut r = dir_slug.clone();
        r.push('/');
        push_all(&mut r, &name_slug);
        string_of(&r)
    }
}

/// The file of the note with slug `slug`: `<notes_root>/<slug>.md`.
pub fn note_path(notes_root: &str, slug: &str) -> (r: String)
    ensures
        r@ == path_join(notes_root@, slug@ + md_suffix()),
{
    let mut file = chars_of(slug);
    push_all(&mut file, &md_suffix_chars());
    string_of(&path_join_chars(&chars_of(notes_root), &file))
}

// ---------------------------------------------------------------------------
// The rules of the id-based index
// ---------------------------------------------------------------------------

/// A note to add to the id-based index, named `name`: its title (the name
/// trimmed) and slug, or why it cannot be added.
pub open spec fn slug_plan(name: Seq<char>, empty_msg: Seq<char>, slug_msg: Seq<char>) -> Result<(Seq<char>, Seq<char>), Seq<char>> {
    let title = trim_ws(name);
    if title.len() == 0 {
        Err(empty_msg)
    } else if note_key(title).len() == 0 {
        Err(slug_msg)
    } else {
        Ok((title, note_key(title)))
    }
}

pub open spec fn plan_view(r: Result<(String, String), &'static str>) -> Result<(Seq<char>, Seq<char>), Seq<char>> {
    match r {
        Ok((t, s)) => Ok((t@, s@)),
        Err(m) => Err(m@),
    }
}

fn titled_slug(name: &str, empty_msg: &'static str, slug_msg: &'static str) -> (r: Result<(String, String), &'static str>)
    ensures
        plan_view(r) == slug_plan(name@, empty_msg@, slug_msg@),
{
    let title = string_of(&trim_whitespace(&chars_of(name)));
    if title.as_str().unicode_len() == 0 {
        return Err(empty_msg);
    }
    let slug = normalize_note_key(title.as_str());
    if slug.as_str().unicode_len() == 0 {
        return Err(slug_msg);
    }
    Ok((title, slug))
}

/// Creating a note in the id-based index: its title and slug.
pub fn create_note_plan(name: &str) -> (r: Result<(String, String), &'static str>)
    ensures
        plan_view(r) == slug_plan(name@, "note name cannot be empty"@, "failed to build note slug from name"@),
{
    titled_slug(name, "note name cannot be empty", "failed to build note slug from name")
}

/// Renaming a note of the id-based index: its new title and slug.
pub fn rename_note_plan(new_name: &str) -> (r: Result<(String, String), &'static str>)
    ensures
        plan_view(r) == slug_plan(
            new_name@,
            "new note name cannot be empty"@,
            "failed to build note slug from new name"@,
        ),
{
    titled_slug(new_name, "new note name cannot be empty", "failed to build note slug from new name")
}

/// Whether note `n` is found by the (trimmed, lower-cased) query `q`: its
/// slug or its title, lower-cased, holds it.
pub open spec fn slug_note_found(n: NoteMeta, q: Seq<char>) -> bool {
    contains_seq(lower_of(n.slug@), q) || contains_seq(lower_of(n.title@), q)
}

/// The places of the notes a search finds, in order; none for a blank
/// query.
pub open spec fn found_places(notes: Seq<NoteMeta>, q: Seq<char>, k: int) -> Seq<usize>
    decreases k,
{
    if k <= 0 || q.len() == 0 {
        Seq::empty()
    } else if slug_note_found(notes[k - 1], q) {
        found_places(notes, q, k - 1).push((k - 1) as usize)
    } else {
        found_places(notes, q, k - 1)
    }
}

/// `find` on the id-based index: the notes whose slug or title holds the
/// query, both lower-cased.
pub fn find_slug_notes(notes: &Vec<NoteMeta>, query: &str) -> (r: Vec<usize>)
    ensures
        r@ == found_places(notes@, lower_of(trim_ws(query@)), notes@.len() as int),
{
    let q = chars_of(to_lowercase(string_of(&trim_whitespace(&chars_of(query))).as_str()).as_str());
    let mut out: Vec<usize> = Vec::new();
    if q.len() == 0 {
        return out;
    }
    let mut k: usize = 0;
    while k < notes.len()
        invariant
            k <= notes@.len(),
            q@.len() > 0,
            out@ == found_places(notes@, q@, k as int),
        decreases notes.len() - k,
    {
        let slug = chars_of(to_lowercase(notes[k].slug.as_str()).as_str());
        let title = chars_of(to_lowercase(notes[k].title.as_str()).as_str());
        if contains_exec(&slug, &q) || contains_exec(&title, &q) {
            out.push(k);
        }
        k = k + 1;
    }
    out
}

/// The places of the notes whose tags hold `wanted`.
pub open spec fn tagged_places(tags: Seq<Seq<Seq<char>>>, wanted: Seq<char>, k: int) -> Seq<usize>
    decreases k,
{
    if k <= 0 || wanted.len() == 0 {
        Seq::empty()
    } else if tags[k - 1].contains(wanted) {
        tagged_places(tags, wanted, k - 1).push((k - 1) as usize)
    } else {
        tagged_places(tags, wanted, k - 1)
    }
}

pub open spec fn tag_lists(tags: Seq<Vec<Vec<char>>>) -> Seq<Seq<Seq<char>>> {
    tags.map_values(|t: Vec<Vec<char>>| views(t@))
}

/// `find_by_tag` on the id-based index: given each note's tags, the notes
/// that carry the tag (normalised); none for a tag that normalises to
/// nothing.
pub fn find_slug_notes_by_tag(tags: &Vec<Vec<Vec<char>>>, tag: &str) -> (r: Vec<usize>)
    ensures
        r@ == tagged_places(tag_lists(tags@), tag_of(tag@), tags@.len() as int),
{
    let wanted = chars_of(normalize_tag(tag).as_str());
    let mut out: Vec<usize> = Vec::new();
    if wanted.len() == 0 {
        return out;
    }
    let mut k: usize = 0;
    while k < tags.len()
        invariant
            k <= tags@.len(),
            wanted@.len() > 0,
            wanted@ == tag_of(tag@),
            out@ == tagged_places(tag_lists(tags@), wanted@, k as int),
        decreases tags.len() - k,
    {
        assert(tag_lists(tags@)[k as int] == views(tags@[k as int]@));
        if contains_chars(&tags[k], &wanted) {
            out.push(k);
        }
        k = k + 1;
    }
    out
}

// ---------------------------------------------------------------------------
// What a slug looks like
// ---------------------------------------------------------------------------

/// A character that may stand in a slug: a lower-case ASCII letter, a digit,
/// `-` or `_`.
pub open spec fn slug_allowed(c: char) -> bool {
    ('a' <= c && c <= 'z') || is_digit(c) || c == '-' || c == '_'
}

/// Only slug characters, and never two dashes in a row.
pub open spec fn slug_body(s: Seq<char>) -> bool {
    &&& forall|i: int| 0 <= i < s.len() ==> slug_allowed(#[trigger] s[i])
    &&& forall|i: int| 0 <= i < s.len() - 1 ==> !(#[trigger] s[i] == '-' && s[i + 1] == '-')
}

/// The shape of a slug: slug characters only, no doubled dash, and no dash
/// at either end.
pub open spec fn slug_shaped(s: Seq<char>) -> bool {
    &&& slug_body(s)
    &&& s.len() > 0 ==> s[0] != '-' && s.last() != '-'
}

proof fn lemma_slug_char_allowed(c: char)
    ensures
        slug_char(c) matches Some(d) ==> slug_allowed(d),
        slug_allowed(c) ==> slug_char(c) == Some(c),
{
    if 'A' <= c && c <= 'Z' {
        assert('a' <= lower(c) && lower(c) <= 'z');
    }
}

proof fn lemma_collapse_body(s: Seq<char>)
    ensures
        slug_body(collapse(s)),
    decreases s.len(),
{
    if s.len() > 0 {
        let prev = collapse(s.drop_last());
        lemma_collapse_body(s.drop_last());
        lemma_slug_char_allowed(s.last());
        match slug_char(s.last()) {
            None => {},
            Some(c) => {
                if !(c == '-' && prev.len() > 0 && prev.last() == '-') {
                    let r = prev.push(c);
                    assert forall|i: int| 0 <= i < r.len() implies slug_allowed(#[trigger] r[i]) by {
                        if i < prev.len() {
                            assert(r[i] == prev[i]);
                        }
                    }
                    assert forall|i: int| 0 <= i < r.len() - 1 implies !(#[trigger] r[i] == '-' && r[i
                        + 1] == '-') by {
                        assert(r[i] == prev[i]);
                        if i + 1 < prev.len() {
                            assert(r[i + 1] == prev[i + 1]);
                        }
                    }
                }
            },
        }
    }
}

proof fn lemma_collapse_fixed(s: Seq<char>)
    requires
        slug_body(s),
    ensures
        collapse(s) == s,
    decreases s.len(),
{
    if s.len() > 0 {
        let d = s.drop_last();
        assert forall|i: int| 0 <= i < d.len() implies slug_allowed(#[trigger] d[i]) by {
            assert(d[i] == s[i]);
        }
        assert forall|i: int| 0 <= i < d.len() - 1 implies !(#[trigger] d[i] == '-' && d[i + 1] == '-') by {
            assert(d[i] == s[i]);
            assert(d[i + 1] == s[i + 1]);
        }
        lemma_collapse_fixed(d);
        assert(slug_allowed(s[s.len() - 1]));
        lemma_slug_char_allowed(s.last());
        if s.last() == '-' && d.len() > 0 {
            assert(!(s[s.len() - 2] == '-' && s[s.len() - 1] == '-'));
        }
        assert(d.push(s.last()) =~= s);
    }
}

/// A slug, trimmed of dashes, keeps its body and loses the dashes at its ends.
proof fn lemma_trim_dash_shape(s: Seq<char>)
    requires
        slug_body(s),
    ensures
        slug_shaped(trim(s, CharSet::Only('-'))),
{
    let cs = CharSet::Only('-');
    lemma_lead_bound(s, cs);
    let u = s.skip(lead(s, cs) as int);
    lemma_trail_bound(u, cs);
    let r = u.take(u.len() - trail(u, cs));
    assert(trim(s, cs) == r);
    let a = lead(s, cs) as int;
    assert forall|i: int| 0 <= i < r.len() implies slug_allowed(#[trigger] r[i]) by {
        assert(r[i] == s[a + i]);
    }
    assert forall|i: int| 0 <= i < r.len() - 1 implies !(#[trigger] r[i] == '-' && r[i + 1] == '-') by {
        assert(r[i] == s[a + i]);
        assert(r[i + 1] == s[a + i + 1]);
    }
    if r.len() > 0 {
        assert(r[0] == s[a]);
        assert(r.last() == u[u.len() - trail(u, cs) - 1]);
    }
}

/// A slug has the shape of one: lower-case ASCII letters, digits, `-` and
/// `_` only, no `--`, and no dash at either end.
pub proof fn lemma_slug_shape(input: Seq<char>)
    ensures
        slug_shaped(slug_of(input)),
{
    lemma_collapse_body(trim_ws(input));
    lemma_trim_dash_shape(collapse(trim_ws(input)));
}

/// A string of the shape of a slug is its own slug.
pub proof fn lemma_slug_fixed(s: Seq<char>)
    requires
        slug_shaped(s),
    ensures
        slug_of(s) == s,
{
    if s.len() > 0 {
        assert(slug_allowed(s[0]));
        assert(slug_allowed(s[s.len() - 1]));
    }
    lemma_trim_noop(s, CharSet::Whitespace);
    lemma_collapse_fixed(s);
    lemma_trim_noop(s, CharSet::Only('-'));
}

/// Slugifying a slug gives it back: `slugify` is idempotent.
pub proof fn lemma_slugify_idempotent(input: Seq<char>)
    ensures
        slug_of(slug_of(input)) == slug_of(input),
{
    lemma_slug_shape(input);
    lemma_slug_fixed(slug_of(input));
}

} // verus!
