//! Decisions of the note index that do not depend on how it stores things:
//! which note a reference names, which tag keys move when a note or a
//! directory moves, which keys are orphans, and whether a directory may move.
use vstd::prelude::*;
use crate::text::{
    chars_of, concat, contains_exec, contains_seq, eq_chars, starts_with, starts_with_exec,
    slice_chars, string_of, trim_whitespace, trim_ws,
};
use crate::index::{
    dir_path, key_of, normalize_dir_chars, note_rel_path, normalize_note_path, path_key, NoteMeta,
    strs,
};

verus! {

broadcast use vstd::string::group_string_axioms;

/// What `str::to_lowercase` gives for a text (Unicode's lower-case
/// mappings).
pub uninterp spec fn lower_of(s: Seq<char>) -> Seq<char>;

/// `str::to_lowercase`; its result is named `lower_of`.
#[verifier::external_body]
pub(crate) fn to_lowercase(s: &str) -> (r: String)
    ensures
        r@ == lower_of(s@),
{
    s.to_lowercase()
}

/// A note as the specifications see it: its path and its title.
pub open spec fn note_view(n: NoteMeta) -> (Seq<char>, Seq<char>) {
    (n.path@, n.title@)
}

pub open spec fn notes_view(ns: Seq<NoteMeta>) -> Seq<(Seq<char>, Seq<char>)> {
    ns.map_values(|n: NoteMeta| note_view(n))
}

/// The notes whose lower-cased title is `q`.
pub open spec fn title_matches(ns: Seq<(Seq<char>, Seq<char>)>, q: Seq<char>) -> Seq<(Seq<char>, Seq<char>)>
    decreases ns.len(),
{
    if ns.len() == 0 {
        ns
    } else {
        let prev = title_matches(ns.drop_last(), q);
        if lower_of(ns.last().1) == q {
            prev.push(ns.last())
        } else {
            prev
        }
    }
}

/// The notes whose lower-cased title or path holds `q`.
pub open spec fn text_matches(ns: Seq<(Seq<char>, Seq<char>)>, q: Seq<char>) -> Seq<(Seq<char>, Seq<char>)>
    decreases ns.len(),
{
    if ns.len() == 0 {
        ns
    } else {
        let prev = text_matches(ns.drop_last(), q);
        let n = ns.last();
        if contains_seq(lower_of(n.1), q) || contains_seq(lower_of(key_of(n.0)), q) {
            prev.push(n)
        } else {
            prev
        }
    }
}

/// Why a reference to a note names no single note.
#[derive(Debug, Clone, PartialEq, Eq)]
pub enum ReferenceError {
    /// The reference is blank.
    Empty,
    /// Several notes have the referenced title.
    AmbiguousTitle(String),
    /// Several notes hold the reference in their title or path.
    Ambiguous(String),
    /// No note is near the reference.
    NotFound(String),
    /// Several notes are near the reference.
    AmbiguousFuzzy(String),
}

pub enum RefErrorView {
    Empty,
    AmbiguousTitle(Seq<char>),
    Ambiguous(Seq<char>),
    NotFound(Seq<char>),
    AmbiguousFuzzy(Seq<char>),
}

pub open spec fn ref_error_view(e: ReferenceError) -> RefErrorView {
    match e {
        ReferenceError::Empty => RefErrorView::Empty,
        ReferenceError::AmbiguousTitle(q) => RefErrorView::AmbiguousTitle(q@),
        ReferenceError::Ambiguous(q) => RefErrorView::Ambiguous(q@),
        ReferenceError::NotFound(q) => RefErrorView::NotFound(q@),
        ReferenceError::AmbiguousFuzzy(q) => RefErrorView::AmbiguousFuzzy(q@),
    }
}

pub open spec fn ref_message(e: RefErrorView) -> Seq<char> {
    match e {
        RefErrorView::Empty => "note reference is empty"@,
        RefErrorView::AmbiguousTitle(q) => "multiple notes matched title '"@ + q + "'; use note\npath"@,
        RefErrorView::Ambiguous(q) => "multiple notes matched '"@ + q + "'; refine query or\nuse path"@,
        RefErrorView::NotFound(q) => "note '"@ + q + "' not found"@,
        RefErrorView::AmbiguousFuzzy(q) => "multiple notes matched '"@ + q + "'; use note path"@,
    }
}

impl ReferenceError {
    pub fn message(&self) -> (r: String)
        ensures
            r@ == ref_message(ref_error_view(*self)),
    {
        match self {
            ReferenceError::Empty => String::from_str("note reference is empty"),
            ReferenceError::AmbiguousTitle(q) => {
                let mut s = String::from_str("multiple notes matched title '");
                s.append(q.as_str());
                s.append("'; use note\npath");
                s
            },
            ReferenceError::Ambiguous(q) => {
                let mut s = String::from_str("multiple notes matched '");
                s.append(q.as_str());
                s.append("'; refine query or\nuse path");
                s
            },
            ReferenceError::NotFound(q) => {
                let mut s = String::from_str("note '");
                s.append(q.as_str());
                s.append("' not found");
                s
            },
            ReferenceError::AmbiguousFuzzy(q) => {
                let mut s = String::from_str("multiple notes matched '");
                s.append(q.as_str());
                s.append("'; use note path");
                s
            },
        }
    }
}

/// The path a reference names directly, to be looked up in the index: none
/// when the reference is blank or makes no path.
pub open spec fn reference_path(raw: Seq<char>) -> Option<Seq<char>> {
    let q = trim_ws(raw);
    if q.len() == 0 || note_rel_path(q).len() == 0 {
        None
    } else {
        Some(note_rel_path(q))
    }
}

pub fn note_reference_path(raw: &str) -> (r: Option<String>)
    ensures
        match r {
            Some(p) => reference_path(raw@) == Some(p@),
            None => reference_path(raw@) is None,
        },
{
    let q = string_of(&trim_whitespace(&chars_of(raw)));
    if q.as_str().unicode_len() == 0 {
        return None;
    }
    let rel = normalize_note_path(q.as_str());
    if rel.as_str().unicode_len() == 0 {
        None
    } else {
        Some(rel)
    }
}

/// The note a reference names, given what the index answers: `direct` for
/// the path that `reference_path` gives, `notes` for all notes, `fuzzy` for
/// a fuzzy search by the trimmed reference. The note at the path comes
/// first; then a unique title match; then a unique note whose title or path
/// holds the reference; then a unique fuzzy match.
pub open spec fn referenced(
    raw: Seq<char>,
    direct: Option<(Seq<char>, Seq<char>)>,
    notes: Seq<(Seq<char>, Seq<char>)>,
    fuzzy: Seq<(Seq<char>, Seq<char>)>,
) -> Result<(Seq<char>, Seq<char>), RefErrorView> {
    let q = trim_ws(raw);
    if q.len() == 0 {
        Err(RefErrorView::Empty)
    } else if reference_path(raw) is Some && direct is Some {
        Ok(direct->Some_0)
    } else {
        let ql = lower_of(q);
        let te = title_matches(notes, ql);
        if te.len() == 1 {
            Ok(te[0])
        } else if te.len() > 1 {
            Err(RefErrorView::AmbiguousTitle(q))
        } else {
            let tm = text_matches(notes, ql);
            if tm.len() == 1 {
                Ok(tm[0])
            } else if tm.len() > 1 {
                Err(RefErrorView::Ambiguous(q))
            } else if fuzzy.len() == 1 {
                Ok(fuzzy[0])
            } else if fuzzy.len() == 0 {
                Err(RefErrorView::NotFound(q))
            } else {
                Err(RefErrorView::AmbiguousFuzzy(q))
            }
        }
    }
}

pub open spec fn opt_note_view(o: Option<NoteMeta>) -> Option<(Seq<char>, Seq<char>)> {
    match o {
        Some(n) => Some(note_view(n)),
        None => None,
    }
}

fn copy_note(n: &NoteMeta) -> (r: NoteMeta)
    ensures
        note_view(r) == note_view(*n),
{
    NoteMeta { path: n.path.clone(), title: n.title.clone() }
}

pub fn resolve_note_reference(
    raw: &str,
    direct: Option<NoteMeta>,
    notes: &Vec<NoteMeta>,
    fuzzy: &Vec<NoteMeta>,
) -> (r: Result<NoteMeta, ReferenceError>)
    ensures
        match (r, referenced(raw@, opt_note_view(direct), notes_view(notes@), notes_view(fuzzy@))) {
            (Ok(n), Ok(v)) => note_view(n) == v,
            (Err(e), Err(v)) => ref_error_view(e) == v,
            _ => false,
        },
{
    let qc = trim_whitespace(&chars_of(raw));
    let q = string_of(&qc);
    if qc.len() == 0 {
        return Err(ReferenceError::Empty);
    }
    let rel = note_reference_path(raw);
    if rel.is_some() {
        match direct {
            Some(n) => {
                return Ok(n);
            },
            None => {},
        }
    }
    let ql = to_lowercase(q.as_str());
    let qlc = chars_of(ql.as_str());
    let ghost nv = notes_view(notes@);
    let mut exact: Vec<NoteMeta> = Vec::new();
    let mut hits: Vec<NoteMeta> = Vec::new();
    let mut i: usize = 0;
    while i < notes.len()
        invariant
            i <= notes@.len(),
            nv == notes_view(notes@),
            qlc@ == lower_of(q@),
            notes_view(exact@) == title_matches(nv.take(i as int), lower_of(q@)),
            notes_view(hits@) == text_matches(nv.take(i as int), lower_of(q@)),
        decreases notes.len() - i,
    {
        let n = &notes[i];
        proof {
            assert(nv.take(i as int + 1).drop_last() =~= nv.take(i as int));
            assert(nv.take(i as int + 1).last() == note_view(*n));
        }
        let t = to_lowercase(n.title.as_str());
        if eq_chars(&chars_of(t.as_str()), &qlc) {
            let c = copy_note(n);
            proof {
                assert(notes_view(exact@.push(c)) =~= notes_view(exact@).push(note_view(c)));
            }
            exact.push(c);
        }
        let tl = chars_of(t.as_str());
        let pk = to_lowercase(path_key(n.path.as_str()).as_str());
        if contains_exec(&tl, &qlc) || contains_exec(&chars_of(pk.as_str()), &qlc) {
            let c = copy_note(n);
            proof {
                assert(notes_view(hits@.push(c)) =~= notes_view(hits@).push(note_view(c)));
            }
            hits.push(c);
        }
        i = i + 1;
    }
    assert(nv.take(notes@.len() as int) =~= nv);
    if exact.len() == 1 {
        return Ok(copy_note(&exact[0]));
    }
    if exact.len() > 1 {
        return Err(ReferenceError::AmbiguousTitle(q));
    }
    if hits.len() == 1 {
        return Ok(copy_note(&hits[0]));
    }
    if hits.len() > 1 {
        return Err(ReferenceError::Ambiguous(q));
    }
    if fuzzy.len() == 1 {
        return Ok(copy_note(&fuzzy[0]));
    }
    if fuzzy.len() == 0 {
        return Err(ReferenceError::NotFound(q));
    }
    Err(ReferenceError::AmbiguousFuzzy(q))
}

// ---------------------------------------------------------------------------
// Tag keys when notes and directories move
// ---------------------------------------------------------------------------

/// The key prefix of everything under a directory: its key and a `/`.
pub open spec fn dir_prefix_key(path: Seq<char>) -> Seq<char> {
    key_of(path).push('/')
}

pub fn prefix_key(path: &str) -> (r: String)
    ensures
        r@ == dir_prefix_key(path@),
{
    let mut k = chars_of(path_key(path).as_str());
    k.push('/');
    string_of(&k)
}

/// A key under `old_prefix`, moved under `new_prefix`; none for a key that
/// is not under it.
pub open spec fn rewritten_key(key: Seq<char>, old_prefix: Seq<char>, new_prefix: Seq<char>) -> Option<Seq<char>> {
    if starts_with(key, old_prefix) {
        Some(new_prefix + key.skip(old_prefix.len() as int))
    } else {
        None
    }
}

pub fn rewrite_key(key: &str, old_prefix: &str, new_prefix: &str) -> (r: Option<String>)
    ensures
        match r {
            Some(k) => rewritten_key(key@, old_prefix@, new_prefix@) == Some(k@),
            None => rewritten_key(key@, old_prefix@, new_prefix@) is None,
        },
{
    let k = chars_of(key);
    let o = chars_of(old_prefix);
    if !starts_with_exec(&k, &o) {
        return None;
    }
    let rest = slice_chars(&k, o.len(), k.len());
    assert(rest@ =~= k@.skip(o@.len() as int));
    Some(string_of(&concat(&chars_of(new_prefix), &rest)))
}

/// The keys of `keys` that `live` does not hold, in their order.
pub open spec fn orphans(keys: Seq<Seq<char>>, live: Seq<Seq<char>>) -> Seq<Seq<char>>
    decreases keys.len(),
{
    if keys.len() == 0 {
        keys
    } else {
        let prev = orphans(keys.drop_last(), live);
        if live.contains(keys.last()) {
            prev
        } else {
            prev.push(keys.last())
        }
    }
}

fn holds(v: &Vec<String>, k: &Vec<char>) -> (b: bool)
    ensures
        b == strs(v@).contains(k@),
{
    let mut i: usize = 0;
    while i < v.len()
        invariant
            i <= v@.len(),
            forall|j: int| 0 <= j < i ==> strs(v@)[j] != k@,
        decreases v.len() - i,
    {
        assert(strs(v@)[i as int] == v@[i as int]@);
        if eq_chars(&chars_of(v[i].as_str()), k) {
            return true;
        }
        i = i + 1;
    }
    false
}

/// The keys of the tag table that belong to no listed note.
pub fn orphan_keys(keys: &Vec<String>, live: &Vec<String>) -> (r: Vec<String>)
    ensures
        strs(r@) == orphans(strs(keys@), strs(live@)),
{
    let ghost kv = strs(keys@);
    let mut out: Vec<String> = Vec::new();
    let mut i: usize = 0;
    while i < keys.len()
        invariant
            i <= keys@.len(),
            kv == strs(keys@),
            strs(out@) == orphans(kv.take(i as int), strs(live@)),
        decreases keys.len() - i,
    {
        proof {
            assert(kv.take(i as int + 1).drop_last() =~= kv.take(i as int));
            assert(kv.take(i as int + 1).last() == keys@[i as int]@);
        }
        if !holds(live, &chars_of(keys[i].as_str())) {
            let k = keys[i].clone();
            proof {
                assert(strs(out@.push(k)) =~= strs(out@).push(k@));
            }
            out.push(k);
        }
        i = i + 1;
    }
    assert(kv.take(keys@.len() as int) =~= kv);
    out
}

// ---------------------------------------------------------------------------
// Moving and deleting directories
// ---------------------------------------------------------------------------

/// Why a directory may not move or go.
#[derive(Debug, Clone, PartialEq, Eq)]
pub enum DirError {
    /// A directory path is empty after normalisation.
    EmptyPath,
    /// The target lies inside the directory itself.
    IntoOwnChild,
    /// The notes root cannot be deleted.
    RootDir,
    /// The directory still holds notes.
    NotEmpty(String),
}

pub enum DirErrorView {
    EmptyPath,
    IntoOwnChild,
    RootDir,
    NotEmpty(Seq<char>),
}

pub open spec fn dir_error_view(e: DirError) -> DirErrorView {
    match e {
        DirError::EmptyPath => DirErrorView::EmptyPath,
        DirError::IntoOwnChild => DirErrorView::IntoOwnChild,
        DirError::RootDir => DirErrorView::RootDir,
        DirError::NotEmpty(d) => DirErrorView::NotEmpty(d@),
    }
}

pub open spec fn dir_message(e: DirErrorView) -> Seq<char> {
    match e {
        DirErrorView::EmptyPath => "directory path cannot be empty"@,
        DirErrorView::IntoOwnChild => "cannot rename directory into its own\nchild"@,
        DirErrorView::RootDir => "cannot delete root directory"@,
        DirErrorView::NotEmpty(d) => "directory "@ + d + "/ is not empty"@,
    }
}

impl DirError {
    pub fn message(&self) -> (r: String)
        ensures
            r@ == dir_message(dir_error_view(*self)),
    {
        match self {
            DirError::EmptyPath => String::from_str("directory path cannot be empty"),
            DirError::IntoOwnChild => String::from_str("cannot rename directory into its own\nchild"),
            DirError::RootDir => String::from_str("cannot delete root directory"),
            DirError::NotEmpty(d) => {
                let mut s = String::from_str("directory ");
                s.append(d.as_str());
                s.append("/ is not empty");
                s
            },
        }
    }
}

/// What moving directory `old_raw` to `new_raw` comes to, before the disk is
/// asked: both normalised; nothing to do when they are the same.
pub open spec fn dir_move(old_raw: Seq<char>, new_raw: Seq<char>) -> Result<Option<(Seq<char>, Seq<char>)>, DirErrorView> {
    let o = dir_path(old_raw);
    let n = dir_path(new_raw);
    if o.len() == 0 || n.len() == 0 {
        Err(DirErrorView::EmptyPath)
    } else if o == n {
        Ok(None)
    } else if starts_with(n, o.push('/')) {
        Err(DirErrorView::IntoOwnChild)
    } else {
        Ok(Some((o, n)))
    }
}

pub fn plan_dir_move(old_raw: &str, new_raw: &str) -> (r: Result<Option<(String, String)>, DirError>)
    ensures
        match (r, dir_move(old_raw@, new_raw@)) {
            (Ok(None), Ok(None)) => true,
            (Ok(Some((o, n))), Ok(Some((ov, nv)))) => o@ == ov && n@ == nv,
            (Err(e), Err(ev)) => dir_error_view(e) == ev,
            _ => false,
        },
{
    let o = normalize_dir_chars(&chars_of(old_raw));
    let n = normalize_dir_chars(&chars_of(new_raw));
    if o.len() == 0 || n.len() == 0 {
        return Err(DirError::EmptyPath);
    }
    if eq_chars(&o, &n) {
        return Ok(None);
    }
    let mut with_sep = o.clone();
    with_sep.push('/');
    if starts_with_exec(&n, &with_sep) {
        return Err(DirError::IntoOwnChild);
    }
    Ok(Some((string_of(&o), string_of(&n))))
}

/// Whether a directory may be deleted, given the keys of the listed notes:
/// it is not the root and holds none of them.
pub open spec fn dir_delete(raw_dir: Seq<char>, note_keys: Seq<Seq<char>>) -> Result<Seq<char>, DirErrorView> {
    let d = dir_path(raw_dir);
    if d.len() == 0 {
        Err(DirErrorView::RootDir)
    } else if exists|i: int| 0 <= i < note_keys.len() && starts_with(#[trigger] note_keys[i], d.push('/')) {
        Err(DirErrorView::NotEmpty(d))
    } else {
        Ok(d)
    }
}

pub fn check_dir_delete(raw_dir: &str, note_keys: &Vec<String>) -> (r: Result<String, DirError>)
    ensures
        match (r, dir_delete(raw_dir@, strs(note_keys@))) {
            (Ok(d), Ok(dv)) => d@ == dv,
            (Err(e), Err(ev)) => dir_error_view(e) == ev,
            _ => false,
        },
{
    let d = normalize_dir_chars(&chars_of(raw_dir));
    if d.len() == 0 {
        return Err(DirError::RootDir);
    }
    let mut pre = d.clone();
    pre.push('/');
    let mut i: usize = 0;
    while i < note_keys.len()
        invariant
            i <= note_keys@.len(),
            pre@ == d@.push('/'),
            d@ == dir_path(raw_dir@),
            d@.len() > 0,
            forall|j: int| 0 <= j < i ==> !starts_with(#[trigger] strs(note_keys@)[j], pre@),
        decreases note_keys.len() - i,
    {
        assert(strs(note_keys@)[i as int] == note_keys@[i as int]@);
        if starts_with_exec(&chars_of(note_keys[i].as_str()), &pre) {
            assert(starts_with(strs(note_keys@)[i as int], dir_path(raw_dir@).push('/')));
            assert(dir_delete(raw_dir@, strs(note_keys@)) == Err::<Seq<char>, DirErrorView>(DirErrorView::NotEmpty(d@)));
            let s = string_of(&d);
            return Err(DirError::NotEmpty(s));
        }
        i = i + 1;
    }
    Ok(string_of(&d))
}

// ---------------------------------------------------------------------------
// Entries of the tag table
// ---------------------------------------------------------------------------

/// What the tag table holds for a note with `tags`: nothing for none, else
/// the tags joined by commas.
pub fn tags_entry(tags: &Vec<String>) -> (r: Option<String>)
    ensures
        tags@.len() == 0 ==> r is None,
        tags@.len() > 0 ==> (r matches Some(e) && e@ == crate::text::join(strs(tags@), seq![','])),
{
    if tags.len() == 0 {
        None
    } else {
        Some(crate::index::encode_tags(tags))
    }
}

/// Where a note's tag row goes when the note moves to `new_key`: the row it
/// had, under the new key, when that row holds anything but whitespace;
/// nowhere else (the old key's row is dropped either way).
pub open spec fn moved_row(row: Option<Seq<char>>, new_key: Seq<char>) -> Option<(Seq<char>, Seq<char>)> {
    match row {
        Some(e) => if trim_ws(e).len() > 0 {
            Some((new_key, e))
        } else {
            None
        },
        None => None,
    }
}

/// The tag row to write under `new_key` for a note whose row was `row`: the
/// tags follow the note.
pub fn moved_tag_row(row: Option<String>, new_key: &str) -> (r: Option<(String, String)>)
    ensures
        match (r, moved_row(crate::editor::command::opt_string_view(row), new_key@)) {
            (Some((k, e)), Some((kv, ev))) => k@ == kv && e@ == ev,
            (None, None) => true,
            _ => false,
        },
{
    match row {
        Some(e) => {
            if trim_whitespace(&chars_of(e.as_str())).len() > 0 {
                Some((String::from_str(new_key), e))
            } else {
                None
            }
        },
        None => None,
    }
}

/// Whether a stored tag entry holds the tag `wanted`.
pub fn entry_has_tag(encoded: &str, wanted: &str) -> (b: bool)
    ensures
        b == crate::text::trimmed_nonempty(crate::text::split(encoded@, crate::text::CharSet::Only(','))).contains(wanted@),
{
    let tags = crate::index::decode_tags(encoded);
    holds(&tags, &chars_of(wanted))
}

/// The title of a note: the one its file declares when it is a file, else
/// `fallback` when that is given and not empty, else its file stem.
pub open spec fn note_title(content: Option<Seq<char>>, rel: Seq<char>, fallback: Option<Seq<char>>) -> Seq<char> {
    match content {
        Some(c) => match crate::frontmatter::title_of_content(c) {
            Some(t) => t,
            None => crate::index::title_of_path(rel),
        },
        None => match fallback {
            Some(f) if f.len() > 0 => f,
            _ => crate::index::title_of_path(rel),
        },
    }
}

pub fn title_for_note(content: Option<&str>, rel: &str, fallback: Option<&str>) -> (r: String)
    ensures
        r@ == note_title(crate::index::opt_view(content), rel@, crate::index::opt_view(fallback)),
{
    match content {
        Some(c) => match crate::frontmatter::note_title_from_content(c) {
            Some(t) => t,
            None => crate::index::title_from_path(rel),
        },
        None => match fallback {
            Some(f) => {
                if f.unicode_len() > 0 {
                    String::from_str(f)
                } else {
                    crate::index::title_from_path(rel)
                }
            },
            None => crate::index::title_from_path(rel),
        },
    }
}

proof fn lemma_title_matches_in(ns: Seq<(Seq<char>, Seq<char>)>, q: Seq<char>)
    ensures
        forall|i: int| 0 <= i < title_matches(ns, q).len() ==> ns.contains(#[trigger] title_matches(ns, q)[i]),
    decreases ns.len(),
{
    if ns.len() > 0 {
        let d = ns.drop_last();
        lemma_title_matches_in(d, q);
        let prev = title_matches(d, q);
        assert forall|i: int| 0 <= i < title_matches(ns, q).len() implies ns.contains(
            #[trigger] title_matches(ns, q)[i],
        ) by {
            if i < prev.len() {
                assert(title_matches(ns, q)[i] == prev[i]);
                let j = choose|j: int| 0 <= j < d.len() && d[j] == prev[i];
                assert(ns[j] == d[j]);
            } else {
                assert(ns[ns.len() - 1] == ns.last());
            }
        }
    }
}

proof fn lemma_text_matches_in(ns: Seq<(Seq<char>, Seq<char>)>, q: Seq<char>)
    ensures
        forall|i: int| 0 <= i < text_matches(ns, q).len() ==> ns.contains(#[trigger] text_matches(ns, q)[i]),
    decreases ns.len(),
{
    if ns.len() > 0 {
        let d = ns.drop_last();
        lemma_text_matches_in(d, q);
        let prev = text_matches(d, q);
        assert forall|i: int| 0 <= i < text_matches(ns, q).len() implies ns.contains(
            #[trigger] text_matches(ns, q)[i],
        ) by {
            if i < prev.len() {
                assert(text_matches(ns, q)[i] == prev[i]);
                let j = choose|j: int| 0 <= j < d.len() && d[j] == prev[i];
                assert(ns[j] == d[j]);
            } else {
                assert(ns[ns.len() - 1] == ns.last());
            }
        }
    }
}

/// A reference resolves only to a note of the index: when the note at the
/// path and the fuzzy matches are notes of the list, whatever note a
/// reference resolves to is one of the list too; it is never made up.
pub proof fn lemma_referenced_in_list(
    raw: Seq<char>,
    direct: Option<(Seq<char>, Seq<char>)>,
    notes: Seq<(Seq<char>, Seq<char>)>,
    fuzzy: Seq<(Seq<char>, Seq<char>)>,
)
    requires
        direct matches Some(d) ==> notes.contains(d),
        forall|i: int| 0 <= i < fuzzy.len() ==> notes.contains(#[trigger] fuzzy[i]),
    ensures
        referenced(raw, direct, notes, fuzzy) matches Ok(v) ==> notes.contains(v),
{
    let ql = lower_of(trim_ws(raw));
    lemma_title_matches_in(notes, ql);
    lemma_text_matches_in(notes, ql);
    if title_matches(notes, ql).len() > 0 {
        assert(notes.contains(title_matches(notes, ql)[0]));
    }
    if text_matches(notes, ql).len() > 0 {
        assert(notes.contains(text_matches(notes, ql)[0]));
    }
    if fuzzy.len() > 0 {
        assert(notes.contains(fuzzy[0]));
    }
}

/// A directory is deleted only when no note lies under it, at any depth: an
/// `Ok` names the normalised directory, which is not the root, and no note
/// key goes on from it with a `/`; a note key that does makes the answer
/// `NotEmpty` for that directory.
pub proof fn lemma_dir_delete_only_when_empty(raw_dir: Seq<char>, note_keys: Seq<Seq<char>>)
    ensures
        dir_delete(raw_dir, note_keys) matches Ok(d) ==> {
            &&& d == dir_path(raw_dir)
            &&& d.len() > 0
            &&& forall|i: int| 0 <= i < note_keys.len() ==> !(#[trigger] note_keys[i].len() > d.len()
                && note_keys[i].take(d.len() as int) == d && note_keys[i][d.len() as int] == '/')
        },
        forall|i: int|
            0 <= i < note_keys.len() && dir_path(raw_dir).len() > 0 && #[trigger] note_keys[i].len() > dir_path(
                raw_dir,
            ).len() && note_keys[i].take(dir_path(raw_dir).len() as int) == dir_path(raw_dir)
                && note_keys[i][dir_path(raw_dir).len() as int] == '/' ==> dir_delete(raw_dir, note_keys) == Err::<
                Seq<char>,
                DirErrorView,
            >(DirErrorView::NotEmpty(dir_path(raw_dir))),
{
    let d = dir_path(raw_dir);
    let p = d.push('/');
    assert forall|i: int| 0 <= i < note_keys.len() implies (starts_with(note_keys[i], p) <==> (
    #[trigger] note_keys[i].len() > d.len() && note_keys[i].take(d.len() as int) == d && note_keys[i][d.len() as int]
        == '/')) by {
        let k = note_keys[i];
        if starts_with(k, p) {
            assert(k.take(p.len() as int) == p);
            assert(p[d.len() as int] == '/');
            assert(k.take(p.len() as int)[d.len() as int] == k[d.len() as int]);
            assert forall|j: int| 0 <= j < d.len() implies k.take(d.len() as int)[j] == d[j] by {
                assert(k.take(p.len() as int)[j] == k[j]);
                assert(p[j] == d[j]);
            }
            assert(k.take(d.len() as int) =~= d);
        }
        if k.len() > d.len() && k.take(d.len() as int) == d && k[d.len() as int] == '/' {
            assert(k.take(p.len() as int) =~= p) by {
                assert forall|j: int| 0 <= j < p.len() implies k.take(p.len() as int)[j] == p[j] by {
                    if j < d.len() {
                        assert(k.take(d.len() as int)[j] == k[j]);
                    }
                }
            }
        }
    }
}

} // verus!
