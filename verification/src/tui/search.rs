//! The global search popup: what a query finds among the directories and
//! the notes (by path or title, and by tags after commas).
use vstd::prelude::*;
use crate::text::{chars_of, contains_exec, contains_seq, eq_chars, split, split_set, string_of, trim_whitespace, trim_ws, trimmed_nonempty, trimmed_nonempty_exec, views, CharSet};
use crate::index::{key_of, path_key, strs, NoteMeta};
use crate::vault::{lower_of, to_lowercase};
use crate::tui::paths::{same_note_path, same_path};
use crate::tui::tree::kept_selection;

verus! {

broadcast use vstd::string::group_string_axioms;

/// What a search found.
#[derive(Debug, PartialEq, Eq)]
pub enum GlobalSearchResult {
    Dir(String),
    /// A note, and whether tags were asked for.
    Note { path: String, matched_by_tag: bool },
}

pub enum HitView {
    Dir(Seq<char>),
    Note(Seq<char>, bool),
}

pub open spec fn hit_view(h: GlobalSearchResult) -> HitView {
    match h {
        GlobalSearchResult::Dir(d) => HitView::Dir(d@),
        GlobalSearchResult::Note { path, matched_by_tag } => HitView::Note(path@, matched_by_tag),
    }
}

pub open spec fn hits_view(v: Seq<GlobalSearchResult>) -> Seq<HitView> {
    v.map_values(|h: GlobalSearchResult| hit_view(h))
}

/// The most hits the popup lists, and how many notes it lists for an
/// empty query.
pub const MAX_HITS: usize = 80;

pub const FIRST_NOTES: usize = 20;

/// The query, trimmed and lower-cased.
pub open spec fn search_query(input: Seq<char>) -> Seq<char> {
    lower_of(trim_ws(input))
}

/// The query's comma-separated parts, trimmed, the empty ones left out:
/// the first is looked for in names, the others are tags a note must have.
pub open spec fn query_parts(q: Seq<char>) -> Seq<Seq<char>> {
    trimmed_nonempty(split(q, CharSet::Only(',')))
}

/// Whether a note's path is already among the hits.
pub open spec fn seen(hits: Seq<HitView>, p: Seq<char>) -> bool {
    exists|k: int| 0 <= k < hits.len() && (#[trigger] hits[k] matches HitView::Note(q, _) && same_path(q, p))
}

/// The first notes, each path once, for an empty query.
pub open spec fn first_notes(notes: Seq<NoteMeta>) -> Seq<HitView>
    decreases notes.len(),
{
    if notes.len() == 0 {
        Seq::<HitView>::empty()
    } else {
        let prev = first_notes(notes.drop_last());
        let p = notes.last().path@;
        if seen(prev, p) {
            prev
        } else {
            prev.push(HitView::Note(p, false))
        }
    }
}

/// The directories whose lower-cased path holds `name`, when no tags are
/// asked for and `name` is not empty.
pub open spec fn dir_hits(dirs: Seq<Seq<char>>, name: Seq<char>, no_tags: bool) -> Seq<HitView>
    decreases dirs.len(),
{
    if dirs.len() == 0 {
        Seq::<HitView>::empty()
    } else {
        let prev = dir_hits(dirs.drop_last(), name, no_tags);
        if no_tags && name.len() > 0 && contains_seq(lower_of(dirs.last()), name) {
            prev.push(HitView::Dir(dirs.last()))
        } else {
            prev
        }
    }
}

/// Whether a note matches: `name` is empty or its lower-cased path or title
/// holds it, and each tag asked for is one of its lower-cased tags.
pub open spec fn note_matches(n: NoteMeta, tags: Seq<Seq<char>>, name: Seq<char>, required: Seq<Seq<char>>) -> bool {
    &&& (name.len() == 0 || contains_seq(lower_of(key_of(n.path@)), name) || contains_seq(lower_of(n.title@), name))
    &&& forall|i: int| 0 <= i < required.len() ==> has_tag_spec(tags, #[trigger] required[i])
}

/// Whether one of `tags`, lower-cased, is `want`.
pub open spec fn has_tag_spec(tags: Seq<Seq<char>>, want: Seq<char>) -> bool {
    exists|j: int| 0 <= j < tags.len() && lower_of(#[trigger] tags[j]) == want
}

/// The hits after `base`, adding the matching notes, each path once.
pub open spec fn note_hits(
    base: Seq<HitView>,
    notes: Seq<NoteMeta>,
    tags: Seq<Seq<Seq<char>>>,
    name: Seq<char>,
    required: Seq<Seq<char>>,
) -> Seq<HitView>
    decreases notes.len(),
{
    if notes.len() == 0 {
        base
    } else {
        let prev = note_hits(base, notes.drop_last(), tags, name, required);
        let n = notes.last();
        let k = notes.len() - 1;
        if note_matches(n, tags[k], name, required) && !seen(prev, n.path@) {
            prev.push(HitView::Note(n.path@, required.len() > 0))
        } else {
            prev
        }
    }
}

/// What the popup lists for `input`, given the directories, the notes and
/// each note's tags: at most `MAX_HITS` hits.
pub open spec fn search_hits(input: Seq<char>, dirs: Seq<Seq<char>>, notes: Seq<NoteMeta>, tags: Seq<Seq<Seq<char>>>) -> Seq<HitView> {
    let q = search_query(input);
    let all = if q.len() == 0 {
        first_notes(notes.take(if notes.len() < FIRST_NOTES { notes.len() as int } else { FIRST_NOTES as int }))
    } else {
        let parts = query_parts(q);
        let name = if parts.len() > 0 {
            parts[0]
        } else {
            Seq::<char>::empty()
        };
        let required = if parts.len() > 1 {
            parts.drop_first()
        } else {
            Seq::<Seq<char>>::empty()
        };
        note_hits(dir_hits(dirs, name, required.len() == 0), notes, tags, name, required)
    };
    if all.len() > MAX_HITS {
        all.take(MAX_HITS as int)
    } else {
        all
    }
}

fn lowered(s: &str) -> (r: Vec<char>)
    ensures
        r@ == lower_of(s@),
{
    chars_of(to_lowercase(s).as_str())
}

fn seen_exec(hits: &Vec<GlobalSearchResult>, p: &str) -> (b: bool)
    ensures
        b == seen(hits_view(hits@), p@),
{
    let mut i: usize = 0;
    while i < hits.len()
        invariant
            i <= hits@.len(),
            forall|k: int| 0 <= k < i ==> !(#[trigger] hits_view(hits@)[k] matches HitView::Note(q, _) && same_path(q, p@)),
        decreases hits.len() - i,
    {
        assert(hits_view(hits@)[i as int] == hit_view(hits@[i as int]));
        match &hits[i] {
            GlobalSearchResult::Note { path, .. } => {
                if same_note_path(path.as_str(), p) {
                    return true;
                }
            },
            GlobalSearchResult::Dir(_) => {},
        }
        i = i + 1;
    }
    false
}

proof fn lemma_hits_push(v: Seq<GlobalSearchResult>, h: GlobalSearchResult)
    ensures
        hits_view(v.push(h)) == hits_view(v).push(hit_view(h)),
{
    assert(hits_view(v.push(h)) =~= hits_view(v).push(hit_view(h)));
}

fn has_tag(tags: &Vec<String>, want: &Vec<char>) -> (b: bool)
    ensures
        b == has_tag_spec(strs(tags@), want@),
{
    let mut j: usize = 0;
    while j < tags.len()
        invariant
            j <= tags@.len(),
            forall|k: int| 0 <= k < j ==> lower_of(#[trigger] strs(tags@)[k]) != want@,
        decreases tags.len() - j,
    {
        assert(strs(tags@)[j as int] == tags@[j as int]@);
        if eq_chars(&lowered(tags[j].as_str()), want) {
            return true;
        }
        j = j + 1;
    }
    false
}

fn matches_note(n: &NoteMeta, tags: &Vec<String>, name: &Vec<char>, required: &Vec<Vec<char>>) -> (b: bool)
    ensures
        b == note_matches(*n, strs(tags@), name@, views(required@)),
{
    let name_ok = name.len() == 0 || contains_exec(&lowered(path_key(n.path.as_str()).as_str()), name)
        || contains_exec(&lowered(n.title.as_str()), name);
    if !name_ok {
        return false;
    }
    let mut i: usize = 0;
    while i < required.len()
        invariant
            i <= required@.len(),
            name@.len() == 0 || contains_seq(lower_of(key_of(n.path@)), name@) || contains_seq(lower_of(n.title@), name@),
            forall|k: int| 0 <= k < i ==> has_tag_spec(strs(tags@), #[trigger] views(required@)[k]),
        decreases required.len() - i,
    {
        assert(views(required@)[i as int] == required@[i as int]@);
        if !has_tag(tags, &required[i]) {
            return false;
        }
        i = i + 1;
    }
    true
}

/// The global search: the hits for `input`, and the selected hit kept
/// inside them.
pub fn refresh_global_search_results(
    input: &str,
    dirs: &Vec<String>,
    notes: &Vec<NoteMeta>,
    tags: &Vec<Vec<String>>,
    selected: usize,
) -> (r: (Vec<GlobalSearchResult>, usize))
    requires
        tags@.len() == notes@.len(),
    ensures
        hits_view(r.0@) == search_hits(input@, strs(dirs@), notes@, tags@.map_values(|t: Vec<String>| strs(t@))),
        r.1 as nat == kept_selection(r.0@.len(), selected as nat),
{
    let ghost tv = tags@.map_values(|t: Vec<String>| strs(t@));
    let t = string_of(&trim_whitespace(&chars_of(input)));
    let q = lowered(t.as_str());
    let mut hits: Vec<GlobalSearchResult> = Vec::new();
    if q.len() == 0 {
        let n = if notes.len() < FIRST_NOTES {
            notes.len()
        } else {
            FIRST_NOTES
        };
        let ghost first = notes@.take(n as int);
        let mut i: usize = 0;
        while i < n
            invariant
                i <= n <= notes@.len(),
                first == notes@.take(n as int),
                hits_view(hits@) == first_notes(first.take(i as int)),
            decreases n - i,
        {
            proof {
                assert(first.take(i as int + 1).drop_last() =~= first.take(i as int));
                assert(first.take(i as int + 1).last() == notes@[i as int]);
            }
            let p = notes[i].path.as_str();
            if !seen_exec(&hits, p) {
                let h = GlobalSearchResult::Note { path: string_of(&chars_of(p)), matched_by_tag: false };
                proof {
                    lemma_hits_push(hits@, h);
                }
                hits.push(h);
            }
            i = i + 1;
        }
        assert(first.take(n as int) =~= first);
    } else {
        let parts = trimmed_nonempty_exec(&split_set(&q, CharSet::Only(',')));
        let name: Vec<char> = if parts.len() > 0 {
            parts[0].clone()
        } else {
            Vec::new()
        };
        let mut required: Vec<Vec<char>> = Vec::new();
        if parts.len() > 1 {
            let mut k: usize = 1;
            while k < parts.len()
                invariant
                    1 <= k <= parts@.len(),
                    views(required@) == views(parts@).subrange(1, k as int),
                decreases parts.len() - k,
            {
                let w = parts[k].clone();
                proof {
                    assert(views(required@.push(w)) =~= views(required@).push(w@));
                    assert(views(parts@).subrange(1, k as int + 1) =~= views(parts@).subrange(1, k as int).push(parts@[k as int]@));
                }
                required.push(w);
                k = k + 1;
            }
            assert(views(parts@).subrange(1, parts@.len() as int) =~= views(parts@).drop_first());
        }
        assert(parts.len() > 0 ==> views(parts@)[0] == name@);
        assert(parts.len() <= 1 ==> views(required@) =~= Seq::<Seq<char>>::empty());
        let no_tags = required.len() == 0;
        let mut d: usize = 0;
        while d < dirs.len()
            invariant
                d <= dirs@.len(),
                no_tags == (views(required@).len() == 0),
                hits_view(hits@) == dir_hits(strs(dirs@).take(d as int), name@, no_tags),
            decreases dirs.len() - d,
        {
            proof {
                let ds = strs(dirs@);
                assert(ds.take(d as int + 1).drop_last() =~= ds.take(d as int));
                assert(ds.take(d as int + 1).last() == dirs@[d as int]@);
            }
            if no_tags && name.len() > 0 && contains_exec(&lowered(dirs[d].as_str()), &name) {
                let h = GlobalSearchResult::Dir(string_of(&chars_of(dirs[d].as_str())));
                proof {
                    lemma_hits_push(hits@, h);
                }
                hits.push(h);
            }
            d = d + 1;
        }
        assert(strs(dirs@).take(dirs@.len() as int) =~= strs(dirs@));
        let ghost base = hits_view(hits@);
        let mut i: usize = 0;
        while i < notes.len()
            invariant
                i <= notes@.len(),
                tags@.len() == notes@.len(),
                tv == tags@.map_values(|t: Vec<String>| strs(t@)),
                hits_view(hits@) == note_hits(base, notes@.take(i as int), tv, name@, views(required@)),
            decreases notes.len() - i,
        {
            proof {
                assert(notes@.take(i as int + 1).drop_last() =~= notes@.take(i as int));
                assert(notes@.take(i as int + 1).last() == notes@[i as int]);
                assert(tv[i as int] == strs(tags@[i as int]@));
            }
            if matches_note(&notes[i], &tags[i], &name, &required) && !seen_exec(&hits, notes[i].path.as_str()) {
                let h = GlobalSearchResult::Note {
                    path: string_of(&chars_of(notes[i].path.as_str())),
                    matched_by_tag: required.len() > 0,
                };
                proof {
                    lemma_hits_push(hits@, h);
                }
                hits.push(h);
            }
            i = i + 1;
        }
        assert(notes@.take(notes@.len() as int) =~= notes@);
    }
    if hits.len() > MAX_HITS {
        hits.truncate(MAX_HITS);
        assert(hits_view(hits@) =~= hits_view(hits@));
    }
    let n = hits.len();
    let sel = if selected >= n {
        if n == 0 {
            0
        } else {
            n - 1
        }
    } else {
        selected
    };
    (hits, sel)
}

/// Where choosing a hit of the global search takes the browser. Either way
/// the popup closes, its query and hits are cleared, and the notes pane
/// shows and takes the focus.
#[derive(Debug, Clone, PartialEq, Eq)]
pub enum SearchJump {
    /// Into the directory, saying so on the status line.
    EnterDir { dir: String, status: String },
    /// To the note, which is opened.
    OpenNote(String),
}

/// The jump for the selected hit; none when no hit is selected.
pub fn apply_global_search_selection(hits: &Vec<GlobalSearchResult>, selected: usize) -> (r: Option<SearchJump>)
    ensures
        selected >= hits@.len() ==> r is None,
        selected < hits@.len() ==> match hits@[selected as int] {
            GlobalSearchResult::Dir(d) => r matches Some(SearchJump::EnterDir { dir, status }) && dir@ == d@ && status@
                == "entered "@ + d@ + "/"@,
            GlobalSearchResult::Note { path, .. } => r matches Some(SearchJump::OpenNote(p)) && p@ == path@,
        },
{
    if selected >= hits.len() {
        return None;
    }
    match &hits[selected] {
        GlobalSearchResult::Dir(d) => {
            let mut status = String::from_str("entered ");
            status.append(d.as_str());
            status.append("/");
            Some(SearchJump::EnterDir { dir: d.clone(), status })
        },
        GlobalSearchResult::Note { path, .. } => Some(SearchJump::OpenNote(path.clone())),
    }
}

// ---------------------------------------------------------------------------
// What a search by tags keeps
// ---------------------------------------------------------------------------

/// One of `note_tags`, lower-cased, is `want`.
pub open spec fn carries(note_tags: Seq<Seq<char>>, want: Seq<char>) -> bool {
    exists|j: int| 0 <= j < note_tags.len() && lower_of(#[trigger] note_tags[j]) == want
}

/// Every tag of `wanted` is, lower-cased, one of `note_tags`.
pub open spec fn carries_all(note_tags: Seq<Seq<char>>, wanted: Seq<Seq<char>>) -> bool {
    forall|t: int| 0 <= t < wanted.len() ==> carries(note_tags, #[trigger] wanted[t])
}

/// `h` is a note hit for one of `notes`, tagged `by_tag`, whose tags carry
/// all of `wanted`.
pub open spec fn hit_carrying(
    h: HitView,
    notes: Seq<NoteMeta>,
    tags: Seq<Seq<Seq<char>>>,
    wanted: Seq<Seq<char>>,
    by_tag: bool,
) -> bool {
    exists|k: int| 0 <= k < notes.len() && h == HitView::Note(notes[k].path@, by_tag) && #[trigger] carries_all(tags[k], wanted)
}

proof fn lemma_no_dir_hits(dirs: Seq<Seq<char>>, name: Seq<char>)
    ensures
        dir_hits(dirs, name, false) == Seq::<HitView>::empty(),
    decreases dirs.len(),
{
    if dirs.len() > 0 {
        lemma_no_dir_hits(dirs.drop_last(), name);
    }
}

/// Each hit that `note_hits` adds after `base` is one of the notes, and
/// that note carries every tag asked for.
proof fn lemma_note_hits_carry_tags(
    base: Seq<HitView>,
    notes: Seq<NoteMeta>,
    tags: Seq<Seq<Seq<char>>>,
    name: Seq<char>,
    required: Seq<Seq<char>>,
)
    ensures
        note_hits(base, notes, tags, name, required).len() >= base.len(),
        forall|i: int| 0 <= i < base.len() ==> #[trigger] note_hits(base, notes, tags, name, required)[i] == base[i],
        forall|i: int|
            base.len() <= i < note_hits(base, notes, tags, name, required).len() ==> hit_carrying(
                #[trigger] note_hits(base, notes, tags, name, required)[i],
                notes,
                tags,
                required,
                required.len() > 0,
            ),
    decreases notes.len(),
{
    let h = note_hits(base, notes, tags, name, required);
    if notes.len() > 0 {
        let d = notes.drop_last();
        lemma_note_hits_carry_tags(base, d, tags, name, required);
        let prev = note_hits(base, d, tags, name, required);
        let k = notes.len() - 1;
        assert forall|i: int| 0 <= i < base.len() implies #[trigger] h[i] == base[i] by {
            assert(prev[i] == base[i]);
        }
        assert forall|i: int| base.len() <= i < h.len() implies hit_carrying(
            #[trigger] h[i],
            notes,
            tags,
            required,
            required.len() > 0,
        ) by {
            if i < prev.len() {
                assert(h[i] == prev[i]);
                assert(hit_carrying(prev[i], d, tags, required, required.len() > 0));
                let k2 = choose|k2: int|
                    0 <= k2 < d.len() && prev[i] == HitView::Note(d[k2].path@, required.len() > 0)
                        && #[trigger] carries_all(tags[k2], required);
                assert(notes[k2] == d[k2]);
            } else {
                let n = notes.last();
                assert(notes[k] == n);
                assert(note_matches(n, tags[k], name, required));
                assert forall|t: int| 0 <= t < required.len() implies carries(tags[k], #[trigger] required[t]) by {
                    assert(has_tag_spec(tags[k], required[t]));
                }
                assert(carries_all(tags[k], required));
                assert(h[i] == HitView::Note(notes[k].path@, required.len() > 0));
            }
        }
    }
}

/// A search with tags after a comma lists notes only, and each of them
/// carries every tag asked for: for every part of the query after the
/// first comma (trimmed, lower-cased), one of the note's tags lower-cases
/// to it. A note that lacks any one of them is not a hit.
pub proof fn lemma_tag_search_needs_every_tag(
    input: Seq<char>,
    dirs: Seq<Seq<char>>,
    notes: Seq<NoteMeta>,
    tags: Seq<Seq<Seq<char>>>,
)
    requires
        query_parts(search_query(input)).len() > 1,
    ensures
        forall|i: int| 0 <= i < search_hits(input, dirs, notes, tags).len() ==> hit_carrying(
            #[trigger] search_hits(input, dirs, notes, tags)[i],
            notes,
            tags,
            query_parts(search_query(input)).drop_first(),
            true,
        ),
{
    let q = search_query(input);
    let parts = query_parts(q);
    let name = parts[0];
    let required = parts.drop_first();
    assert(q.len() > 0) by {
        if q.len() == 0 {
            assert(q =~= Seq::<char>::empty());
            assert(split(q, CharSet::Only(',')) == seq![q]);
            assert(seq![q].drop_last() =~= Seq::<Seq<char>>::empty());
            assert(trim_ws(seq![q].last()).len() == 0);
            assert(trimmed_nonempty(seq![q].drop_last()) =~= Seq::<Seq<char>>::empty());
        }
    }
    lemma_no_dir_hits(dirs, name);
    let base = Seq::<HitView>::empty();
    lemma_note_hits_carry_tags(base, notes, tags, name, required);
    let all = note_hits(base, notes, tags, name, required);
    let r = search_hits(input, dirs, notes, tags);
    assert forall|i: int| 0 <= i < r.len() implies hit_carrying(#[trigger] r[i], notes, tags, required, true) by {
        assert(r[i] == all[i]);
    }
}

} // verus!
