//! The names the browser shows for notes and directories: a path segment
//! with dashes and underscores as spaces and each word capitalised.
use vstd::prelude::*;
use crate::text::{
    chars_of, join, join_with, push_all, replace_char, replace_char_exec, slice_chars, split,
    split_set, string_of, trim_whitespace, trim_ws, trimmed_nonempty, trimmed_nonempty_exec, views,
    words, CharSet,
};

verus! {

broadcast use vstd::string::group_string_axioms;

/// What `char::to_uppercase` gives for a character (one or more characters,
/// by Unicode's case mappings).
pub uninterp spec fn upper_of(c: char) -> Seq<char>;

/// `char::to_uppercase`, collected; its result is named `upper_of`.
#[verifier::external_body]
fn to_uppercase(c: char) -> (r: Vec<char>)
    ensures
        r@ == upper_of(c),
{
    c.to_uppercase().collect()
}

/// A word with its first character in upper case.
pub open spec fn capitalized(w: Seq<char>) -> Seq<char> {
    if w.len() == 0 {
        w
    } else {
        upper_of(w[0]) + w.drop_first()
    }
}

/// The words of a segment once dashes and underscores count as spaces.
pub open spec fn segment_words(input: Seq<char>) -> Seq<Seq<char>> {
    words(replace_char(replace_char(trim_ws(input), '-', ' '), '_', ' '))
}

/// A path segment as a title: its words, each capitalised, joined by single
/// spaces.
pub open spec fn pretty(input: Seq<char>) -> Seq<char> {
    join(segment_words(input).map_values(|w: Seq<char>| capitalized(w)), seq![' '])
}

pub fn prettify_segment(input: &str) -> (r: String)
    ensures
        r@ == pretty(input@),
{
    let t = trim_whitespace(&chars_of(input));
    let t = replace_char_exec(&t, '-', ' ');
    let t = replace_char_exec(&t, '_', ' ');
    let ws = trimmed_nonempty_exec(&split_set(&t, CharSet::Whitespace));
    let mut caps: Vec<Vec<char>> = Vec::new();
    let mut i: usize = 0;
    while i < ws.len()
        invariant
            i <= ws.len(),
            views(ws@) == segment_words(input@),
            views(caps@) == views(ws@).take(i as int).map_values(|w: Seq<char>| capitalized(w)),
        decreases ws.len() - i,
    {
        let w = &ws[i];
        let mut c: Vec<char> = Vec::new();
        if w.len() > 0 {
            c = to_uppercase(w[0]);
            let rest = slice_chars(w, 1, w.len());
            push_all(&mut c, &rest);
            assert(rest@ =~= w@.drop_first());
        }
        proof {
            if w@.len() == 0 {
                assert(c@ =~= w@);
            }
            assert(views(ws@)[i as int] == w@);
            assert(views(caps@.push(c)) =~= views(caps@).push(c@));
            assert(views(ws@).take(i as int + 1).map_values(|w: Seq<char>| capitalized(w))
                =~= views(ws@).take(i as int).map_values(|w: Seq<char>| capitalized(w)).push(
                capitalized(views(ws@)[i as int]),
            ));
        }
        caps.push(c);
        i = i + 1;
    }
    assert(views(ws@).take(ws@.len() as int) =~= views(ws@));
    let mut sp: Vec<char> = Vec::new();
    sp.push(' ');
    assert(sp@ =~= seq![' ']);
    string_of(&join_with(&caps, &sp))
}

/// The last `/`-separated segment of a path, trimmed.
pub open spec fn leaf_of(path: Seq<char>) -> Seq<char> {
    trim_ws(split(path, CharSet::Only('/')).last())
}

/// The name a note path is shown by: its last segment made pretty, or the
/// segment itself when nothing is left of it.
pub open spec fn display_name(path: Seq<char>) -> Seq<char> {
    if pretty(leaf_of(path)).len() == 0 {
        leaf_of(path)
    } else {
        pretty(leaf_of(path))
    }
}

pub fn display_name_from_note_path(path: &str) -> (r: String)
    ensures
        r@ == display_name(path@),
{
    let parts = split_set(&chars_of(path), CharSet::Only('/'));
    proof {
        crate::text::lemma_split_len(path@, CharSet::Only('/'));
        assert(views(parts@).last() == parts@[parts@.len() - 1]@);
    }
    let leaf = string_of(&trim_whitespace(&parts[parts.len() - 1]));
    let p = prettify_segment(leaf.as_str());
    if p.as_str().unicode_len() == 0 {
        leaf
    } else {
        p
    }
}

} // verus!
