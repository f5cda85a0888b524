//! Markdown front matter: the block between a first line `---` and the next
//! line that trims to `---`, and the `title:` and `tags:` entries in it.
use vstd::prelude::*;
use crate::text::{
    chars_of, crlf_to_lf, crlf_to_lf_exec, eq_chars, find_exec, join, join_with, lines, lines_of,
    match_from, push_all, slice_chars, split, split_set, starts_with, starts_with_exec, string_of,
    trim_set, trim_start, trim_whitespace, trim_ws, trimmed_nonempty, trimmed_nonempty_exec,
    unquote, unquote_exec, views, words, CharSet, trim_start_set, trim, lead, trail, set_has, is_ws,
    lemma_lead_bound, lemma_trail_bound, lemma_lead_exact, lemma_trail_exact, lemma_trim_noop,
};
use crate::index::{normal_tags, normalize_tags_chars, strs, strings_of, chars_of_strings};

verus! {

broadcast use vstd::string::group_string_axioms;

pub open spec fn dashes() -> Seq<char> {
    seq!['-', '-', '-']
}

pub open spec fn newline() -> Seq<char> {
    seq!['\n']
}

/// Index of the first line at or after `i` that trims to `---`, or the
/// number of lines.
pub open spec fn fence_from(ls: Seq<Seq<char>>, i: int) -> int
    decreases ls.len() - i,
{
    if i < 0 || i >= ls.len() {
        ls.len() as int
    } else if trim_ws(ls[i]) == dashes() {
        i
    } else {
        fence_from(ls, i + 1)
    }
}

/// The body lines after the closing fence, each followed by a newline.
pub open spec fn body_text(body: Seq<Seq<char>>) -> Seq<char> {
    if body.len() == 0 {
        Seq::<char>::empty()
    } else {
        join(body, newline()).push('\n')
    }
}

/// Splits a note into its front matter and its body; `None` when the note
/// does not open with a `---` line or the block is never closed.
pub open spec fn frontmatter_of(content: Seq<char>) -> Option<(Seq<char>, Seq<char>)> {
    let ls = lines(crlf_to_lf(content));
    if ls.len() == 0 || ls[0] != dashes() {
        None
    } else {
        let k = fence_from(ls, 1);
        if k >= ls.len() {
            None
        } else {
            Some((join(ls.subrange(1, k), newline()), body_text(ls.skip(k + 1))))
        }
    }
}

pub fn dashes_chars() -> (r: Vec<char>)
    ensures
        r@ == dashes(),
{
    let mut r: Vec<char> = Vec::new();
    r.push('-');
    r.push('-');
    r.push('-');
    assert(r@ =~= dashes());
    r
}

pub fn newline_chars() -> (r: Vec<char>)
    ensures
        r@ == newline(),
{
    let mut r: Vec<char> = Vec::new();
    r.push('\n');
    assert(r@ =~= newline());
    r
}

pub proof fn lemma_fence_from(ls: Seq<Seq<char>>, i: int, k: int)
    requires
        0 <= i <= k <= ls.len(),
        forall|j: int| i <= j < k ==> trim_ws(#[trigger] ls[j]) != dashes(),
        k == ls.len() || trim_ws(ls[k]) == dashes(),
    ensures
        fence_from(ls, i) == k,
    decreases k - i,
{
    if i < k {
        lemma_fence_from(ls, i + 1, k);
    }
}

/// Copies `v[from..to]` of a vector of lines.
pub fn slice_lines(v: &Vec<Vec<char>>, from: usize, to: usize) -> (r: Vec<Vec<char>>)
    requires
        from <= to <= v.len(),
    ensures
        views(r@) == views(v@).subrange(from as int, to as int),
{
    let mut r: Vec<Vec<char>> = Vec::new();
    let mut i = from;
    while i < to
        invariant
            from <= i <= to <= v.len(),
            views(r@) == views(v@).subrange(from as int, i as int),
        decreases to - i,
    {
        let l = v[i].clone();
        proof {
            assert(l@ =~= v@[i as int]@);
            assert(views(r@.push(l)) =~= views(r@).push(l@));
            assert(views(r@.push(l)) =~= views(v@).subrange(from as int, i as int + 1));
        }
        r.push(l);
        i = i + 1;
    }
    r
}

pub fn frontmatter_chars(content: &Vec<char>) -> (r: Option<(Vec<char>, Vec<char>)>)
    ensures
        match r {
            Some((fm, body)) => frontmatter_of(content@) == Some((fm@, body@)),
            None => frontmatter_of(content@) is None,
        },
{
    let normalized = crlf_to_lf_exec(content);
    let ls = lines_of(&normalized);
    let d = dashes_chars();
    if ls.len() == 0 || !eq_chars(&ls[0], &d) {
        proof {
            if ls.len() > 0 {
                assert(views(ls@)[0] == ls@[0]@);
            }
        }
        return None;
    }
    let mut k: usize = 1;
    while k < ls.len()
        invariant
            1 <= k <= ls.len(),
            d@ == dashes(),
            forall|j: int| 1 <= j < k ==> trim_ws(#[trigger] views(ls@)[j]) != dashes(),
        ensures
            1 <= k <= ls.len(),
            forall|j: int| 1 <= j < k ==> trim_ws(#[trigger] views(ls@)[j]) != dashes(),
            k == ls.len() || trim_ws(views(ls@)[k as int]) == dashes(),
        decreases ls.len() - k,
    {
        let t = trim_whitespace(&ls[k]);
        assert(views(ls@)[k as int] == ls@[k as int]@);
        if eq_chars(&t, &d) {
            break;
        }
        k = k + 1;
    }
    proof {
        lemma_fence_from(views(ls@), 1, k as int);
    }
    if k >= ls.len() {
        return None;
    }
    let nl = newline_chars();
    let fm = join_with(&slice_lines(&ls, 1, k), &nl);
    let rest = slice_lines(&ls, k + 1, ls.len());
    proof {
        assert(views(ls@).subrange(k as int + 1, ls@.len() as int) =~= views(ls@).skip(k as int + 1));
    }
    let body = if rest.len() == 0 {
        Vec::new()
    } else {
        let mut b = join_with(&rest, &nl);
        b.push('\n');
        b
    };
    Some((fm, body))
}

pub open spec fn opt_pair_view(r: Option<(String, String)>) -> Option<(Seq<char>, Seq<char>)> {
    match r {
        Some((a, b)) => Some((a@, b@)),
        None => None,
    }
}

/// The front matter (without its fences) and the body of a note.
pub fn split_frontmatter(content: &str) -> (r: Option<(String, String)>)
    ensures
        opt_pair_view(r) == frontmatter_of(content@),
{
    match frontmatter_chars(&chars_of(content)) {
        Some((fm, body)) => Some((string_of(&fm), string_of(&body))),
        None => None,
    }
}

// ---------------------------------------------------------------------------
// title:
// ---------------------------------------------------------------------------

pub open spec fn title_key() -> Seq<char> {
    seq!['t', 'i', 't', 'l', 'e', ':']
}

/// The first non-empty `title:` value among `ls[i..]`.
pub open spec fn title_in(ls: Seq<Seq<char>>, i: int) -> Option<Seq<char>>
    decreases ls.len() - i,
{
    if i < 0 || i >= ls.len() {
        None
    } else {
        let line = trim_ws(ls[i]);
        if starts_with(line, title_key()) && unquote(line.skip(6)).len() > 0 {
            Some(unquote(line.skip(6)))
        } else {
            title_in(ls, i + 1)
        }
    }
}

pub open spec fn fence_marker() -> Seq<char> {
    seq!['\n', '-', '-', '-']
}

/// The title a note declares in its front matter, if any.
pub open spec fn title_of_content(content: Seq<char>) -> Option<Seq<char>> {
    let trimmed = trim_start(content, CharSet::Whitespace);
    if !starts_with(trimmed, dashes()) {
        None
    } else {
        let body = trimmed.skip(3);
        match match_from(body, fence_marker(), 0) {
            Some(end) => title_in(lines(body.take(end)), 0),
            None => None,
        }
    }
}

fn title_key_chars() -> (r: Vec<char>)
    ensures
        r@ == title_key(),
{
    let mut r: Vec<char> = Vec::new();
    r.push('t');
    r.push('i');
    r.push('t');
    r.push('l');
    r.push('e');
    r.push(':');
    assert(r@ =~= title_key());
    r
}

fn fence_marker_chars() -> (r: Vec<char>)
    ensures
        r@ == fence_marker(),
{
    let mut r: Vec<char> = Vec::new();
    r.push('\n');
    r.push('-');
    r.push('-');
    r.push('-');
    assert(r@ =~= fence_marker());
    r
}

fn title_in_exec(ls: &Vec<Vec<char>>) -> (r: Option<Vec<char>>)
    ensures
        match r {
            Some(t) => title_in(views(ls@), 0) == Some(t@),
            None => title_in(views(ls@), 0) is None,
        },
{
    let key = title_key_chars();
    let mut i: usize = 0;
    while i < ls.len()
        invariant
            i <= ls.len(),
            key@ == title_key(),
            title_in(views(ls@), 0) == title_in(views(ls@), i as int),
        decreases ls.len() - i,
    {
        let line = trim_whitespace(&ls[i]);
        assert(views(ls@)[i as int] == ls@[i as int]@);
        if starts_with_exec(&line, &key) {
            assert(title_key().len() == 6);
            let v = unquote_exec(&slice_chars(&line, 6, line.len()));
            proof {
                assert(line@.subrange(6, line@.len() as int) =~= line@.skip(6));
            }
            if v.len() > 0 {
                return Some(v);
            }
        }
        i = i + 1;
    }
    None
}

/// The `title:` of a note's front matter, quotes removed; `None` when there
/// is no front matter or no non-empty title in it.
pub fn note_title_from_content(content: &str) -> (r: Option<String>)
    ensures
        match r {
            Some(t) => title_of_content(content@) == Some(t@),
            None => title_of_content(content@) is None,
        },
{
    let c = chars_of(content);
    let trimmed = trim_start_set(&c, CharSet::Whitespace);
    let d = dashes_chars();
    if !starts_with_exec(&trimmed, &d) {
        return None;
    }
    let body = slice_chars(&trimmed, 3, trimmed.len());
    assert(body@ =~= trimmed@.skip(3));
    match find_exec(&body, &fence_marker_chars(), 0) {
        Some(end) => {
            proof {
                crate::text::lemma_match_from_bound(body@, fence_marker(), 0, end as int);
            }
            let head = slice_chars(&body, 0, end);
            assert(head@ =~= body@.take(end as int));
            match title_in_exec(&lines_of(&head)) {
                Some(t) => Some(string_of(&t)),
                None => None,
            }
        },
        None => None,
    }
}


// ---------------------------------------------------------------------------
// tags:
// ---------------------------------------------------------------------------

pub open spec fn tags_key() -> Seq<char> {
    seq!['t', 'a', 'g', 's', ':']
}

pub open spec fn is_tags_line(l: Seq<char>) -> bool {
    starts_with(trim_ws(l), tags_key())
}

/// Index of the first `tags:` line at or after `i`, or the number of lines.
pub open spec fn tags_line_from(ls: Seq<Seq<char>>, i: int) -> int
    decreases ls.len() - i,
{
    if i < 0 || i >= ls.len() {
        ls.len() as int
    } else if is_tags_line(ls[i]) {
        i
    } else {
        tags_line_from(ls, i + 1)
    }
}

/// The value of the first `tags:` line of a front matter, trimmed.
pub open spec fn tags_value(fm: Seq<char>) -> Option<Seq<char>> {
    let ls = lines(fm);
    let k = tags_line_from(ls, 0);
    if k >= ls.len() {
        None
    } else {
        Some(trim_ws(trim_ws(ls[k]).skip(5)))
    }
}

/// `[x]` becomes `x`.
pub open spec fn strip_brackets(v: Seq<char>) -> Seq<char> {
    if v.len() >= 2 && v[0] == '[' && v.last() == ']' {
        v.subrange(1, v.len() - 1)
    } else {
        v
    }
}

/// The words of each comma-separated chunk, in order, unquoted.
pub open spec fn flat_tokens(chunks: Seq<Seq<char>>) -> Seq<Seq<char>>
    decreases chunks.len(),
{
    if chunks.len() == 0 {
        Seq::<Seq<char>>::empty()
    } else {
        flat_tokens(chunks.drop_last()) + words(chunks.last()).map_values(|t: Seq<char>| unquote(t))
    }
}

/// The raw tag tokens of a `tags:` value such as `[a, "b" c]`.
pub open spec fn value_tokens(raw: Seq<char>) -> Seq<Seq<char>> {
    flat_tokens(split(strip_brackets(trim_ws(raw)), CharSet::Only(',')))
}

fn tags_key_chars() -> (r: Vec<char>)
    ensures
        r@ == tags_key(),
{
    let mut r: Vec<char> = Vec::new();
    r.push('t');
    r.push('a');
    r.push('g');
    r.push('s');
    r.push(':');
    assert(r@ =~= tags_key());
    r
}

pub proof fn lemma_tags_line_from(ls: Seq<Seq<char>>, i: int, k: int)
    requires
        0 <= i <= k <= ls.len(),
        forall|j: int| i <= j < k ==> !is_tags_line(#[trigger] ls[j]),
        k == ls.len() || is_tags_line(ls[k]),
    ensures
        tags_line_from(ls, i) == k,
    decreases k - i,
{
    if i < k {
        lemma_tags_line_from(ls, i + 1, k);
    }
}

pub fn tags_value_exec(fm: &Vec<char>) -> (r: Option<Vec<char>>)
    ensures
        match r {
            Some(v) => tags_value(fm@) == Some(v@),
            None => tags_value(fm@) is None,
        },
{
    let ls = lines_of(fm);
    let key = tags_key_chars();
    let mut k: usize = 0;
    while k < ls.len()
        invariant
            k <= ls.len(),
            key@ == tags_key(),
            forall|j: int| 0 <= j < k ==> !is_tags_line(#[trigger] views(ls@)[j]),
        ensures
            k <= ls.len(),
            forall|j: int| 0 <= j < k ==> !is_tags_line(#[trigger] views(ls@)[j]),
            k == ls.len() || is_tags_line(views(ls@)[k as int]),
        decreases ls.len() - k,
    {
        let t = trim_whitespace(&ls[k]);
        assert(views(ls@)[k as int] == ls@[k as int]@);
        if starts_with_exec(&t, &key) {
            break;
        }
        k = k + 1;
    }
    proof {
        lemma_tags_line_from(views(ls@), 0, k as int);
    }
    if k >= ls.len() {
        return None;
    }
    let t = trim_whitespace(&ls[k]);
    assert(views(ls@)[k as int] == ls@[k as int]@);
    assert(tags_key().len() == 5);
    let rest = slice_chars(&t, 5, t.len());
    assert(rest@ =~= t@.skip(5));
    Some(trim_whitespace(&rest))
}

pub fn value_tokens_exec(raw: &Vec<char>) -> (r: Vec<Vec<char>>)
    ensures
        views(r@) == value_tokens(raw@),
{
    let v = trim_whitespace(raw);
    let inner = if v.len() >= 2 && v[0] == '[' && v[v.len() - 1] == ']' {
        slice_chars(&v, 1, v.len() - 1)
    } else {
        v.clone()
    };
    assert(inner@ == strip_brackets(v@));
    let chunks = split_set(&inner, CharSet::Only(','));
    let mut out: Vec<Vec<char>> = Vec::new();
    let mut i: usize = 0;
    while i < chunks.len()
        invariant
            i <= chunks.len(),
            views(out@) == flat_tokens(views(chunks@).take(i as int)),
        decreases chunks.len() - i,
    {
        proof {
            let cv = views(chunks@);
            assert(cv.take(i as int + 1).drop_last() =~= cv.take(i as int));
            assert(cv.take(i as int + 1).last() == chunks@[i as int]@);
        }
        let ws = trimmed_nonempty_exec(&split_set(&chunks[i], CharSet::Whitespace));
        let ghost base = views(out@);
        let mut j: usize = 0;
        while j < ws.len()
            invariant
                j <= ws.len(),
                views(out@) == base + views(ws@).take(j as int).map_values(
                    |t: Seq<char>| unquote(t),
                ),
            decreases ws.len() - j,
        {
            let u = unquote_exec(&ws[j]);
            proof {
                assert(views(out@.push(u)) =~= views(out@).push(u@));
                assert(views(ws@).take(j as int + 1).map_values(|t: Seq<char>| unquote(t))
                    =~= views(ws@).take(j as int).map_values(|t: Seq<char>| unquote(t)).push(
                    unquote(views(ws@)[j as int]),
                ));
            }
            out.push(u);
            j = j + 1;
        }
        proof {
            assert(views(ws@).take(ws@.len() as int) =~= views(ws@));
        }
        i = i + 1;
    }
    assert(views(chunks@).take(chunks@.len() as int) =~= views(chunks@));
    out
}

/// The tags a note declares in its front matter, in normal form.
pub open spec fn tags_in_content(content: Seq<char>) -> Seq<Seq<char>> {
    match frontmatter_of(content) {
        None => Seq::<Seq<char>>::empty(),
        Some((fm, _)) => match tags_value(fm) {
            None => Seq::<Seq<char>>::empty(),
            Some(v) => normal_tags(value_tokens(v)),
        },
    }
}

/// The raw tag tokens of a note's `tags:` line, if it has one.
pub open spec fn declared_tokens(content: Seq<char>) -> Option<Seq<Seq<char>>> {
    match frontmatter_of(content) {
        None => None,
        Some((fm, _)) => match tags_value(fm) {
            None => None,
            Some(v) => Some(value_tokens(v)),
        },
    }
}

/// The raw tag tokens a note declares, before normalisation.
pub fn declared_tag_tokens(content: &Vec<char>) -> (r: Option<Vec<Vec<char>>>)
    ensures
        match r {
            Some(t) => declared_tokens(content@) == Some(views(t@)),
            None => declared_tokens(content@) is None,
        },
{
    match frontmatter_chars(content) {
        None => None,
        Some((fm, _body)) => match tags_value_exec(&fm) {
            None => None,
            Some(v) => Some(value_tokens_exec(&v)),
        },
    }
}

pub fn read_tags_from_markdown(content: &str) -> (r: Vec<String>)
    ensures
        strs(r@) == tags_in_content(content@),
{
    match declared_tag_tokens(&chars_of(content)) {
        None => Vec::new(),
        Some(tokens) => strings_of(&normalize_tags_chars(&tokens)),
    }
}

/// `tags: [a, b]`.
pub open spec fn tags_line(tags: Seq<Seq<char>>) -> Seq<char> {
    seq!['t', 'a', 'g', 's', ':', ' ', '['] + join(tags, seq![',', ' ']) + seq![']']
}

pub open spec fn drop_tags_lines(ls: Seq<Seq<char>>) -> Seq<Seq<char>>
    decreases ls.len(),
{
    if ls.len() == 0 {
        ls
    } else if is_tags_line(ls.last()) {
        drop_tags_lines(ls.drop_last())
    } else {
        drop_tags_lines(ls.drop_last()).push(ls.last())
    }
}

/// A note with its front matter's `tags:` lines replaced by one line for
/// `tags` (none when `tags` is empty); the front matter is dropped when
/// nothing is left in it.
pub open spec fn with_tags(content: Seq<char>, tags: Seq<Seq<char>>) -> Seq<char> {
    let (fm_lines, body) = match frontmatter_of(content) {
        Some((fm, b)) => (lines(fm), b),
        None => (Seq::<Seq<char>>::empty(), crlf_to_lf(content)),
    };
    let kept = drop_tags_lines(fm_lines);
    let all = if tags.len() > 0 {
        kept.push(tags_line(tags))
    } else {
        kept
    };
    if all.len() == 0 {
        body
    } else {
        dashes() + newline() + join(all, newline()) + newline() + dashes() + newline() + body
    }
}

pub fn tags_line_chars(tags: &Vec<Vec<char>>) -> (r: Vec<char>)
    ensures
        r@ == tags_line(views(tags@)),
{
    let mut r: Vec<char> = Vec::new();
    r.push('t');
    r.push('a');
    r.push('g');
    r.push('s');
    r.push(':');
    r.push(' ');
    r.push('[');
    let mut sep: Vec<char> = Vec::new();
    sep.push(',');
    sep.push(' ');
    assert(sep@ =~= seq![',', ' ']);
    let j = join_with(tags, &sep);
    push_all(&mut r, &j);
    r.push(']');
    assert(r@ =~= tags_line(views(tags@)));
    r
}

pub fn with_tags_chars(content: &Vec<char>, tags: &Vec<Vec<char>>) -> (r: Vec<char>)
    ensures
        r@ == with_tags(content@, views(tags@)),
{
    let (fm_lines, body) = match frontmatter_chars(content) {
        Some((fm, b)) => (lines_of(&fm), b),
        None => (Vec::new(), crlf_to_lf_exec(content)),
    };
    proof {
        if frontmatter_of(content@) is None {
            assert(views(fm_lines@) =~= Seq::<Seq<char>>::empty());
        }
    }
    let mut kept: Vec<Vec<char>> = Vec::new();
    let key = tags_key_chars();
    let mut i: usize = 0;
    while i < fm_lines.len()
        invariant
            i <= fm_lines.len(),
            key@ == tags_key(),
            views(kept@) == drop_tags_lines(views(fm_lines@).take(i as int)),
        decreases fm_lines.len() - i,
    {
        proof {
            let lv = views(fm_lines@);
            assert(lv.take(i as int + 1).drop_last() =~= lv.take(i as int));
            assert(lv.take(i as int + 1).last() == fm_lines@[i as int]@);
        }
        let t = trim_whitespace(&fm_lines[i]);
        if !starts_with_exec(&t, &key) {
            let l = fm_lines[i].clone();
            proof {
                assert(l@ =~= fm_lines@[i as int]@);
                assert(views(kept@.push(l)) =~= views(kept@).push(l@));
            }
            kept.push(l);
        }
        i = i + 1;
    }
    assert(views(fm_lines@).take(fm_lines@.len() as int) =~= views(fm_lines@));
    if tags.len() > 0 {
        let line = tags_line_chars(tags);
        proof {
            assert(views(kept@.push(line)) =~= views(kept@).push(line@));
        }
        kept.push(line);
    }
    if kept.len() == 0 {
        return body;
    }
    let nl = newline_chars();
    let mut out = dashes_chars();
    out.push('\n');
    let joined = join_with(&kept, &nl);
    push_all(&mut out, &joined);
    out.push('\n');
    out.push('-');
    out.push('-');
    out.push('-');
    out.push('\n');
    push_all(&mut out, &body);
    assert(out@ =~= dashes() + newline() + join(views(kept@), newline()) + newline() + dashes()
        + newline() + body@);
    out
}

/// Sets the `tags:` of a note's front matter to the normal form of `tags`.
pub fn write_tags_to_markdown(content: &str, tags: &Vec<String>) -> (r: String)
    ensures
        r@ == with_tags(content@, normal_tags(strs(tags@))),
{
    let normalized = normalize_tags_chars(&chars_of_strings(tags));
    string_of(&with_tags_chars(&chars_of(content), &normalized))
}

// ---------------------------------------------------------------------------
// What a title read from the front matter looks like
// ---------------------------------------------------------------------------

/// What trimming by a set leaves does not start or end with a character of
/// the set.
proof fn lemma_trim_ends(s: Seq<char>, cs: CharSet)
    ensures
        trim(s, cs).len() > 0 ==> !set_has(cs, trim(s, cs)[0]) && !set_has(cs, trim(s, cs).last()),
{
    lemma_lead_bound(s, cs);
    let a = lead(s, cs) as int;
    let u = s.skip(a);
    lemma_trail_bound(u, cs);
    let b = u.len() - trail(u, cs);
    if b > 0 {
        assert(trim(s, cs)[0] == u[0]);
        assert(u[0] == s[a]);
        assert(trim(s, cs).last() == u[b - 1]);
    }
}

/// A title found among lines is not empty and has no single quote at
/// either end.
proof fn lemma_title_in_shape(ls: Seq<Seq<char>>, i: int)
    ensures
        title_in(ls, i) matches Some(t) ==> t.len() > 0 && t[0] != '\'' && t.last() != '\'',
    decreases ls.len() - i,
{
    if 0 <= i < ls.len() {
        let line = trim_ws(ls[i]);
        let v = line.skip(6);
        lemma_trim_ends(trim(trim_ws(v), CharSet::Only('"')), CharSet::Only('\''));
        lemma_title_in_shape(ls, i + 1);
    }
}

/// A note's title, when it declares one, is not empty and has no single
/// quote at either end: quotes around the value are not part of it.
pub proof fn lemma_title_unquoted(content: Seq<char>)
    ensures
        title_of_content(content) matches Some(t) ==> t.len() > 0 && t[0] != '\'' && t.last() != '\'',
{
    let trimmed = trim_start(content, CharSet::Whitespace);
    let body = trimmed.skip(3);
    match match_from(body, fence_marker(), 0) {
        Some(end) => lemma_title_in_shape(lines(body.take(end)), 0),
        None => {},
    }
}

/// A title value without quotes or whitespace at its ends.
pub open spec fn bare_title(x: Seq<char>) -> bool {
    &&& x.len() > 0
    &&& !is_ws(x[0]) && x[0] != '"' && x[0] != '\''
    &&& !is_ws(x.last()) && x.last() != '"' && x.last() != '\''
}

/// `x` between two `q`s, trimmed of `q`, is `x` again.
proof fn lemma_trim_quotes(x: Seq<char>, q: char)
    requires
        x.len() > 0,
        x[0] != q,
        x.last() != q,
    ensures
        trim(seq![q] + x + seq![q], CharSet::Only(q)) == x,
{
    let cs = CharSet::Only(q);
    let w = seq![q] + x + seq![q];
    assert(w[1] == x[0]);
    lemma_lead_exact(w, cs, 1);
    let u = w.skip(1);
    assert(u =~= x.push(q));
    assert(u[u.len() - 2] == x.last());
    lemma_trail_exact(u, cs, 1);
    assert(u.take(u.len() - 1) =~= x);
}

/// `title: X`, `title: "X"` and `title: 'X'` as line `i` of a front
/// matter read as the same title (for a bare value `X`).
proof fn lemma_title_line_value(x: Seq<char>, q: Option<char>)
    requires
        bare_title(x),
        q matches Some(c) ==> c == '"' || c == '\'',
    ensures
        ({
            let v = match q {
                Some(c) => seq![c] + x + seq![c],
                None => x,
            };
            let line = title_key() + seq![' '] + v;
            &&& trim_ws(line) == line
            &&& starts_with(line, title_key())
            &&& unquote(line.skip(6)) == x
        }),
{
    let v = match q {
        Some(c) => seq![c] + x + seq![c],
        None => x,
    };
    let line = title_key() + seq![' '] + v;
    assert(v.len() > 0);
    assert(v.last() == x.last() || v.last() == '"' || v.last() == '\'');
    assert(line[0] == 't');
    assert(line.last() == v.last());
    lemma_trim_noop(line, CharSet::Whitespace);
    assert(line.take(6) =~= title_key());
    let rest = line.skip(6);
    assert(rest =~= seq![' '] + v);
    assert(rest[1] == v[0]);
    lemma_lead_exact(rest, CharSet::Whitespace, 1);
    assert(rest.skip(1) =~= v);
    assert(v[0] == x[0] || v[0] == '"' || v[0] == '\'');
    lemma_trail_exact(v, CharSet::Whitespace, 0);
    assert(v.take(v.len() as int) =~= v);
    assert(trim_ws(rest) == v);
    match q {
        Some(c) => {
            if c == '"' {
                lemma_trim_quotes(x, '"');
                lemma_trim_noop(x, CharSet::Only('\''));
            } else {
                lemma_trim_noop(v, CharSet::Only('"'));
                lemma_trim_quotes(x, '\'');
            }
        },
        None => {
            lemma_trim_noop(x, CharSet::Only('"'));
            lemma_trim_noop(x, CharSet::Only('\''));
        },
    }
}

proof fn lemma_title_in_found(ls: Seq<Seq<char>>, i: int, j: int)
    requires
        0 <= j <= i,
        title_in(ls, i) is Some,
    ensures
        title_in(ls, j) is Some,
    decreases i - j,
{
    if j < i {
        lemma_title_in_found(ls, i, j + 1);
    }
}

proof fn lemma_title_in_same_before(l1: Seq<Seq<char>>, l2: Seq<Seq<char>>, i: int, j: int)
    requires
        0 <= j <= i < l1.len(),
        l1.len() == l2.len(),
        forall|k: int| 0 <= k < i ==> l1[k] == l2[k],
        title_in(l1, i) == title_in(l2, i),
    ensures
        title_in(l1, j) == title_in(l2, j),
    decreases i - j,
{
    if j < i {
        lemma_title_in_same_before(l1, l2, i, j + 1);
        assert(l1[j] == l2[j]);
    }
}

/// Quotes around a title do not change it: a front matter line
/// `title: "X"` or `title: 'X'` reads as the same title as `title: X`,
/// wherever the line stands among the others.
pub proof fn lemma_title_quotes_ignored(ls: Seq<Seq<char>>, i: int, x: Seq<char>)
    requires
        0 <= i < ls.len(),
        bare_title(x),
    ensures
        title_in(ls.update(i, title_key() + seq![' ', '"'] + x + seq!['"']), 0) == title_in(
            ls.update(i, title_key() + seq![' '] + x),
            0,
        ),
        title_in(ls.update(i, title_key() + seq![' ', '\''] + x + seq!['\'']), 0) == title_in(
            ls.update(i, title_key() + seq![' '] + x),
            0,
        ),
        title_in(ls.update(i, title_key() + seq![' '] + x), 0) matches Some(t) && t.len() > 0,
{
    let plain = ls.update(i, title_key() + seq![' '] + x);
    let dq = ls.update(i, title_key() + seq![' ', '"'] + x + seq!['"']);
    let sq = ls.update(i, title_key() + seq![' ', '\''] + x + seq!['\'']);
    lemma_title_line_value(x, None);
    lemma_title_line_value(x, Some('"'));
    lemma_title_line_value(x, Some('\''));
    assert(plain[i] == title_key() + seq![' '] + x);
    assert(dq[i] == title_key() + seq![' '] + (seq!['"'] + x + seq!['"']));
    assert(title_key() + seq![' ', '"'] + x + seq!['"'] =~= title_key() + seq![' '] + (seq!['"'] + x + seq!['"']));
    assert(title_key() + seq![' ', '\''] + x + seq!['\''] =~= title_key() + seq![' '] + (seq!['\''] + x + seq!['\'']));
    assert(title_in(plain, i) == Some(x));
    assert(title_in(dq, i) == Some(x));
    assert(title_in(sq, i) == Some(x));
    assert forall|k: int| 0 <= k < i implies dq[k] == plain[k] && sq[k] == plain[k] by {}
    lemma_title_in_same_before(dq, plain, i, 0);
    lemma_title_in_same_before(sq, plain, i, 0);
    lemma_title_in_found(plain, i, 0);
    lemma_title_in_shape(plain, 0);
}

/// A note that opens with a front matter whose first line is
/// `title: ` and a value reads that value's title.
proof fn lemma_title_of_first_line(v: Seq<char>, x: Seq<char>, rest: Seq<char>)
    requires
        forall|k: int| 0 <= k < v.len() ==> #[trigger] v[k] != '\n',
        ({
            let line = title_key() + seq![' '] + v;
            &&& trim_ws(line) == line
            &&& starts_with(line, title_key())
            &&& unquote(line.skip(6)) == x
        }),
        x.len() > 0,
    ensures
        title_of_content(dashes() + seq!['\n'] + title_key() + seq![' '] + v + fence_marker() + rest) == Some(x),
{
    let line = title_key() + seq![' '] + v;
    let c = dashes() + seq!['\n'] + title_key() + seq![' '] + v + fence_marker() + rest;
    assert(c =~= dashes() + (seq!['\n'] + line + fence_marker() + rest));
    assert(c[0] == '-');
    lemma_lead_exact(c, CharSet::Whitespace, 0);
    assert(c.skip(0) =~= c);
    assert(trim_start(c, CharSet::Whitespace) == c);
    assert(c.take(3) =~= dashes());
    let body = c.skip(3);
    assert(body =~= seq!['\n'] + line + fence_marker() + rest);
    assert forall|k: int| 0 <= k < line.len() implies #[trigger] line[k] != '\n' by {
        if k >= 7 {
            assert(line[k] == v[k - 7]);
        }
    }
    let m = fence_marker();
    let at: int = line.len() as int + 1;
    assert(body.subrange(at, at + 4) =~= m);
    assert forall|j: int| 0 <= j < at implies !crate::text::matches_at(body, m, j) by {
        if j == 0 {
            assert(body[1] == line[0]);
            assert(body.subrange(0, 4)[1] == body[1]);
        } else {
            assert(body[j] == line[j - 1]);
            if j + 4 <= body.len() {
                assert(body.subrange(j, j + 4)[0] == body[j]);
            }
        }
    }
    crate::text::lemma_match_from_found(body, m, 0, at);
    let head = body.take(at);
    assert(head =~= seq!['\n'] + line);
    let e = Seq::<char>::empty();
    assert(head =~= e.push('\n') + line);
    crate::tag_laws::lemma_split_at_sep(e, '\n', line, CharSet::Only('\n'));
    assert forall|k: int| 0 <= k < line.len() implies !crate::text::set_has(CharSet::Only('\n'), #[trigger] line[k]) by {}
    crate::tag_laws::lemma_split_plain(line, CharSet::Only('\n'));
    crate::tag_laws::lemma_split_plain(e, CharSet::Only('\n'));
    let parts = split(head, CharSet::Only('\n'));
    assert(parts =~= seq![e, line]);
    let ls = lines(head);
    assert(line.len() > 0);
    assert(ls =~= seq![e, line]);
    assert(trim_ws(e).len() == 0) by {
        lemma_trim_noop(e, CharSet::Whitespace);
    }
    assert(!starts_with(trim_ws(ls[0]), title_key()));
    assert(title_in(ls, 1) == Some(x));
}

/// Quotes around a title do not change it, read from a whole note: a note
/// opening with the front matter line `title: "X"` or `title: 'X'` has the
/// title `X`, as one with `title: X` does, whatever follows the fence.
pub proof fn lemma_note_title_ignores_quotes(x: Seq<char>, rest: Seq<char>)
    requires
        bare_title(x),
        forall|k: int| 0 <= k < x.len() ==> #[trigger] x[k] != '\n',
    ensures
        title_of_content(dashes() + seq!['\n'] + title_key() + seq![' '] + x + fence_marker() + rest) == Some(x),
        title_of_content(dashes() + seq!['\n'] + title_key() + seq![' '] + (seq!['"'] + x + seq!['"'])
            + fence_marker() + rest) == Some(x),
        title_of_content(dashes() + seq!['\n'] + title_key() + seq![' '] + (seq!['\''] + x + seq!['\''])
            + fence_marker() + rest) == Some(x),
{
    lemma_title_line_value(x, None);
    lemma_title_line_value(x, Some('"'));
    lemma_title_line_value(x, Some('\''));
    let dq = seq!['"'] + x + seq!['"'];
    let sq = seq!['\''] + x + seq!['\''];
    assert forall|k: int| 0 <= k < dq.len() implies #[trigger] dq[k] != '\n' by {
        if 0 < k < dq.len() - 1 {
            assert(dq[k] == x[k - 1]);
        }
    }
    assert forall|k: int| 0 <= k < sq.len() implies #[trigger] sq[k] != '\n' by {
        if 0 < k < sq.len() - 1 {
            assert(sq[k] == x[k - 1]);
        }
    }
    lemma_title_of_first_line(x, x, rest);
    lemma_title_of_first_line(dq, x, rest);
    lemma_title_of_first_line(sq, x, rest);
}

} // verus!
