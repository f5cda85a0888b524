//! What holds between writing a note's tags and reading them back.
use vstd::prelude::*;
use crate::text::{
    crlf_to_lf, join, lines, split, strip_cr, set_has, trim, trim_ws, lead,
    trail, lemma_lead_exact, lemma_trail_exact, lemma_split_len, lemma_trim_noop, trimmed_nonempty, unquote, words,
    CharSet, starts_with, ends_with, lemma_lead_bound, lemma_trail_bound,
};
use crate::frontmatter::{
    dashes, newline, fence_from, frontmatter_of, tags_line,
    value_tokens, flat_tokens, strip_brackets, is_tags_line, drop_tags_lines, with_tags,
    tags_in_content, declared_tokens, lemma_fence_from, lemma_tags_line_from, tags_key,
};
use crate::storage::{joined_tags, stored_tags_in};
use crate::index::{tags_of_input, normal_tags, is_tag, tag_char, lemma_normal_tags_canonical, lemma_normal_tags_fixed};

verus! {

/// `s` holds no character `c`.
pub open spec fn free_of(s: Seq<char>, c: char) -> bool {
    forall|i: int| 0 <= i < s.len() ==> #[trigger] s[i] != c
}

/// A line the way it may stand between the fences of a front matter.
pub open spec fn plain_line(l: Seq<char>) -> bool {
    free_of(l, '\n') && free_of(l, '\r')
}


pub(crate) proof fn lemma_split_plain(s: Seq<char>, cs: CharSet)
    requires
        forall|i: int| 0 <= i < s.len() ==> !set_has(cs, #[trigger] s[i]),
    ensures
        split(s, cs) == seq![s],
    decreases s.len(),
{
    if s.len() == 0 {
        assert(s =~= Seq::<char>::empty());
        assert(split(s, cs) =~= seq![s]);
    } else {
        let d = s.drop_last();
        assert forall|i: int| 0 <= i < d.len() implies !set_has(cs, #[trigger] d[i]) by {
            assert(d[i] == s[i]);
        }
        lemma_split_plain(d, cs);
        assert(!set_has(cs, s[s.len() - 1]));
        assert(d.push(s.last()) =~= s);
        assert(seq![d].update(0, d.push(s.last())) =~= seq![s]);
    }
}

/// Splitting at a separator splits the two sides apart.
pub(crate) proof fn lemma_split_at_sep(a: Seq<char>, c: char, b: Seq<char>, cs: CharSet)
    requires
        set_has(cs, c),
    ensures
        split(a.push(c) + b, cs) == split(a, cs) + split(b, cs),
    decreases b.len(),
{
    if b.len() == 0 {
        assert(a.push(c) + b =~= a.push(c));
        assert(a.push(c).drop_last() =~= a);
        assert(split(b, cs) =~= seq![Seq::<char>::empty()]);
        assert(split(a, cs).push(Seq::<char>::empty()) =~= split(a, cs) + seq![
            Seq::<char>::empty(),
        ]);
    } else {
        let b0 = b.drop_last();
        let x = b.last();
        lemma_split_at_sep(a, c, b0, cs);
        let s = a.push(c) + b;
        assert(s.drop_last() =~= a.push(c) + b0);
        assert(s.last() == x);
        lemma_split_len(b0, cs);
        let p = split(a, cs);
        let q = split(b0, cs);
        if set_has(cs, x) {
            assert((p + q).push(Seq::<char>::empty()) =~= p + q.push(Seq::<char>::empty()));
        } else {
            assert((p + q).update((p + q).len() - 1, (p + q).last().push(x)) =~= p + q.update(
                q.len() - 1,
                q.last().push(x),
            ));
        }
    }
}

proof fn lemma_split_join_free(xs: Seq<Seq<char>>, c: char)
    requires
        xs.len() >= 1,
        forall|i: int| 0 <= i < xs.len() ==> free_of(#[trigger] xs[i], c),
    ensures
        split(join(xs, seq![c]), CharSet::Only(c)) == xs,
    decreases xs.len(),
{
    if xs.len() == 1 {
        assert(free_of(xs[0], c));
        lemma_split_plain(xs[0], CharSet::Only(c));
        assert(seq![xs[0]] =~= xs);
    } else {
        let d = xs.drop_last();
        assert forall|i: int| 0 <= i < d.len() implies free_of(#[trigger] d[i], c) by {
            assert(d[i] == xs[i]);
        }
        lemma_split_join_free(d, c);
        assert(free_of(xs[xs.len() - 1], c));
        lemma_split_plain(xs.last(), CharSet::Only(c));
        assert(join(xs, seq![c]) =~= join(d, seq![c]).push(c) + xs.last());
        lemma_split_at_sep(join(d, seq![c]), c, xs.last(), CharSet::Only(c));
        assert(d + seq![xs.last()] =~= xs);
    }
}

proof fn lemma_join_free(xs: Seq<Seq<char>>, sep: Seq<char>, c: char)
    requires
        free_of(sep, c),
        forall|i: int| 0 <= i < xs.len() ==> free_of(#[trigger] xs[i], c),
    ensures
        free_of(join(xs, sep), c),
    decreases xs.len(),
{
    if xs.len() == 1 {
        assert(free_of(xs[0], c));
    } else if xs.len() > 1 {
        let d = xs.drop_last();
        assert forall|i: int| 0 <= i < d.len() implies free_of(#[trigger] d[i], c) by {
            assert(d[i] == xs[i]);
        }
        lemma_join_free(d, sep, c);
        assert(free_of(xs[xs.len() - 1], c));
        let j = join(d, sep);
        let all = j + sep + xs.last();
        assert forall|i: int| 0 <= i < all.len() implies #[trigger] all[i] != c by {
            if i < j.len() {
                assert(all[i] == j[i]);
            } else if i < j.len() + sep.len() {
                assert(all[i] == sep[i - j.len()]);
            } else {
                assert(all[i] == xs.last()[i - j.len() - sep.len()]);
            }
        }
    }
}





proof fn lemma_fence_from_bound(ls: Seq<Seq<char>>, i: int)
    requires
        0 <= i,
    ensures
        fence_from(ls, i) >= i || fence_from(ls, i) == ls.len(),
        forall|j: int| i <= j < fence_from(ls, i) ==> trim_ws(#[trigger] ls[j]) != dashes(),
    decreases ls.len() - i,
{
    if i < ls.len() && trim_ws(ls[i]) != dashes() {
        lemma_fence_from_bound(ls, i + 1);
    }
}

proof fn lemma_drop_tags_lines(ls: Seq<Seq<char>>)
    ensures
        forall|j: int|
            0 <= j < drop_tags_lines(ls).len() ==> !is_tags_line(#[trigger] drop_tags_lines(ls)[j])
                && ls.contains(drop_tags_lines(ls)[j]),
    decreases ls.len(),
{
    if ls.len() > 0 {
        let d = ls.drop_last();
        lemma_drop_tags_lines(d);
        let r = drop_tags_lines(ls);
        let q = drop_tags_lines(d);
        assert forall|j: int| 0 <= j < r.len() implies !is_tags_line(#[trigger] r[j]) && ls.contains(
            r[j],
        ) by {
            if j < q.len() {
                assert(r[j] == q[j]);
                let k = choose|k: int| 0 <= k < d.len() && d[k] == q[j];
                assert(ls[k] == d[k]);
            } else {
                assert(r[j] == ls.last());
                assert(ls[ls.len() - 1] == ls.last());
            }
        }
    }
}

proof fn lemma_trim_one_lead(s: Seq<char>, cs: CharSet)
    requires
        s.len() >= 2,
        set_has(cs, s[0]),
        !set_has(cs, s[1]),
        !set_has(cs, s.last()),
    ensures
        trim(s, cs) == s.skip(1),
{
    lemma_lead_exact(s, cs, 1);
    let t = s.skip(1);
    assert(t[0] == s[1]);
    assert(t.last() == s.last());
    lemma_trail_exact(t, cs, 0);
    assert(t.take(t.len() as int) =~= t);
}

/// What a tag holds: letters, digits, `-` and `_`.
proof fn lemma_tag_chars(t: Seq<char>)
    requires
        is_tag(t),
    ensures
        forall|i: int|
            0 <= i < t.len() ==> {
                &&& !set_has(CharSet::Whitespace, #[trigger] t[i])
                &&& t[i] != ',' && t[i] != '"' && t[i] != '\'' && t[i] != '\n' && t[i] != '\r'
                &&& t[i] != ']'
            },
{
    assert forall|i: int| 0 <= i < t.len() implies {
        &&& !set_has(CharSet::Whitespace, #[trigger] t[i])
        &&& t[i] != ',' && t[i] != '"' && t[i] != '\'' && t[i] != '\n' && t[i] != '\r'
        &&& t[i] != ']'
    } by {
        assert(tag_char(t[i]));
    }
}

/// The chunks that splitting `join(ts, ", ")` at commas gives: the first tag,
/// then each further tag after a space.
pub open spec fn spaced(ts: Seq<Seq<char>>) -> Seq<Seq<char>> {
    Seq::new(ts.len(), |i: int| if i == 0 { ts[0] } else { seq![' '] + ts[i] })
}

proof fn lemma_split_tag_list(ts: Seq<Seq<char>>)
    requires
        ts.len() >= 1,
        forall|i: int| 0 <= i < ts.len() ==> is_tag(#[trigger] ts[i]),
    ensures
        split(join(ts, seq![',', ' ']), CharSet::Only(',')) == spaced(ts),
    decreases ts.len(),
{
    let last = ts.last();
    assert(is_tag(ts[ts.len() - 1]));
    lemma_tag_chars(last);
    if ts.len() == 1 {
        lemma_split_plain(ts[0], CharSet::Only(','));
        assert(spaced(ts) =~= seq![ts[0]]);
    } else {
        let d = ts.drop_last();
        assert forall|i: int| 0 <= i < d.len() implies is_tag(#[trigger] d[i]) by {
            assert(d[i] == ts[i]);
        }
        lemma_split_tag_list(d);
        let tail = seq![' '] + last;
        assert forall|i: int| 0 <= i < tail.len() implies !set_has(
            CharSet::Only(','),
            #[trigger] tail[i],
        ) by {
            if i > 0 {
                assert(tail[i] == last[i - 1]);
            }
        }
        lemma_split_plain(tail, CharSet::Only(','));
        assert(join(ts, seq![',', ' ']) =~= join(d, seq![',', ' ']).push(',') + tail);
        lemma_split_at_sep(join(d, seq![',', ' ']), ',', tail, CharSet::Only(','));
        assert(spaced(d) + seq![tail] =~= spaced(ts));
    }
}

proof fn lemma_tag_token(t: Seq<char>)
    requires
        is_tag(t),
    ensures
        words(t) == seq![t],
        words(seq![' '] + t) == seq![t],
        unquote(t) == t,
{
    lemma_tag_chars(t);
    assert(t.len() > 0);
    assert(!set_has(CharSet::Whitespace, t[0]));
    assert(!set_has(CharSet::Whitespace, t[t.len() - 1]));
    assert(t[0] != '"' && t[t.len() - 1] != '"');
    assert(t[0] != '\'' && t[t.len() - 1] != '\'');
    lemma_split_plain(t, CharSet::Whitespace);
    lemma_trim_noop(t, CharSet::Whitespace);
    assert(trimmed_nonempty(Seq::<Seq<char>>::empty()) == Seq::<Seq<char>>::empty());
    assert(seq![t].drop_last() =~= Seq::<Seq<char>>::empty());
    assert(trimmed_nonempty(seq![t]) =~= seq![t]);
    let e = Seq::<char>::empty();
    assert(seq![' '] + t =~= e.push(' ') + t);
    lemma_split_at_sep(e, ' ', t, CharSet::Whitespace);
    assert(split(e, CharSet::Whitespace) =~= seq![e]);
    let two = seq![e] + seq![t];
    assert(two.drop_last() =~= seq![e]);
    assert(seq![e].drop_last() =~= Seq::<Seq<char>>::empty());
    lemma_trim_noop(e, CharSet::Whitespace);
    assert(trimmed_nonempty(seq![e]) =~= Seq::<Seq<char>>::empty());
    assert(trimmed_nonempty(two) =~= seq![t]);
    lemma_trim_noop(t, CharSet::Only('"'));
    lemma_trim_noop(t, CharSet::Only('\''));
}

proof fn lemma_flat_spaced(ts: Seq<Seq<char>>)
    requires
        ts.len() >= 1,
        forall|i: int| 0 <= i < ts.len() ==> is_tag(#[trigger] ts[i]),
    ensures
        flat_tokens(spaced(ts)) == ts,
    decreases ts.len(),
{
    let sp = spaced(ts);
    assert(flat_tokens(Seq::<Seq<char>>::empty()) == Seq::<Seq<char>>::empty());
    assert(is_tag(ts[ts.len() - 1]));
    lemma_tag_token(ts.last());
    if ts.len() == 1 {
        assert(sp.drop_last() =~= Seq::<Seq<char>>::empty());
        assert(sp.last() == ts[0]);
        assert(seq![ts[0]].map_values(|t: Seq<char>| unquote(t)) =~= seq![ts[0]]);
        assert(Seq::<Seq<char>>::empty() + seq![ts[0]] =~= ts);
    } else {
        let d = ts.drop_last();
        assert forall|i: int| 0 <= i < d.len() implies is_tag(#[trigger] d[i]) by {
            assert(d[i] == ts[i]);
        }
        lemma_flat_spaced(d);
        assert(sp.drop_last() =~= spaced(d));
        assert(sp.last() == seq![' '] + ts.last());
        assert(seq![ts.last()].map_values(|t: Seq<char>| unquote(t)) =~= seq![ts.last()]);
        assert(d + seq![ts.last()] =~= ts);
    }
}

/// The tokens of the value of a `tags:` line that lists tags in normal form
/// are those tags.
proof fn lemma_tags_line_value(ts: Seq<Seq<char>>)
    requires
        ts.len() >= 1,
        forall|i: int| 0 <= i < ts.len() ==> is_tag(#[trigger] ts[i]),
    ensures
        value_tokens(trim_ws(trim_ws(tags_line(ts)).skip(5))) == ts,
{
    let tl = tags_line(ts);
    let j = join(ts, seq![',', ' ']);
    let pre = seq!['t', 'a', 'g', 's', ':', ' ', '['];
    assert(tl == pre + j + seq![']']);
    assert(tl[0] == 't');
    assert(tl.last() == ']');
    lemma_trim_noop(tl, CharSet::Whitespace);
    let v0 = tl.skip(5);
    assert(v0 =~= seq![' ', '['] + j + seq![']']);
    assert(v0[0] == ' ');
    assert(v0[1] == '[');
    assert(v0.last() == ']');
    lemma_trim_one_lead(v0, CharSet::Whitespace);
    let v = v0.skip(1);
    assert(v =~= seq!['['] + j + seq![']']);
    assert(v[0] == '[' && v.last() == ']');
    lemma_trim_noop(v, CharSet::Whitespace);
    assert(strip_brackets(v) =~= j);
    lemma_split_tag_list(ts);
    lemma_flat_spaced(ts);
}

/// The front matter lines and the body that `with_tags` starts from.
pub open spec fn fm_parts(content: Seq<char>) -> (Seq<Seq<char>>, Seq<char>) {
    match frontmatter_of(content) {
        Some((fm, b)) => (lines(fm), b),
        None => (Seq::<Seq<char>>::empty(), crlf_to_lf(content)),
    }
}

/// `lines` between fences, then `body`.
pub open spec fn fenced(ls: Seq<Seq<char>>, body: Seq<char>) -> Seq<char> {
    dashes() + newline() + join(ls, newline()) + newline() + dashes() + newline() + body
}



/// The `tags:` line for tags in normal form.
proof fn lemma_tags_line_shape(ts: Seq<Seq<char>>)
    requires
        ts.len() >= 1,
        forall|i: int| 0 <= i < ts.len() ==> is_tag(#[trigger] ts[i]),
    ensures
        plain_line(tags_line(ts)),
        trim_ws(tags_line(ts)) != dashes(),
        is_tags_line(tags_line(ts)),
        tags_line(ts).len() > 0,
{
    let tl = tags_line(ts);
    let j = join(ts, seq![',', ' ']);
    assert forall|i: int| 0 <= i < ts.len() implies free_of(#[trigger] ts[i], '\n') && free_of(
        ts[i],
        '\r',
    ) by {
        lemma_tag_chars(ts[i]);
    }
    lemma_join_free(ts, seq![',', ' '], '\n');
    lemma_join_free(ts, seq![',', ' '], '\r');
    let pre = seq!['t', 'a', 'g', 's', ':', ' ', '['];
    assert(tl == pre + j + seq![']']);
    assert forall|i: int| 0 <= i < tl.len() implies #[trigger] tl[i] != '\n' && tl[i] != '\r' by {
        if 7 <= i < 7 + j.len() {
            assert(tl[i] == j[i - 7]);
        }
    }
    assert(tl[0] == 't' && tl.last() == ']');
    lemma_trim_noop(tl, CharSet::Whitespace);
    assert(trim_ws(tl)[0] == 't');
    assert(tl.take(5) =~= tags_key());
}


// ---------------------------------------------------------------------------
// Reading back a note whatever its carriage returns
// ---------------------------------------------------------------------------

/// `tail` after the lines `xs`, each followed by a newline.
pub open spec fn lines_then(xs: Seq<Seq<char>>, tail: Seq<char>) -> Seq<char>
    decreases xs.len(),
{
    if xs.len() == 0 {
        tail
    } else {
        lines_then(xs.drop_last(), xs.last().push('\n') + tail)
    }
}

/// The lines `xs` with one trailing carriage return taken off each.
pub open spec fn strip_crs(xs: Seq<Seq<char>>) -> Seq<Seq<char>> {
    xs.map_values(|l: Seq<char>| strip_cr(l))
}

/// A line followed by a newline loses the carriage return before that
/// newline.
proof fn lemma_crlf_line(l: Seq<char>, rest: Seq<char>)
    requires
        free_of(l, '\n'),
    ensures
        crlf_to_lf(l.push('\n') + rest) == strip_cr(l).push('\n') + crlf_to_lf(rest),
    decreases l.len(),
{
    let s = l.push('\n') + rest;
    if l.len() == 0 {
        assert(s[0] == '\n');
        if s.len() >= 2 {
            assert(s.drop_first() =~= rest);
        } else {
            assert(rest.len() == 0);
            assert(crlf_to_lf(rest) =~= rest);
        }
        assert(strip_cr(l).push('\n') + crlf_to_lf(rest) =~= seq!['\n'] + crlf_to_lf(rest));
        if s.len() < 2 {
            assert(s =~= seq!['\n']);
        }
    } else if l.len() == 1 && l[0] == '\r' {
        assert(s[0] == '\r' && s[1] == '\n');
        assert(s.skip(2) =~= rest);
        assert(strip_cr(l) =~= Seq::<char>::empty());
        assert(strip_cr(l).push('\n') + crlf_to_lf(rest) =~= seq!['\n'] + crlf_to_lf(rest));
    } else {
        let t = l.drop_first();
        assert(free_of(t, '\n')) by {
            assert forall|i: int| 0 <= i < t.len() implies #[trigger] t[i] != '\n' by {
                assert(t[i] == l[i + 1]);
            }
        }
        assert(s[0] == l[0]);
        assert(l.len() >= 2 ==> s[1] == l[1] && l[1] != '\n');
        assert(s.drop_first() =~= t.push('\n') + rest);
        lemma_crlf_line(t, rest);
        assert(l[0] != '\r' || s[1] != '\n');
        assert(strip_cr(l) =~= seq![l[0]] + strip_cr(t));
        assert(strip_cr(l).push('\n') + crlf_to_lf(rest) =~= seq![l[0]] + (strip_cr(t).push('\n')
            + crlf_to_lf(rest)));
    }
}

proof fn lemma_crlf_lines_then(xs: Seq<Seq<char>>, tail: Seq<char>)
    requires
        forall|i: int| 0 <= i < xs.len() ==> free_of(#[trigger] xs[i], '\n'),
    ensures
        crlf_to_lf(lines_then(xs, tail)) == lines_then(strip_crs(xs), crlf_to_lf(tail)),
    decreases xs.len(),
{
    if xs.len() > 0 {
        let d = xs.drop_last();
        assert forall|i: int| 0 <= i < d.len() implies free_of(#[trigger] d[i], '\n') by {
            assert(d[i] == xs[i]);
        }
        assert(free_of(xs[xs.len() - 1], '\n'));
        lemma_crlf_lines_then(d, xs.last().push('\n') + tail);
        lemma_crlf_line(xs.last(), tail);
        assert(strip_crs(xs).drop_last() =~= strip_crs(d));
        assert(strip_crs(xs).last() == strip_cr(xs.last()));
    }
}

proof fn lemma_split_lines_then(xs: Seq<Seq<char>>, tail: Seq<char>)
    requires
        forall|i: int| 0 <= i < xs.len() ==> free_of(#[trigger] xs[i], '\n'),
    ensures
        split(lines_then(xs, tail), CharSet::Only('\n')) == xs + split(tail, CharSet::Only('\n')),
    decreases xs.len(),
{
    let cs = CharSet::Only('\n');
    if xs.len() == 0 {
        assert(xs + split(tail, cs) =~= split(tail, cs));
    } else {
        let d = xs.drop_last();
        let l = xs.last();
        assert forall|i: int| 0 <= i < d.len() implies free_of(#[trigger] d[i], '\n') by {
            assert(d[i] == xs[i]);
        }
        lemma_split_lines_then(d, l.push('\n') + tail);
        assert(free_of(xs[xs.len() - 1], '\n'));
        assert forall|i: int| 0 <= i < l.len() implies !set_has(cs, #[trigger] l[i]) by {}
        lemma_split_plain(l, cs);
        lemma_split_at_sep(l, '\n', tail, cs);
        assert(d + (seq![l] + split(tail, cs)) =~= xs + split(tail, cs));
    }
}

/// Lines and the newlines after them, then a tail: each line comes back,
/// less a trailing carriage return.
proof fn lemma_lines_of_lines_then(xs: Seq<Seq<char>>, tail: Seq<char>)
    requires
        forall|i: int| 0 <= i < xs.len() ==> free_of(#[trigger] xs[i], '\n'),
    ensures
        lines(lines_then(xs, tail)).len() >= xs.len(),
        forall|i: int| 0 <= i < xs.len() ==> #[trigger] lines(lines_then(xs, tail))[i] == strip_cr(xs[i]),
{
    lemma_split_lines_then(xs, tail);
    lemma_split_len(tail, CharSet::Only('\n'));
    let p = xs + split(tail, CharSet::Only('\n'));
    assert forall|i: int| 0 <= i < xs.len() implies #[trigger] lines(lines_then(xs, tail))[i] == strip_cr(
        xs[i],
    ) by {
        assert(p[i] == xs[i]);
        assert(p.drop_last()[i] == xs[i]);
    }
}

proof fn lemma_fenced_lines_then(ls: Seq<Seq<char>>, body: Seq<char>)
    requires
        ls.len() >= 1,
    ensures
        fenced(ls, body) == lines_then(seq![dashes()] + ls + seq![dashes()], body),
{
    lemma_join_lines_then(ls, dashes().push('\n') + body);
    let ys = seq![dashes()] + ls + seq![dashes()];
    assert(ys.drop_last() =~= seq![dashes()] + ls);
    assert(ys.last() == dashes());
    lemma_lines_then_front(seq![dashes()], ls, dashes().push('\n') + body);
    assert(fenced(ls, body) =~= dashes().push('\n') + (join(ls, newline()).push('\n') + (dashes().push('\n')
        + body)));
    assert(lines_then(seq![dashes()], lines_then(ls, dashes().push('\n') + body)) =~= dashes().push('\n')
        + lines_then(ls, dashes().push('\n') + body)) by {
        let t = lines_then(ls, dashes().push('\n') + body);
        assert(seq![dashes()].drop_last() =~= Seq::<Seq<char>>::empty());
        assert(seq![dashes()].last() == dashes());
        assert(lines_then(Seq::<Seq<char>>::empty(), dashes().push('\n') + t) == dashes().push('\n') + t);
    }
}

proof fn lemma_join_lines_then(xs: Seq<Seq<char>>, tail: Seq<char>)
    requires
        xs.len() >= 1,
    ensures
        join(xs, newline()).push('\n') + tail == lines_then(xs, tail),
    decreases xs.len(),
{
    if xs.len() == 1 {
        assert(xs.drop_last() =~= Seq::<Seq<char>>::empty());
        assert(join(xs, newline()) == xs[0]);
        assert(xs.last() == xs[0]);
        assert(lines_then(Seq::<Seq<char>>::empty(), xs.last().push('\n') + tail) == xs.last().push('\n') + tail);
    } else {
        let d = xs.drop_last();
        lemma_join_lines_then(d, xs.last().push('\n') + tail);
        assert(join(xs, newline()).push('\n') + tail =~= join(d, newline()).push('\n') + (xs.last().push(
            '\n',
        ) + tail));
    }
}

/// Lines written one list after another.
proof fn lemma_lines_then_front(a: Seq<Seq<char>>, b: Seq<Seq<char>>, tail: Seq<char>)
    ensures
        lines_then(a + b, tail) == lines_then(a, lines_then(b, tail)),
    decreases b.len(),
{
    if b.len() > 0 {
        lemma_lines_then_front(a, b.drop_last(), b.last().push('\n') + tail);
        assert((a + b).drop_last() =~= a + b.drop_last());
        assert((a + b).last() == b.last());
    } else {
        assert(a + b =~= a);
    }
}

/// A carriage return at the end of a line is whitespace: trimming ignores
/// it.
proof fn lemma_trim_strip_cr(x: Seq<char>)
    ensures
        trim_ws(strip_cr(x)) == trim_ws(x),
{
    if x.len() > 0 && x.last() == '\r' {
        let y = x.drop_last();
        let cs = CharSet::Whitespace;
        lemma_lead_bound(y, cs);
        let a = lead(y, cs) as int;
        if a == y.len() {
            assert forall|j: int| 0 <= j < x.len() implies set_has(cs, #[trigger] x[j]) by {
                if j < y.len() {
                    assert(x[j] == y[j]);
                }
            }
            lemma_lead_exact(x, cs, x.len() as int);
            assert(trim_ws(x) =~= Seq::<char>::empty());
            assert(trim_ws(y) =~= Seq::<char>::empty());
        } else {
            assert forall|j: int| 0 <= j < a implies set_has(cs, #[trigger] x[j]) by {
                assert(x[j] == y[j]);
            }
            assert(x[a] == y[a]);
            lemma_lead_exact(x, cs, a);
            let u = y.skip(a);
            let v = x.skip(a);
            assert(v =~= u.push('\r'));
            lemma_trail_bound(u, cs);
            let t = trail(u, cs) as int;
            assert(u.len() - t > 0) by {
                assert(!set_has(cs, u[0]));
                if t == u.len() {
                    assert(set_has(cs, u[0]));
                }
            }
            assert forall|j: int| v.len() - (t + 1) <= j < v.len() implies set_has(cs, #[trigger] v[j]) by {
                if j < u.len() {
                    assert(v[j] == u[j]);
                }
            }
            assert(v[v.len() - (t + 1) - 1] == u[u.len() - t - 1]);
            lemma_trail_exact(v, cs, t + 1);
            assert(v.take(v.len() - (t + 1)) =~= u.take(u.len() - t));
        }
    }
}

/// The pieces of a split hold no separator.
proof fn lemma_split_no_sep(s: Seq<char>, cs: CharSet)
    ensures
        forall|i: int, j: int|
            0 <= i < split(s, cs).len() && 0 <= j < split(s, cs)[i].len() ==> !set_has(
                cs,
                #[trigger] split(s, cs)[i][j],
            ),
    decreases s.len(),
{
    if s.len() > 0 {
        let d = s.drop_last();
        lemma_split_no_sep(d, cs);
        lemma_split_len(d, cs);
        let p = split(d, cs);
        if !set_has(cs, s.last()) {
            let q = p.update(p.len() - 1, p.last().push(s.last()));
            assert forall|i: int, j: int|
                0 <= i < q.len() && 0 <= j < q[i].len() implies !set_has(cs, #[trigger] q[i][j]) by {
                if i < p.len() - 1 {
                    assert(q[i] == p[i]);
                } else if j < p.last().len() {
                    assert(q[i][j] == p[p.len() - 1][j]);
                }
            }
        } else {
            let q = p.push(Seq::<char>::empty());
            assert forall|i: int, j: int|
                0 <= i < q.len() && 0 <= j < q[i].len() implies !set_has(cs, #[trigger] q[i][j]) by {
                assert(q[i] == p[i]);
            }
        }
    }
}

/// No line of a text holds a newline.
proof fn lemma_lines_no_newline(s: Seq<char>)
    ensures
        forall|i: int| 0 <= i < lines(s).len() ==> free_of(#[trigger] lines(s)[i], '\n'),
{
    let p = split(s, CharSet::Only('\n'));
    lemma_split_no_sep(s, CharSet::Only('\n'));
    lemma_split_len(s, CharSet::Only('\n'));
    let ls = lines(s);
    assert forall|i: int| 0 <= i < ls.len() implies free_of(#[trigger] ls[i], '\n') by {
        assert forall|j: int| 0 <= j < p[i].len() implies #[trigger] p[i][j] != '\n' by {
            assert(!set_has(CharSet::Only('\n'), p[i][j]));
        }
        if i < p.len() - 1 {
            assert(ls[i] == strip_cr(p[i]));
            assert forall|j: int| 0 <= j < ls[i].len() implies #[trigger] ls[i][j] != '\n' by {
                assert(ls[i][j] == p[i][j]);
            }
        } else {
            assert(ls[i] == p.last());
        }
    }
}

/// The front matter lines a note keeps hold no newline and none is a fence.
proof fn lemma_fm_lines_any(content: Seq<char>)
    ensures
        forall|i: int| 0 <= i < fm_parts(content).0.len() ==> free_of(#[trigger] fm_parts(content).0[i], '\n')
            && trim_ws(fm_parts(content).0[i]) != dashes(),
{
    let ls = lines(crlf_to_lf(content));
    lemma_lines_no_newline(crlf_to_lf(content));
    let fm_lines = fm_parts(content).0;
    match frontmatter_of(content) {
        Some((fm, b)) => {
            let k = fence_from(ls, 1);
            lemma_fence_from_bound(ls, 1);
            let xs = ls.subrange(1, k);
            assert forall|i: int| 0 <= i < xs.len() implies free_of(#[trigger] xs[i], '\n') && trim_ws(xs[i])
                != dashes() by {
                assert(xs[i] == ls[i + 1]);
            }
            if xs.len() == 0 {
                let e = Seq::<char>::empty();
                assert(join(xs, newline()) == e);
                assert(split(e, CharSet::Only('\n')) == seq![e]);
                assert(seq![e].drop_last() =~= Seq::<Seq<char>>::empty());
                assert(lines(e) =~= Seq::<Seq<char>>::empty());
            } else {
                lemma_split_join_free(xs, '\n');
                let j = join(xs, newline());
                assert forall|i: int| 0 <= i < fm_lines.len() implies free_of(#[trigger] fm_lines[i], '\n')
                    && trim_ws(fm_lines[i]) != dashes() by {
                    lemma_trim_strip_cr(xs[i]);
                    if i < xs.len() - 1 {
                        assert(fm_lines[i] == strip_cr(xs[i]));
                        assert forall|q: int| 0 <= q < fm_lines[i].len() implies #[trigger] fm_lines[i][q]
                            != '\n' by {
                            assert(fm_lines[i][q] == xs[i][q]);
                        }
                    } else {
                        assert(fm_lines[i] == xs[i]);
                    }
                }
            }
        },
        None => {},
    }
}

/// The raw tokens of a note after `with_tags` are the tags that were written,
/// when those are distinct tags in normal form, whatever the note held.
proof fn lemma_declared_after_write_any(content: Seq<char>, ts: Seq<Seq<char>>)
    requires
        ts.len() > 0,
        forall|i: int| 0 <= i < ts.len() ==> is_tag(#[trigger] ts[i]),
    ensures
        declared_tokens(with_tags(content, ts)) == Some(ts),
{
    lemma_fm_lines_any(content);
    let fm_lines = fm_parts(content).0;
    let body = fm_parts(content).1;
    let kept = drop_tags_lines(fm_lines);
    lemma_drop_tags_lines(fm_lines);
    let tl = tags_line(ts);
    lemma_tags_line_shape(ts);
    let all = kept.push(tl);
    let n: int = all.len() as int;
    assert forall|i: int| 0 <= i < n implies free_of(#[trigger] all[i], '\n') && trim_ws(all[i]) != dashes() by {
        if i < kept.len() {
            assert(all[i] == kept[i]);
            let k = choose|k: int| 0 <= k < fm_lines.len() && fm_lines[k] == kept[i];
            assert(free_of(fm_lines[k], '\n'));
        } else {
            assert(all[i] == tl);
        }
    }
    let w = with_tags(content, ts);
    assert(w == fenced(all, body));
    let d = dashes();
    let ys = seq![d] + all + seq![d];
    lemma_fenced_lines_then(all, body);
    assert forall|i: int| 0 <= i < ys.len() implies free_of(#[trigger] ys[i], '\n') by {
        if 1 <= i <= n {
            assert(ys[i] == all[i - 1]);
        }
    }
    lemma_crlf_lines_then(ys, body);
    let zs = strip_crs(ys);
    assert forall|i: int| 0 <= i < zs.len() implies free_of(#[trigger] zs[i], '\n') by {
        assert(zs[i] == strip_cr(ys[i]));
        assert(free_of(ys[i], '\n'));
        assert forall|q: int| 0 <= q < zs[i].len() implies #[trigger] zs[i][q] != '\n' by {
            assert(zs[i][q] == ys[i][q]);
        }
    }
    lemma_lines_of_lines_then(zs, crlf_to_lf(body));
    let lo = lines(crlf_to_lf(w));
    assert(lo == lines(lines_then(zs, crlf_to_lf(body))));
    // What each line read back is.
    assert(d.last() == '-');
    assert(strip_cr(d) == d);
    assert(lo[0] == strip_cr(zs[0]));
    assert(zs[0] == strip_cr(ys[0]));
    assert(ys[0] == d);
    assert(lo[0] == d);
    assert(lo[n + 1] == strip_cr(zs[n + 1]));
    assert(ys[n + 1] == d);
    assert(lo[n + 1] == d);
    lemma_trim_noop(d, CharSet::Whitespace);
    assert forall|i: int| 1 <= i < 1 + n implies trim_ws(#[trigger] lo[i]) == trim_ws(all[i - 1]) by {
        assert(lo[i] == strip_cr(zs[i]));
        assert(zs[i] == strip_cr(ys[i]));
        assert(ys[i] == all[i - 1]);
        lemma_trim_strip_cr(ys[i]);
        lemma_trim_strip_cr(zs[i]);
    }
    assert forall|i: int| 1 <= i < 1 + n implies trim_ws(#[trigger] lo[i]) != dashes() by {
        assert(trim_ws(lo[i]) == trim_ws(all[i - 1]));
    }
    assert(tl.last() == ']');
    assert(lo[n] == strip_cr(zs[n]));
    assert(zs[n] == strip_cr(ys[n]));
    assert(ys[n] == tl);
    assert(lo[n] == tl);
    lemma_fence_from(lo, 1, 1 + n);
    let zz = lo.subrange(1, 1 + n);
    let fm = join(zz, newline());
    assert(frontmatter_of(w) matches Some((f, _)) && f == fm);
    // The front matter's lines and its `tags:` line.
    assert forall|i: int| 0 <= i < zz.len() implies free_of(#[trigger] zz[i], '\n') by {
        assert(zz[i] == lo[i + 1]);
        assert(lo[i + 1] == strip_cr(zs[i + 1]));
        assert forall|q: int| 0 <= q < zz[i].len() implies #[trigger] zz[i][q] != '\n' by {
            assert(zz[i][q] == zs[i + 1][q]);
        }
    }
    lemma_split_join_free(zz, '\n');
    let qs = lines(fm);
    assert(zz.last() == tl);
    assert(qs.len() == n);
    assert(qs[n - 1] == tl);
    assert forall|i: int| 0 <= i < n - 1 implies !is_tags_line(#[trigger] qs[i]) by {
        assert(qs[i] == strip_cr(zz[i]));
        assert(zz[i] == lo[i + 1]);
        lemma_trim_strip_cr(zz[i]);
        assert(trim_ws(qs[i]) == trim_ws(all[i]));
        assert(all[i] == kept[i]);
        assert(!is_tags_line(kept[i]));
    }
    lemma_tags_line_from(qs, 0, n - 1);
    lemma_tags_line_value(ts);
}

/// Tags written into a note read back as written.
///
/// Setting a note's tags to the normal form of `tags` and reading the tags
/// of the result gives that normal form back, whatever the note held (front
/// matter or none, LF or CRLF line ends, stray carriage returns), as long as
/// the normal form is not empty.
pub proof fn lemma_tags_round_trip(content: Seq<char>, tags: Seq<Seq<char>>)
    requires
        normal_tags(tags).len() > 0,
    ensures
        tags_in_content(with_tags(content, normal_tags(tags))) == normal_tags(tags),
{
    let ts = normal_tags(tags);
    lemma_normal_tags_canonical(tags);
    lemma_declared_after_write_any(content, ts);
    lemma_normal_tags_fixed(ts);
}

pub(crate) proof fn lemma_split_join_set(xs: Seq<Seq<char>>, c: char, cs: CharSet)
    requires
        xs.len() >= 1,
        set_has(cs, c),
        forall|i: int, j: int| 0 <= i < xs.len() && 0 <= j < xs[i].len() ==> !set_has(cs, #[trigger] xs[i][j]),
    ensures
        split(join(xs, seq![c]), cs) == xs,
    decreases xs.len(),
{
    let last = xs.last();
    assert forall|j: int| 0 <= j < last.len() implies !set_has(cs, #[trigger] last[j]) by {
        assert(last[j] == xs[xs.len() - 1][j]);
    }
    lemma_split_plain(last, cs);
    if xs.len() == 1 {
        assert(seq![xs[0]] =~= xs);
    } else {
        let d = xs.drop_last();
        assert forall|i: int, j: int| 0 <= i < d.len() && 0 <= j < d[i].len() implies !set_has(
            cs,
            #[trigger] d[i][j],
        ) by {
            assert(d[i] == xs[i]);
            assert(d[i][j] == xs[i][j]);
        }
        lemma_split_join_set(d, c, cs);
        assert(join(xs, seq![c]) =~= join(d, seq![c]).push(c) + last);
        lemma_split_at_sep(join(d, seq![c]), c, last, cs);
        assert(d + seq![last] =~= xs);
    }
}

/// Tags in normal form, joined by a comma or a whitespace character and
/// read as input, are the same tags.
proof fn lemma_joined_canonical(ts: Seq<Seq<char>>, c: char)
    requires
        ts.len() > 0,
        ts.no_duplicates(),
        forall|i: int| 0 <= i < ts.len() ==> is_tag(#[trigger] ts[i]),
        set_has(CharSet::CommaOrWhitespace, c),
    ensures
        tags_of_input(join(ts, seq![c])) == ts,
{
    assert forall|i: int, j: int| 0 <= i < ts.len() && 0 <= j < ts[i].len() implies !set_has(
        CharSet::CommaOrWhitespace,
        #[trigger] ts[i][j],
    ) by {
        lemma_tag_chars(ts[i]);
        assert(!set_has(CharSet::Whitespace, ts[i][j]));
    }
    lemma_split_join_set(ts, c, CharSet::CommaOrWhitespace);
    lemma_trimmed_tags(ts);
    lemma_normal_tags_fixed(ts);
}

proof fn lemma_trimmed_tags(ts: Seq<Seq<char>>)
    requires
        forall|i: int| 0 <= i < ts.len() ==> is_tag(#[trigger] ts[i]),
    ensures
        trimmed_nonempty(ts) == ts,
    decreases ts.len(),
{
    if ts.len() > 0 {
        let d = ts.drop_last();
        assert forall|i: int| 0 <= i < d.len() implies is_tag(#[trigger] d[i]) by {
            assert(d[i] == ts[i]);
        }
        lemma_trimmed_tags(d);
        let t = ts.last();
        assert(is_tag(ts[ts.len() - 1]));
        lemma_tag_chars(t);
        assert(!set_has(CharSet::Whitespace, t[0]));
        assert(!set_has(CharSet::Whitespace, t[t.len() - 1]));
        lemma_trim_noop(t, CharSet::Whitespace);
        assert(d.push(t) =~= ts);
    }
}

/// The file store's tags read back as written: for any note, writing `tags` the way the file store does and reading the result
/// the way it does gives the file store's normal form of `tags`, when that is
/// not empty.
pub proof fn lemma_stored_tags_round_trip(content: Seq<char>, tags: Seq<Seq<char>>)
    requires
        joined_tags(tags).len() > 0,
    ensures
        stored_tags_in(with_tags(content, joined_tags(tags))) == joined_tags(tags),
{
    let ts = joined_tags(tags);
    lemma_normal_tags_canonical(trimmed_nonempty(split(join(tags, seq![' ']), CharSet::CommaOrWhitespace)));
    lemma_declared_after_write_any(content, ts);
    lemma_joined_canonical(ts, ' ');
}

/// Parsed tags re-parse to themselves: joining what `parse_tags_input`
/// returns with commas and parsing that again gives the same tags.
pub proof fn lemma_tags_input_reparse(raw: Seq<char>)
    ensures
        tags_of_input(join(tags_of_input(raw), seq![','])) == tags_of_input(raw),
{
    let ts = tags_of_input(raw);
    lemma_normal_tags_canonical(trimmed_nonempty(split(raw, CharSet::CommaOrWhitespace)));
    if ts.len() == 0 {
        let e = Seq::<char>::empty();
        assert(join(ts, seq![',']) == e);
        assert(split(e, CharSet::CommaOrWhitespace) == seq![e]);
        assert(seq![e].drop_last() =~= Seq::<Seq<char>>::empty());
        assert(seq![e].last() == e);
        assert(trim_ws(e).len() == 0);
        assert(trimmed_nonempty(seq![e].drop_last()) =~= Seq::<Seq<char>>::empty());
    } else {
        lemma_joined_canonical(ts, ',');
    }
}

/// The body that writing tags keeps: the note's body after its front
/// matter, or the whole note (with LF line ends) when it has none.
pub open spec fn kept_body(content: Seq<char>) -> Seq<char> {
    match frontmatter_of(content) {
        Some((_, b)) => b,
        None => crlf_to_lf(content),
    }
}

/// A note with tags written into it opens with a `---` line and ends with
/// the body it had.
pub proof fn lemma_written_note_shape(content: Seq<char>, ts: Seq<Seq<char>>)
    requires
        ts.len() > 0,
    ensures
        starts_with(with_tags(content, ts), dashes() + newline()),
        ends_with(with_tags(content, ts), kept_body(content)),
{
    let fm_lines = match frontmatter_of(content) {
        Some((fm, b)) => lines(fm),
        None => Seq::<Seq<char>>::empty(),
    };
    let all = drop_tags_lines(fm_lines).push(tags_line(ts));
    let head = dashes() + newline();
    let mid = join(all, newline()) + newline() + dashes() + newline();
    let body = kept_body(content);
    let w = with_tags(content, ts);
    assert(w == head + mid + body);
    assert(w.take(head.len() as int) =~= head);
    assert(w.skip(w.len() - body.len()) =~= body);
}

} // verus!
