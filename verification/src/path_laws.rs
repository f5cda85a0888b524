//! What holds of the canonical relative paths of notes.
use vstd::prelude::*;
use crate::text::{
    before_char, ends_with, is_ws, join, lead, lemma_before_char, lemma_lead_bound, lemma_trail_bound,
    lemma_trim_noop, replace_char, set_has, split, starts_with, trail, trim, trim_ws,
    CharSet,
};
use crate::index::{
    clean_parts, drop_forbidden, forbidden, key_of, md_ext, note_parts, note_rel_path, note_target, sanitize, seg_ok,
    strip_wikilink, with_md,
};
use crate::tag_laws::lemma_split_join_set;

verus! {

/// Every character of `s` has property `f`.
pub open spec fn all_chars(s: Seq<char>, f: spec_fn(char) -> bool) -> bool {
    forall|i: int| 0 <= i < s.len() ==> f(#[trigger] s[i])
}

/// Characters that a path segment never keeps and that are no separator:
/// `<`, `>`, `:`, `"`, `|`, `?`, `*` and the control characters.
pub open spec fn reserved(c: char) -> bool {
    forbidden(c) && c != '/' && c != '\\'
}

/// Characters that may stand in a path segment.
pub open spec fn segment_char() -> spec_fn(char) -> bool {
    |c: char| !forbidden(c)
}

/// Characters that may stand in a link target: those of a segment and `/`.
pub open spec fn target_char() -> spec_fn(char) -> bool {
    |c: char| !forbidden(c) || c == '/'
}

/// Characters of a reference without reserved characters.
pub open spec fn plain_char() -> spec_fn(char) -> bool {
    |c: char| !reserved(c)
}

/// A segment of a canonical path: it names something (not empty, `.` or
/// `..`), holds only segment characters, and has no whitespace at its ends.
pub open spec fn clean_seg(c: Seq<char>) -> bool {
    &&& seg_ok(c)
    &&& all_chars(c, segment_char())
    &&& !is_ws(c[0])
    &&& !is_ws(c.last())
}

proof fn lemma_sub_chars(s: Seq<char>, f: spec_fn(char) -> bool, a: int, b: int)
    requires
        0 <= a <= b <= s.len(),
        all_chars(s, f),
    ensures
        all_chars(s.subrange(a, b), f),
{
    assert forall|i: int| 0 <= i < b - a implies f(#[trigger] s.subrange(a, b)[i]) by {
        assert(s.subrange(a, b)[i] == s[a + i]);
    }
}

proof fn lemma_trim_chars(s: Seq<char>, cs: CharSet, f: spec_fn(char) -> bool)
    requires
        all_chars(s, f),
    ensures
        all_chars(trim(s, cs), f),
        trim(s, cs).len() > 0 ==> !set_has(cs, trim(s, cs)[0]) && !set_has(cs, trim(s, cs).last()),
{
    lemma_lead_bound(s, cs);
    let a = lead(s, cs) as int;
    let u = s.skip(a);
    assert(u =~= s.subrange(a, s.len() as int));
    lemma_sub_chars(s, f, a, s.len() as int);
    lemma_trail_bound(u, cs);
    let b = u.len() - trail(u, cs);
    lemma_sub_chars(u, f, 0, b);
    assert(trim(s, cs) =~= u.subrange(0, b));
    if b > 0 {
        assert(trim(s, cs)[0] == s[a]);
        assert(trim(s, cs).last() == u[b - 1]);
    }
}

proof fn lemma_before_char_chars(s: Seq<char>, c: char, f: spec_fn(char) -> bool)
    requires
        all_chars(s, f),
    ensures
        all_chars(before_char(s, c), f),
    decreases s.len(),
{
    if s.len() > 0 && s[0] != c {
        let d = s.drop_first();
        assert forall|i: int| 0 <= i < d.len() implies f(#[trigger] d[i]) by {
            assert(d[i] == s[i + 1]);
        }
        lemma_before_char_chars(d, c, f);
        let r = seq![s[0]] + before_char(d, c);
        assert forall|i: int| 0 <= i < r.len() implies f(#[trigger] r[i]) by {
            if i > 0 {
                assert(r[i] == before_char(d, c)[i - 1]);
            }
        }
    }
}

/// The link target of a reference without reserved characters holds only
/// segment characters and `/`.
proof fn lemma_target_chars(raw: Seq<char>)
    requires
        all_chars(raw, plain_char()),
    ensures
        all_chars(note_target(raw), target_char()),
{
    let t1 = trim_ws(raw);
    lemma_trim_chars(raw, CharSet::Whitespace, plain_char());
    let t2 = strip_wikilink(t1);
    if t2 != t1 {
        lemma_sub_chars(t1, plain_char(), 2, t1.len() - 2);
    }
    lemma_before_char_chars(t2, '|', plain_char());
    let t3 = before_char(t2, '|');
    lemma_trim_chars(t3, CharSet::Whitespace, plain_char());
    let t4 = trim_ws(t3);
    let r = replace_char(t4, '\\', '/');
    assert forall|i: int| 0 <= i < r.len() implies target_char()(#[trigger] r[i]) by {
        assert(plain_char()(t4[i]));
    }
}

/// The pieces of a link target split at `/` hold only segment characters.
proof fn lemma_split_chars(s: Seq<char>)
    requires
        all_chars(s, target_char()),
    ensures
        forall|i: int| 0 <= i < split(s, CharSet::Only('/')).len() ==> all_chars(
            #[trigger] split(s, CharSet::Only('/'))[i],
            segment_char(),
        ),
    decreases s.len(),
{
    let cs = CharSet::Only('/');
    if s.len() == 0 {
        assert(split(s, cs)[0].len() == 0);
    } else {
        let d = s.drop_last();
        assert forall|i: int| 0 <= i < d.len() implies target_char()(#[trigger] d[i]) by {
            assert(d[i] == s[i]);
        }
        lemma_split_chars(d);
        crate::text::lemma_split_len(d, cs);
        let p = split(d, cs);
        assert(target_char()(s[s.len() - 1]));
        if s.last() == '/' {
            let q = p.push(Seq::<char>::empty());
            assert forall|i: int| 0 <= i < q.len() implies all_chars(#[trigger] q[i], segment_char()) by {
                if i < p.len() {
                    assert(q[i] == p[i]);
                }
            }
        } else {
            let q = p.update(p.len() - 1, p.last().push(s.last()));
            assert(all_chars(p[p.len() - 1], segment_char()));
            assert forall|i: int| 0 <= i < q.len() implies all_chars(#[trigger] q[i], segment_char()) by {
                if i < p.len() - 1 {
                    assert(q[i] == p[i]);
                } else {
                    assert forall|j: int| 0 <= j < q[i].len() implies segment_char()(#[trigger] q[i][j]) by {
                        if j < p.last().len() {
                            assert(q[i][j] == p.last()[j]);
                        }
                    }
                }
            }
        }
    }
}

proof fn lemma_drop_forbidden_noop(s: Seq<char>)
    requires
        all_chars(s, segment_char()),
    ensures
        drop_forbidden(s) == s,
    decreases s.len(),
{
    if s.len() > 0 {
        let d = s.drop_last();
        assert forall|i: int| 0 <= i < d.len() implies segment_char()(#[trigger] d[i]) by {
            assert(d[i] == s[i]);
        }
        lemma_drop_forbidden_noop(d);
        assert(segment_char()(s[s.len() - 1]));
        assert(d.push(s.last()) =~= s);
    }
}

/// A clean segment is its own sanitised, trimmed form.
proof fn lemma_clean_seg_fixed(c: Seq<char>)
    requires
        clean_seg(c),
    ensures
        trim_ws(c) == c,
        sanitize(c) == c,
{
    lemma_trim_noop(c, CharSet::Whitespace);
    lemma_drop_forbidden_noop(c);
}

proof fn lemma_clean_parts_clean(parts: Seq<Seq<char>>)
    requires
        forall|i: int| 0 <= i < parts.len() ==> all_chars(#[trigger] parts[i], segment_char()),
    ensures
        forall|i: int| 0 <= i < clean_parts(parts).len() ==> clean_seg(#[trigger] clean_parts(parts)[i]),
    decreases parts.len(),
{
    if parts.len() > 0 {
        let d = parts.drop_last();
        assert forall|i: int| 0 <= i < d.len() implies all_chars(#[trigger] d[i], segment_char()) by {
            assert(d[i] == parts[i]);
        }
        lemma_clean_parts_clean(d);
        let prev = clean_parts(d);
        assert(all_chars(parts[parts.len() - 1], segment_char()));
        let seg = trim_ws(parts.last());
        lemma_trim_chars(parts.last(), CharSet::Whitespace, segment_char());
        if seg_ok(seg) {
            lemma_trim_noop(seg, CharSet::Whitespace);
            lemma_drop_forbidden_noop(seg);
            assert(sanitize(seg) == seg);
            assert(clean_seg(seg));
            if sanitize(seg).len() > 0 {
                let q = prev.push(seg);
                assert forall|i: int| 0 <= i < q.len() implies clean_seg(#[trigger] q[i]) by {
                    if i < prev.len() {
                        assert(q[i] == prev[i]);
                    }
                }
            }
        }
    }
}

proof fn lemma_clean_parts_fixed(q: Seq<Seq<char>>)
    requires
        forall|i: int| 0 <= i < q.len() ==> clean_seg(#[trigger] q[i]),
    ensures
        clean_parts(q) == q,
    decreases q.len(),
{
    if q.len() > 0 {
        let d = q.drop_last();
        assert forall|i: int| 0 <= i < d.len() implies clean_seg(#[trigger] d[i]) by {
            assert(d[i] == q[i]);
        }
        lemma_clean_parts_fixed(d);
        assert(clean_seg(q[q.len() - 1]));
        lemma_clean_seg_fixed(q.last());
        assert(d.push(q.last()) =~= q);
    }
}

/// Adding `.md` keeps a segment clean; the result ends in `.md` and gets no
/// second one.
proof fn lemma_with_md_clean(c: Seq<char>)
    requires
        clean_seg(c),
    ensures
        clean_seg(with_md(c)),
        ends_with(with_md(c), md_ext()),
        with_md(with_md(c)) == with_md(c),
{
    if !ends_with(c, md_ext()) {
        let w = c + md_ext();
        assert(w.len() >= 4);
        assert(w != seq!['.']);
        assert(w != seq!['.', '.']);
        assert forall|i: int| 0 <= i < w.len() implies segment_char()(#[trigger] w[i]) by {
            if i < c.len() {
                assert(w[i] == c[i]);
            }
        }
        assert(w[0] == c[0]);
        assert(w.skip(w.len() - 3) =~= md_ext());
    }
}

proof fn lemma_join_shape(q: Seq<Seq<char>>, sep: Seq<char>, f: spec_fn(char) -> bool)
    requires
        q.len() >= 1,
        forall|i: int| 0 <= i < q.len() ==> (#[trigger] q[i]).len() > 0 && all_chars(q[i], f),
        all_chars(sep, f),
    ensures
        join(q, sep).len() >= q.last().len(),
        join(q, sep)[0] == q[0][0],
        join(q, sep).skip(join(q, sep).len() - q.last().len()) == q.last(),
        all_chars(join(q, sep), f),
    decreases q.len(),
{
    if q.len() == 1 {
        assert(join(q, sep) == q[0]);
        assert(q[0].skip(0) =~= q[0]);
    } else {
        let d = q.drop_last();
        assert forall|i: int| 0 <= i < d.len() implies (#[trigger] d[i]).len() > 0 && all_chars(d[i], f) by {
            assert(d[i] == q[i]);
        }
        lemma_join_shape(d, sep, f);
        let j = join(d, sep);
        let r = j + sep + q.last();
        assert(join(q, sep) == r);
        assert(q[q.len() - 1].len() > 0);
        assert(r[0] == j[0]);
        assert(d[0] == q[0]);
        assert(r.skip(r.len() - q.last().len()) =~= q.last());
        assert(all_chars(q[q.len() - 1], f));
        assert forall|i: int| 0 <= i < r.len() implies f(#[trigger] r[i]) by {
            if i < j.len() {
                assert(r[i] == j[i]);
            } else if i < j.len() + sep.len() {
                assert(r[i] == sep[i - j.len()]);
            } else {
                assert(r[i] == q.last()[i - j.len() - sep.len()]);
            }
        }
    }
}

/// A canonical note path is its own canonical path, and has the shape of
/// one: empty, or `/`-separated segments that each name something (none
/// empty, `.` or `..`) and hold no character a file name may not, the last
/// ending in `.md`, with no backslash, so that its `/`-separated key is
/// itself. This holds for every reference without the characters
/// `<`, `>`, `:`, `"`, `|`, `?`, `*` and control characters.
pub proof fn lemma_note_path_canonical(raw: Seq<char>)
    requires
        forall|i: int| 0 <= i < raw.len() ==> !reserved(#[trigger] raw[i]),
    ensures
        note_rel_path(note_rel_path(raw)) == note_rel_path(raw),
        key_of(note_rel_path(raw)) == note_rel_path(raw),
        note_rel_path(raw).len() > 0 ==> {
            &&& ends_with(note_rel_path(raw), md_ext())
            &&& forall|i: int|
                0 <= i < split(note_rel_path(raw), CharSet::Only('/')).len() ==> clean_seg(
                    #[trigger] split(note_rel_path(raw), CharSet::Only('/'))[i],
                )
        },
{
    let cs = CharSet::Only('/');
    assert forall|i: int| 0 <= i < raw.len() implies plain_char()(#[trigger] raw[i]) by {}
    lemma_target_chars(raw);
    lemma_split_chars(note_target(raw));
    lemma_clean_parts_clean(split(note_target(raw), cs));
    let p = note_parts(raw);
    let r = note_rel_path(raw);
    if p.len() == 0 {
        let e = Seq::<char>::empty();
        assert(r == e);
        assert(trim_ws(e) =~= e) by {
            lemma_trim_noop(e, CharSet::Whitespace);
        }
        assert(strip_wikilink(e) == e);
        assert(before_char(e, '|') == e);
        assert(replace_char(e, '\\', '/') =~= e);
        assert(note_target(e) == e);
        assert(split(e, cs) == seq![e]);
        assert(seq![e].drop_last() =~= Seq::<Seq<char>>::empty());
        assert(!seg_ok(trim_ws(seq![e].last())));
        assert(clean_parts(seq![e].drop_last()) =~= Seq::<Seq<char>>::empty());
        assert(key_of(r) =~= r);
        assert(clean_parts(seq![e]) =~= Seq::<Seq<char>>::empty());
    } else {
        let q = p.update(p.len() - 1, with_md(p.last()));
        assert(clean_seg(p[p.len() - 1]));
        lemma_with_md_clean(p.last());
        assert forall|i: int| 0 <= i < q.len() implies clean_seg(#[trigger] q[i]) by {
            if i < p.len() - 1 {
                assert(q[i] == p[i]);
            }
        }
        assert forall|i: int| 0 <= i < q.len() implies (#[trigger] q[i]).len() > 0 && all_chars(
            q[i],
            target_char(),
        ) by {
            assert(clean_seg(q[i]));
            assert forall|j: int| 0 <= j < q[i].len() implies target_char()(#[trigger] q[i][j]) by {
                assert(segment_char()(q[i][j]));
            }
        }
        assert(all_chars(seq!['/'], target_char()));
        lemma_join_shape(q, seq!['/'], target_char());
        assert(r == join(q, seq!['/']));
        let l = q.last();
        assert(clean_seg(q[q.len() - 1]));
        assert(l.skip(l.len() - 3) =~= md_ext());
        assert(r.last() == l.last());
        assert(r.last() == 'd');
        assert(r.skip(r.len() - 3) =~= md_ext());
        // The link target of `r` is `r` itself.
        lemma_trim_noop(r, CharSet::Whitespace);
        if starts_with(r, seq!['[', '[']) && ends_with(r.skip(2), seq![']', ']']) {
            let t = r.skip(2);
            assert(t.skip(t.len() - 2)[1] == r.last());
        }
        assert(strip_wikilink(r) == r);
        assert forall|j: int| 0 <= j < r.len() implies r[j] != '|' by {
            assert(target_char()(r[j]));
        }
        lemma_before_char(r, '|', r.len() as int);
        assert(r.take(r.len() as int) =~= r);
        assert forall|j: int| 0 <= j < r.len() implies r[j] != '\\' by {
            assert(target_char()(r[j]));
        }
        assert(replace_char(r, '\\', '/') =~= r);
        assert(key_of(r) == r);
        assert(note_target(r) == r);
        // Its pieces are the clean segments again.
        assert forall|i: int, j: int| 0 <= i < q.len() && 0 <= j < q[i].len() implies !set_has(
            cs,
            #[trigger] q[i][j],
        ) by {
            assert(clean_seg(q[i]));
            assert(segment_char()(q[i][j]));
        }
        lemma_split_join_set(q, '/', cs);
        lemma_clean_parts_fixed(q);
        assert(note_parts(r) == q);
        assert(q.update(q.len() - 1, with_md(q.last())) =~= q);
    }
}

} // verus!
