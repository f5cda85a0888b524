//! Character-sequence primitives with their mathematical models.
//!
//! Strings are modelled by their `Seq<char>` view; the working form of text
//! inside the library is `Vec<char>`.
use vstd::prelude::*;
use vstd::std_specs::iter::IteratorSpec;

verus! {

broadcast use vstd::string::group_string_axioms;

/// `String::push` appends one character.
pub assume_specification[ String::push ](s: &mut String, ch: char)
    ensures
        final(s)@ == old(s)@.push(ch),
;

// ---------------------------------------------------------------------------
// Character classes
// ---------------------------------------------------------------------------

/// Unicode `White_Space`, the property that `char::is_whitespace` tests.
pub open spec fn is_ws(c: char) -> bool {
    ||| ('\u{9}' <= c && c <= '\u{D}')
    ||| c == ' '
    ||| c == '\u{85}'
    ||| c == '\u{A0}'
    ||| c == '\u{1680}'
    ||| ('\u{2000}' <= c && c <= '\u{200A}')
    ||| c == '\u{2028}'
    ||| c == '\u{2029}'
    ||| c == '\u{202F}'
    ||| c == '\u{205F}'
    ||| c == '\u{3000}'
}

pub fn is_whitespace(c: char) -> (b: bool)
    ensures
        b == is_ws(c),
{
    ('\u{9}' <= c && c <= '\u{D}') || c == ' ' || c == '\u{85}' || c == '\u{A0}' || c
        == '\u{1680}' || ('\u{2000}' <= c && c <= '\u{200A}') || c == '\u{2028}' || c
        == '\u{2029}' || c == '\u{202F}' || c == '\u{205F}' || c == '\u{3000}'
}

/// Unicode general category `Cc`, the property that `char::is_control` tests.
pub open spec fn is_ctrl(c: char) -> bool {
    c <= '\u{1F}' || ('\u{7F}' <= c && c <= '\u{9F}')
}

pub fn is_control(c: char) -> (b: bool)
    ensures
        b == is_ctrl(c),
{
    c <= '\u{1F}' || ('\u{7F}' <= c && c <= '\u{9F}')
}

pub open spec fn is_digit(c: char) -> bool {
    '0' <= c && c <= '9'
}

pub fn is_ascii_digit(c: char) -> (b: bool)
    ensures
        b == is_digit(c),
{
    '0' <= c && c <= '9'
}

pub open spec fn is_alnum(c: char) -> bool {
    is_digit(c) || ('a' <= c && c <= 'z') || ('A' <= c && c <= 'Z')
}

pub fn is_ascii_alphanumeric(c: char) -> (b: bool)
    ensures
        b == is_alnum(c),
{
    ('0' <= c && c <= '9') || ('a' <= c && c <= 'z') || ('A' <= c && c <= 'Z')
}

pub open spec fn lower(c: char) -> char {
    if 'A' <= c && c <= 'Z' {
        ((c as u32) + 32) as char
    } else {
        c
    }
}

pub fn to_ascii_lowercase(c: char) -> (r: char)
    ensures
        r == lower(c),
{
    if 'A' <= c && c <= 'Z' {
        let r = ((c as u8) + 32) as char;
        assert(r as u32 == c as u32 + 32);
        r
    } else {
        c
    }
}

/// The sets of characters that the library trims and splits by.
#[derive(Clone, Copy)]
pub enum CharSet {
    Whitespace,
    Only(char),
    Pair(char, char),
    CommaOrWhitespace,
    AsciiDigit,
}

pub open spec fn set_has(cs: CharSet, c: char) -> bool {
    match cs {
        CharSet::Whitespace => is_ws(c),
        CharSet::Only(a) => c == a,
        CharSet::Pair(a, b) => c == a || c == b,
        CharSet::CommaOrWhitespace => c == ',' || is_ws(c),
        CharSet::AsciiDigit => is_digit(c),
    }
}

pub fn in_set(cs: CharSet, c: char) -> (b: bool)
    ensures
        b == set_has(cs, c),
{
    match cs {
        CharSet::Whitespace => is_whitespace(c),
        CharSet::Only(a) => c == a,
        CharSet::Pair(a, b) => c == a || c == b,
        CharSet::CommaOrWhitespace => c == ',' || is_whitespace(c),
        CharSet::AsciiDigit => is_ascii_digit(c),
    }
}

// ---------------------------------------------------------------------------
// Trimming
// ---------------------------------------------------------------------------

/// Number of leading characters of `s` that are in `cs`.
pub open spec fn lead(s: Seq<char>, cs: CharSet) -> nat
    decreases s.len(),
{
    if s.len() > 0 && set_has(cs, s[0]) {
        1 + lead(s.drop_first(), cs)
    } else {
        0
    }
}

/// Number of trailing characters of `s` that are in `cs`.
pub open spec fn trail(s: Seq<char>, cs: CharSet) -> nat
    decreases s.len(),
{
    if s.len() > 0 && set_has(cs, s.last()) {
        1 + trail(s.drop_last(), cs)
    } else {
        0
    }
}

pub open spec fn trim_start(s: Seq<char>, cs: CharSet) -> Seq<char> {
    s.skip(lead(s, cs) as int)
}

pub open spec fn trim_end(s: Seq<char>, cs: CharSet) -> Seq<char> {
    s.take(s.len() - trail(s, cs))
}

pub open spec fn trim(s: Seq<char>, cs: CharSet) -> Seq<char> {
    trim_end(trim_start(s, cs), cs)
}

/// `str::trim`: both ends without Unicode whitespace.
pub open spec fn trim_ws(s: Seq<char>) -> Seq<char> {
    trim(s, CharSet::Whitespace)
}

pub proof fn lemma_lead_bound(s: Seq<char>, cs: CharSet)
    ensures
        lead(s, cs) <= s.len(),
        forall|j: int| 0 <= j < lead(s, cs) ==> set_has(cs, #[trigger] s[j]),
        lead(s, cs) < s.len() ==> !set_has(cs, s[lead(s, cs) as int]),
    decreases s.len(),
{
    if s.len() > 0 && set_has(cs, s[0]) {
        lemma_lead_bound(s.drop_first(), cs);
        assert forall|j: int| 0 <= j < lead(s, cs) implies set_has(cs, #[trigger] s[j]) by {
            if j > 0 {
                assert(s[j] == s.drop_first()[j - 1]);
            }
        }
    }
}

pub proof fn lemma_lead_exact(s: Seq<char>, cs: CharSet, i: int)
    requires
        0 <= i <= s.len(),
        forall|j: int| 0 <= j < i ==> set_has(cs, #[trigger] s[j]),
        i == s.len() || !set_has(cs, s[i]),
    ensures
        lead(s, cs) == i,
    decreases i,
{
    if i > 0 {
        assert(set_has(cs, s[0]));
        assert forall|j: int| 0 <= j < i - 1 implies set_has(cs, #[trigger] s.drop_first()[j]) by {
            assert(s.drop_first()[j] == s[j + 1]);
        }
        if i < s.len() {
            assert(s.drop_first()[i - 1] == s[i]);
        }
        lemma_lead_exact(s.drop_first(), cs, i - 1);
    }
}

pub proof fn lemma_trail_bound(s: Seq<char>, cs: CharSet)
    ensures
        trail(s, cs) <= s.len(),
        forall|j: int| s.len() - trail(s, cs) <= j < s.len() ==> set_has(cs, #[trigger] s[j]),
        trail(s, cs) < s.len() ==> !set_has(cs, s[s.len() - trail(s, cs) - 1]),
    decreases s.len(),
{
    if s.len() > 0 && set_has(cs, s.last()) {
        lemma_trail_bound(s.drop_last(), cs);
        assert forall|j: int| s.len() - trail(s, cs) <= j < s.len() implies set_has(
            cs,
            #[trigger] s[j],
        ) by {
            if j < s.len() - 1 {
                assert(s[j] == s.drop_last()[j]);
            }
        }
        if trail(s, cs) < s.len() {
            assert(s[s.len() - trail(s, cs) - 1] == s.drop_last()[s.drop_last().len() - trail(
                s.drop_last(),
                cs,
            ) - 1]);
        }
    }
}

pub proof fn lemma_trail_exact(s: Seq<char>, cs: CharSet, k: int)
    requires
        0 <= k <= s.len(),
        forall|j: int| s.len() - k <= j < s.len() ==> set_has(cs, #[trigger] s[j]),
        k == s.len() || !set_has(cs, s[s.len() - k - 1]),
    ensures
        trail(s, cs) == k,
    decreases k,
{
    if k > 0 {
        assert(set_has(cs, s[s.len() - 1]));
        assert forall|j: int| s.drop_last().len() - (k - 1) <= j < s.drop_last().len() implies set_has(
            cs,
            #[trigger] s.drop_last()[j],
        ) by {
            assert(s.drop_last()[j] == s[j]);
        }
        if k < s.len() {
            assert(s.drop_last()[s.drop_last().len() - (k - 1) - 1] == s[s.len() - k - 1]);
        }
        lemma_trail_exact(s.drop_last(), cs, k - 1);
    }
}

/// Trimming a string whose ends are outside the set changes nothing.
pub proof fn lemma_trim_noop(s: Seq<char>, cs: CharSet)
    requires
        s.len() == 0 || (!set_has(cs, s[0]) && !set_has(cs, s.last())),
    ensures
        trim(s, cs) == s,
{
    lemma_lead_exact(s, cs, 0);
    assert(s.skip(0) =~= s);
    lemma_trail_exact(s, cs, 0);
    assert(s.take(s.len() as int) =~= s);
}

/// Copies `s[from..to]`.
pub fn slice_chars(s: &Vec<char>, from: usize, to: usize) -> (r: Vec<char>)
    requires
        from <= to <= s.len(),
    ensures
        r@ == s@.subrange(from as int, to as int),
{
    let mut r: Vec<char> = Vec::new();
    let mut i = from;
    while i < to
        invariant
            from <= i <= to <= s.len(),
            r@ == s@.subrange(from as int, i as int),
        decreases to - i,
    {
        r.push(s[i]);
        assert(s@.subrange(from as int, i as int).push(s@[i as int]) =~= s@.subrange(
            from as int,
            i as int + 1,
        ));
        i = i + 1;
    }
    r
}

/// Index of the first character of `s` outside `cs`.
pub fn lead_len(s: &Vec<char>, cs: CharSet) -> (n: usize)
    ensures
        n == lead(s@, cs),
{
    let mut i: usize = 0;
    while i < s.len() && in_set(cs, s[i])
        invariant
            i <= s.len(),
            forall|j: int| 0 <= j < i ==> set_has(cs, #[trigger] s@[j]),
        decreases s.len() - i,
    {
        i = i + 1;
    }
    proof {
        lemma_lead_exact(s@, cs, i as int);
    }
    i
}

/// Number of trailing characters of `s` in `cs`.
pub fn trail_len(s: &Vec<char>, cs: CharSet) -> (n: usize)
    ensures
        n == trail(s@, cs),
{
    let mut k: usize = 0;
    while k < s.len() && in_set(cs, s[s.len() - 1 - k])
        invariant
            k <= s.len(),
            forall|j: int| s.len() - k <= j < s.len() ==> set_has(cs, #[trigger] s@[j]),
        decreases s.len() - k,
    {
        k = k + 1;
    }
    proof {
        lemma_trail_exact(s@, cs, k as int);
    }
    k
}

pub fn trim_start_set(s: &Vec<char>, cs: CharSet) -> (r: Vec<char>)
    ensures
        r@ == trim_start(s@, cs),
{
    let n = lead_len(s, cs);
    proof {
        lemma_lead_bound(s@, cs);
    }
    slice_chars(s, n, s.len())
}

pub fn trim_end_set(s: &Vec<char>, cs: CharSet) -> (r: Vec<char>)
    ensures
        r@ == trim_end(s@, cs),
{
    let k = trail_len(s, cs);
    proof {
        lemma_trail_bound(s@, cs);
    }
    slice_chars(s, 0, s.len() - k)
}

pub fn trim_set(s: &Vec<char>, cs: CharSet) -> (r: Vec<char>)
    ensures
        r@ == trim(s@, cs),
{
    let t = trim_start_set(s, cs);
    trim_end_set(&t, cs)
}

pub fn trim_whitespace(s: &Vec<char>) -> (r: Vec<char>)
    ensures
        r@ == trim_ws(s@),
{
    trim_set(s, CharSet::Whitespace)
}

// ---------------------------------------------------------------------------
// Conversions between `str`/`String` and `Vec<char>`
// ---------------------------------------------------------------------------

pub fn chars_of(s: &str) -> (v: Vec<char>)
    ensures
        v@ == s@,
{
    let mut v: Vec<char> = Vec::new();
    let mut it = s.chars();
    loop
        invariant
            IteratorSpec::remaining(&it) == s@.skip(v@.len() as int),
            v@ == s@.take(v@.len() as int),
            v@.len() <= s@.len(),
        ensures
            v@ == s@,
        decreases s@.len() - v@.len(),
    {
        match it.next() {
            Some(c) => {
                assert(s@.take(v@.len() as int).push(c) =~= s@.take(v@.len() as int + 1));
                v.push(c);
            },
            None => {
                assert(s@.skip(v@.len() as int).len() == 0);
                assert(s@.take(v@.len() as int) =~= s@);
                break ;
            },
        }
    }
    v
}

pub fn string_of(v: &Vec<char>) -> (s: String)
    ensures
        s@ == v@,
{
    let mut s = String::new();
    let mut i: usize = 0;
    while i < v.len()
        invariant
            i <= v.len(),
            s@ == v@.take(i as int),
        decreases v.len() - i,
    {
        s.push(v[i]);
        assert(v@.take(i as int).push(v@[i as int]) =~= v@.take(i as int + 1));
        i = i + 1;
    }
    assert(v@.take(v@.len() as int) =~= v@);
    s
}


// ---------------------------------------------------------------------------
// Splitting and joining
// ---------------------------------------------------------------------------

/// The views of a vector of character vectors.
pub open spec fn views(v: Seq<Vec<char>>) -> Seq<Seq<char>> {
    v.map_values(|x: Vec<char>| x@)
}

/// `str::split` by the characters of `cs`: the pieces between separators,
/// empty pieces included; there is always one piece more than separators.
pub open spec fn split(s: Seq<char>, cs: CharSet) -> Seq<Seq<char>>
    decreases s.len(),
{
    if s.len() == 0 {
        seq![Seq::<char>::empty()]
    } else {
        let prev = split(s.drop_last(), cs);
        if set_has(cs, s.last()) {
            prev.push(Seq::<char>::empty())
        } else {
            prev.update(prev.len() - 1, prev.last().push(s.last()))
        }
    }
}

pub proof fn lemma_split_len(s: Seq<char>, cs: CharSet)
    ensures
        split(s, cs).len() >= 1,
    decreases s.len(),
{
    if s.len() > 0 {
        lemma_split_len(s.drop_last(), cs);
    }
}

/// `parts.join(sep)`.
pub open spec fn join(parts: Seq<Seq<char>>, sep: Seq<char>) -> Seq<char>
    decreases parts.len(),
{
    if parts.len() == 0 {
        Seq::<char>::empty()
    } else if parts.len() == 1 {
        parts[0]
    } else {
        join(parts.drop_last(), sep) + sep + parts.last()
    }
}

pub fn split_set(s: &Vec<char>, cs: CharSet) -> (parts: Vec<Vec<char>>)
    ensures
        views(parts@) == split(s@, cs),
{
    let mut parts: Vec<Vec<char>> = Vec::new();
    let mut cur: Vec<char> = Vec::new();
    let mut i: usize = 0;
    while i < s.len()
        invariant
            i <= s.len(),
            views(parts@).push(cur@) == split(s@.take(i as int), cs),
        decreases s.len() - i,
    {
        let c = s[i];
        proof {
            assert(s@.take(i as int + 1).drop_last() =~= s@.take(i as int));
            assert(s@.take(i as int + 1).last() == c);
        }
        if in_set(cs, c) {
            let done = cur;
            proof {
                assert(views(parts@.push(done)) =~= views(parts@).push(done@));
            }
            parts.push(done);
            cur = Vec::new();
            proof {
                assert(views(parts@).push(cur@) =~= split(s@.take(i as int + 1), cs));
            }
        } else {
            let ghost before = cur@;
            cur.push(c);
            proof {
                let prev = views(parts@).push(before);
                assert(views(parts@).push(cur@) =~= prev.update(prev.len() - 1, prev.last().push(c)));
            }
        }
        i = i + 1;
    }
    proof {
        assert(s@.take(s@.len() as int) =~= s@);
        assert(views(parts@.push(cur)) =~= views(parts@).push(cur@));
    }
    parts.push(cur);
    parts
}

/// Appends all of `src` to `dst`.
pub fn push_all(dst: &mut Vec<char>, src: &Vec<char>)
    ensures
        final(dst)@ == old(dst)@ + src@,
{
    let mut i: usize = 0;
    while i < src.len()
        invariant
            i <= src.len(),
            dst@ == old(dst)@ + src@.take(i as int),
        decreases src.len() - i,
    {
        dst.push(src[i]);
        assert(old(dst)@ + src@.take(i as int + 1) =~= (old(dst)@ + src@.take(i as int)).push(
            src@[i as int],
        ));
        i = i + 1;
    }
    assert(src@.take(src@.len() as int) =~= src@);
}

pub fn concat(a: &Vec<char>, b: &Vec<char>) -> (r: Vec<char>)
    ensures
        r@ == a@ + b@,
{
    let mut r = a.clone();
    push_all(&mut r, b);
    r
}

pub fn join_with(parts: &Vec<Vec<char>>, sep: &Vec<char>) -> (r: Vec<char>)
    ensures
        r@ == join(views(parts@), sep@),
{
    let mut r: Vec<char> = Vec::new();
    let mut i: usize = 0;
    while i < parts.len()
        invariant
            i <= parts.len(),
            r@ == join(views(parts@).take(i as int), sep@),
        decreases parts.len() - i,
    {
        let ghost pv = views(parts@);
        proof {
            assert(pv.take(i as int + 1).drop_last() =~= pv.take(i as int));
            assert(pv.take(i as int + 1).last() == parts@[i as int]@);
            if i == 0 {
                assert(pv.take(1) =~= seq![parts@[0]@]);
            }
        }
        if i > 0 {
            push_all(&mut r, sep);
        }
        push_all(&mut r, &parts[i]);
        i = i + 1;
    }
    assert(views(parts@).take(parts@.len() as int) =~= views(parts@));
    r
}

/// `str::lines`: pieces between `'\n'`, a final empty piece dropped, and a
/// `'\r'` before each `'\n'` removed.
pub open spec fn strip_cr(l: Seq<char>) -> Seq<char> {
    if l.len() > 0 && l.last() == '\r' {
        l.drop_last()
    } else {
        l
    }
}

pub open spec fn lines(s: Seq<char>) -> Seq<Seq<char>> {
    let p = split(s, CharSet::Only('\n'));
    p.drop_last().map_values(|l: Seq<char>| strip_cr(l)) + if p.last().len() > 0 {
        seq![p.last()]
    } else {
        Seq::<Seq<char>>::empty()
    }
}

pub fn lines_of(s: &Vec<char>) -> (r: Vec<Vec<char>>)
    ensures
        views(r@) == lines(s@),
{
    let parts = split_set(s, CharSet::Only('\n'));
    proof {
        lemma_split_len(s@, CharSet::Only('\n'));
    }
    let n = parts.len();
    let mut r: Vec<Vec<char>> = Vec::new();
    let mut i: usize = 0;
    while i + 1 < n
        invariant
            n == parts.len() >= 1,
            i + 1 <= n,
            views(r@) == views(parts@).drop_last().take(i as int).map_values(
                |l: Seq<char>| strip_cr(l),
            ),
        decreases n - i,
    {
        let p = &parts[i];
        let l = if p.len() > 0 && p[p.len() - 1] == '\r' {
            slice_chars(p, 0, p.len() - 1)
        } else {
            p.clone()
        };
        proof {
            if p@.len() > 0 && p@.last() == '\r' {
                assert(p@.subrange(0, p@.len() - 1) =~= p@.drop_last());
            }
            assert(l@ == strip_cr(parts@[i as int]@));
            let pv = views(parts@).drop_last();
            assert(pv[i as int] == parts@[i as int]@);
            assert(views(r@.push(l)) =~= views(r@).push(l@));
            assert(pv.take(i as int + 1).map_values(|l: Seq<char>| strip_cr(l)) =~= pv.take(
                i as int,
            ).map_values(|l: Seq<char>| strip_cr(l)).push(strip_cr(pv[i as int])));
            assert(views(r@.push(l)) =~= views(parts@).drop_last().take(i as int + 1).map_values(
                |l: Seq<char>| strip_cr(l),
            ));
        }
        r.push(l);
        i = i + 1;
    }
    let last = &parts[n - 1];
    if last.len() > 0 {
        let l = last.clone();
        proof {
            assert(views(r@.push(l)) =~= views(r@).push(l@));
        }
        r.push(l);
    }
    proof {
        assert(views(parts@).drop_last().take(n - 1) =~= views(parts@).drop_last());
        assert(views(r@) =~= lines(s@));
    }
    r
}

// ---------------------------------------------------------------------------
// Comparison and search
// ---------------------------------------------------------------------------

pub open spec fn starts_with(s: Seq<char>, p: Seq<char>) -> bool {
    p.len() <= s.len() && s.take(p.len() as int) == p
}

pub open spec fn ends_with(s: Seq<char>, p: Seq<char>) -> bool {
    p.len() <= s.len() && s.skip(s.len() - p.len()) == p
}

pub fn eq_chars(a: &Vec<char>, b: &Vec<char>) -> (r: bool)
    ensures
        r == (a@ == b@),
{
    if a.len() != b.len() {
        return false;
    }
    let mut i: usize = 0;
    while i < a.len()
        invariant
            a.len() == b.len(),
            i <= a.len(),
            forall|j: int| 0 <= j < i ==> a@[j] == b@[j],
        decreases a.len() - i,
    {
        if a[i] != b[i] {
            return false;
        }
        i = i + 1;
    }
    assert(a@ =~= b@);
    true
}

/// Whether `p` occurs in `s` at position `at`.
pub open spec fn matches_at(s: Seq<char>, p: Seq<char>, at: int) -> bool {
    0 <= at && at + p.len() <= s.len() && s.subrange(at, at + p.len()) == p
}

pub fn matches_at_exec(s: &Vec<char>, p: &Vec<char>, at: usize) -> (r: bool)
    ensures
        r == matches_at(s@, p@, at as int),
{
    if at > s.len() || p.len() > s.len() - at {
        return false;
    }
    let mut i: usize = 0;
    while i < p.len()
        invariant
            at + p.len() <= s.len(),
            i <= p.len(),
            forall|j: int| 0 <= j < i ==> s@[at + j] == p@[j],
        decreases p.len() - i,
    {
        if s[at + i] != p[i] {
            assert(s@.subrange(at as int, at + p.len())[i as int] != p@[i as int]);
            return false;
        }
        i = i + 1;
    }
    assert(s@.subrange(at as int, at + p.len()) =~= p@);
    true
}

pub fn starts_with_exec(s: &Vec<char>, p: &Vec<char>) -> (r: bool)
    ensures
        r == starts_with(s@, p@),
{
    let r = matches_at_exec(s, p, 0);
    proof {
        if p@.len() <= s@.len() {
            assert(s@.take(p@.len() as int) =~= s@.subrange(0, p@.len() as int));
        }
    }
    r
}

pub fn ends_with_exec(s: &Vec<char>, p: &Vec<char>) -> (r: bool)
    ensures
        r == ends_with(s@, p@),
{
    if p.len() > s.len() {
        return false;
    }
    let r = matches_at_exec(s, p, s.len() - p.len());
    proof {
        assert(s@.skip(s@.len() - p@.len()) =~= s@.subrange(
            s@.len() - p@.len(),
            s@.len() as int,
        ));
    }
    r
}

/// The first position at or after `from` where `p` occurs.
pub open spec fn first_match_from(s: Seq<char>, p: Seq<char>, from: int, at: int) -> bool {
    &&& from <= at
    &&& matches_at(s, p, at)
    &&& forall|j: int| from <= j < at ==> !matches_at(s, p, j)
}

pub fn find_from(s: &Vec<char>, p: &Vec<char>, from: usize) -> (r: Option<usize>)
    ensures
        r matches Some(at) ==> first_match_from(s@, p@, from as int, at as int),
        r is None ==> forall|j: int| from <= j ==> !matches_at(s@, p@, j),
{
    if from > s.len() {
        return None;
    }
    let mut i = from;
    while i < s.len()
        invariant
            from <= i <= s.len(),
            forall|j: int| from <= j < i ==> !matches_at(s@, p@, j),
        decreases s.len() - i,
    {
        if matches_at_exec(s, p, i) {
            return Some(i);
        }
        i = i + 1;
    }
    if matches_at_exec(s, p, i) {
        return Some(i);
    }
    None
}

/// Whether `p` occurs somewhere in `s` (`str::contains`).
pub open spec fn contains_seq(s: Seq<char>, p: Seq<char>) -> bool {
    exists|at: int| matches_at(s, p, at)
}

pub fn contains_exec(s: &Vec<char>, p: &Vec<char>) -> (r: bool)
    ensures
        r == contains_seq(s@, p@),
{
    match find_from(s, p, 0) {
        Some(at) => {
            assert(matches_at(s@, p@, at as int));
            true
        },
        None => {
            assert forall|at: int| !matches_at(s@, p@, at) by {
                if 0 <= at {
                    assert(!matches_at(s@, p@, at));
                }
            }
            false
        },
    }
}

/// The first index of `c` in `s`.
pub open spec fn first_index(s: Seq<char>, c: char, at: int) -> bool {
    0 <= at < s.len() && s[at] == c && forall|j: int| 0 <= j < at ==> s[j] != c
}

pub fn find_char(s: &Vec<char>, c: char) -> (r: Option<usize>)
    ensures
        r matches Some(at) ==> first_index(s@, c, at as int),
        r is None ==> !s@.contains(c),
{
    let mut i: usize = 0;
    while i < s.len()
        invariant
            i <= s.len(),
            forall|j: int| 0 <= j < i ==> s@[j] != c,
        decreases s.len() - i,
    {
        if s[i] == c {
            return Some(i);
        }
        i = i + 1;
    }
    None
}

/// `s.replace(from, to)` for single characters.
pub open spec fn replace_char(s: Seq<char>, from: char, to: char) -> Seq<char> {
    s.map_values(|c: char| if c == from { to } else { c })
}

pub fn replace_char_exec(s: &Vec<char>, from: char, to: char) -> (r: Vec<char>)
    ensures
        r@ == replace_char(s@, from, to),
{
    let mut r: Vec<char> = Vec::new();
    let mut i: usize = 0;
    while i < s.len()
        invariant
            i <= s.len(),
            r@ == replace_char(s@.take(i as int), from, to),
        decreases s.len() - i,
    {
        let c = if s[i] == from {
            to
        } else {
            s[i]
        };
        r.push(c);
        assert(replace_char(s@.take(i as int + 1), from, to) =~= replace_char(
            s@.take(i as int),
            from,
            to,
        ).push(c));
        i = i + 1;
    }
    assert(s@.take(s@.len() as int) =~= s@);
    r
}

/// `s.replace("\r\n", "\n")`.
pub open spec fn crlf_to_lf(s: Seq<char>) -> Seq<char>
    decreases s.len(),
{
    if s.len() < 2 {
        s
    } else if s[0] == '\r' && s[1] == '\n' {
        seq!['\n'] + crlf_to_lf(s.skip(2))
    } else {
        seq![s[0]] + crlf_to_lf(s.drop_first())
    }
}

pub fn crlf_to_lf_exec(s: &Vec<char>) -> (r: Vec<char>)
    ensures
        r@ == crlf_to_lf(s@),
{
    let mut r: Vec<char> = Vec::new();
    let mut i: usize = 0;
    assert(s@.skip(0) =~= s@);
    while i < s.len()
        invariant
            i <= s.len(),
            r@ + crlf_to_lf(s@.skip(i as int)) == crlf_to_lf(s@),
        decreases s.len() - i,
    {
        let ghost rest = s@.skip(i as int);
        if i + 1 < s.len() && s[i] == '\r' && s[i + 1] == '\n' {
            proof {
                assert(rest.skip(2) =~= s@.skip(i as int + 2));
                assert(r@.push('\n') + crlf_to_lf(s@.skip(i as int + 2)) =~= r@ + crlf_to_lf(rest));
            }
            r.push('\n');
            i = i + 2;
        } else {
            proof {
                assert(rest.drop_first() =~= s@.skip(i as int + 1));
                if rest.len() < 2 {
                    assert(rest.len() == 1);
                    assert(s@.skip(i as int + 1).len() == 0);
                    assert(rest =~= seq![s@[i as int]] + s@.skip(i as int + 1));
                }
                assert(r@.push(s@[i as int]) + crlf_to_lf(s@.skip(i as int + 1)) =~= r@ + crlf_to_lf(
                    rest,
                ));
            }
            r.push(s[i]);
            i = i + 1;
        }
    }
    assert(s@.skip(i as int).len() == 0);
    assert(r@ + crlf_to_lf(s@.skip(i as int)) =~= r@);
    r
}

} // verus!

verus! {

/// The part of `s` before the first `c` (all of `s` when `c` does not occur).
pub open spec fn before_char(s: Seq<char>, c: char) -> Seq<char>
    decreases s.len(),
{
    if s.len() == 0 {
        s
    } else if s[0] == c {
        Seq::<char>::empty()
    } else {
        seq![s[0]] + before_char(s.drop_first(), c)
    }
}

pub proof fn lemma_before_char(s: Seq<char>, c: char, at: int)
    requires
        0 <= at <= s.len(),
        forall|j: int| 0 <= j < at ==> s[j] != c,
        at == s.len() || s[at] == c,
    ensures
        before_char(s, c) == s.take(at),
    decreases s.len(),
{
    if s.len() > 0 {
        if at == 0 {
            assert(s.take(0) =~= Seq::<char>::empty());
        } else {
            assert forall|j: int| 0 <= j < at - 1 implies s.drop_first()[j] != c by {
                assert(s.drop_first()[j] == s[j + 1]);
            }
            if at < s.len() {
                assert(s.drop_first()[at - 1] == s[at]);
            }
            lemma_before_char(s.drop_first(), c, at - 1);
            assert(seq![s[0]] + s.drop_first().take(at - 1) =~= s.take(at));
        }
    } else {
        assert(s.take(at) =~= s);
    }
}

pub fn before_char_exec(s: &Vec<char>, c: char) -> (r: Vec<char>)
    ensures
        r@ == before_char(s@, c),
{
    match find_char(s, c) {
        Some(at) => {
            proof {
                lemma_before_char(s@, c, at as int);
            }
            slice_chars(s, 0, at)
        },
        None => {
            proof {
                assert forall|j: int| 0 <= j < s@.len() implies s@[j] != c by {
                    if s@[j] == c {
                        assert(s@.contains(c));
                    }
                }
                lemma_before_char(s@, c, s@.len() as int);
                assert(s@.take(s@.len() as int) =~= s@);
            }
            s.clone()
        },
    }
}

/// The pieces of `split(s, cs)` that are not empty after trimming, trimmed.
pub open spec fn trimmed_nonempty(parts: Seq<Seq<char>>) -> Seq<Seq<char>>
    decreases parts.len(),
{
    if parts.len() == 0 {
        Seq::<Seq<char>>::empty()
    } else {
        let prev = trimmed_nonempty(parts.drop_last());
        let t = trim_ws(parts.last());
        if t.len() > 0 {
            prev.push(t)
        } else {
            prev
        }
    }
}

pub fn trimmed_nonempty_exec(parts: &Vec<Vec<char>>) -> (r: Vec<Vec<char>>)
    ensures
        views(r@) == trimmed_nonempty(views(parts@)),
{
    let mut r: Vec<Vec<char>> = Vec::new();
    let mut i: usize = 0;
    while i < parts.len()
        invariant
            i <= parts.len(),
            views(r@) == trimmed_nonempty(views(parts@).take(i as int)),
        decreases parts.len() - i,
    {
        let t = trim_whitespace(&parts[i]);
        proof {
            let pv = views(parts@);
            assert(pv.take(i as int + 1).drop_last() =~= pv.take(i as int));
            assert(pv.take(i as int + 1).last() == parts@[i as int]@);
        }
        if t.len() > 0 {
            proof {
                assert(views(r@.push(t)) =~= views(r@).push(t@));
            }
            r.push(t);
        }
        i = i + 1;
    }
    assert(views(parts@).take(parts@.len() as int) =~= views(parts@));
    r
}

/// `s.split_whitespace()` as character vectors.
pub open spec fn words(s: Seq<char>) -> Seq<Seq<char>> {
    trimmed_nonempty(split(s, CharSet::Whitespace))
}

/// The decimal digits of `n`, most significant first.
pub open spec fn decimal(n: nat) -> Seq<char>
    decreases n,
{
    if n < 10 {
        seq![digit_char(n)]
    } else {
        decimal(n / 10).push(digit_char(n % 10))
    }
}

pub open spec fn digit_char(d: nat) -> char {
    if d == 0 {
        '0'
    } else if d == 1 {
        '1'
    } else if d == 2 {
        '2'
    } else if d == 3 {
        '3'
    } else if d == 4 {
        '4'
    } else if d == 5 {
        '5'
    } else if d == 6 {
        '6'
    } else if d == 7 {
        '7'
    } else if d == 8 {
        '8'
    } else {
        '9'
    }
}

fn digit(d: usize) -> (c: char)
    requires
        d < 10,
    ensures
        c == digit_char(d as nat),
{
    if d == 0 {
        '0'
    } else if d == 1 {
        '1'
    } else if d == 2 {
        '2'
    } else if d == 3 {
        '3'
    } else if d == 4 {
        '4'
    } else if d == 5 {
        '5'
    } else if d == 6 {
        '6'
    } else if d == 7 {
        '7'
    } else if d == 8 {
        '8'
    } else {
        '9'
    }
}

/// `n.to_string()` as characters.
pub fn decimal_chars(n: usize) -> (r: Vec<char>)
    ensures
        r@ == decimal(n as nat),
    decreases n,
{
    if n < 10 {
        let mut r: Vec<char> = Vec::new();
        r.push(digit(n));
        r
    } else {
        let mut r = decimal_chars(n / 10);
        r.push(digit(n % 10));
        r
    }
}

} // verus!

verus! {

/// The first position at or after `i` where `p` occurs in `s`.
pub open spec fn match_from(s: Seq<char>, p: Seq<char>, i: int) -> Option<int>
    decreases s.len() + 1 - i,
{
    if i < 0 || i > s.len() {
        None
    } else if matches_at(s, p, i) {
        Some(i)
    } else {
        match_from(s, p, i + 1)
    }
}

pub proof fn lemma_match_from_found(s: Seq<char>, p: Seq<char>, from: int, at: int)
    requires
        0 <= from,
        first_match_from(s, p, from, at),
    ensures
        match_from(s, p, from) == Some(at),
    decreases at - from,
{
    if from < at {
        lemma_match_from_found(s, p, from + 1, at);
    }
}

pub proof fn lemma_match_from_none(s: Seq<char>, p: Seq<char>, from: int)
    requires
        0 <= from,
        forall|j: int| from <= j ==> !matches_at(s, p, j),
    ensures
        match_from(s, p, from) is None,
    decreases s.len() + 1 - from,
{
    if from <= s.len() {
        lemma_match_from_none(s, p, from + 1);
    }
}

pub fn find_exec(s: &Vec<char>, p: &Vec<char>, from: usize) -> (r: Option<usize>)
    ensures
        match_from(s@, p@, from as int) == match r {
            Some(at) => Some(at as int),
            None => None::<int>,
        },
{
    let r = find_from(s, p, from);
    proof {
        match r {
            Some(at) => lemma_match_from_found(s@, p@, from as int, at as int),
            None => lemma_match_from_none(s@, p@, from as int),
        }
    }
    r
}

/// Trims the characters of `cs` off both ends of a trimmed-of-whitespace
/// value, the way `trim().trim_matches('"').trim_matches('\'')` does.
pub open spec fn unquote(v: Seq<char>) -> Seq<char> {
    trim(trim(trim_ws(v), CharSet::Only('"')), CharSet::Only('\''))
}

pub fn unquote_exec(v: &Vec<char>) -> (r: Vec<char>)
    ensures
        r@ == unquote(v@),
{
    let t = trim_whitespace(v);
    let t = trim_set(&t, CharSet::Only('"'));
    trim_set(&t, CharSet::Only('\''))
}

} // verus!

verus! {

pub proof fn lemma_match_from_bound(s: Seq<char>, p: Seq<char>, from: int, at: int)
    requires
        match_from(s, p, from) == Some(at),
    ensures
        from <= at <= s.len(),
        matches_at(s, p, at),
    decreases s.len() + 1 - from,
{
    if from >= 0 && from <= s.len() && !matches_at(s, p, from) {
        lemma_match_from_bound(s, p, from + 1, at);
    }
}

} // verus!
