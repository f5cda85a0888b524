//! A `/`-separated path as std's `Path` sees it: its components, when two
//! paths are the same path, and how paths are ordered (component by
//! component, the root before `.` before `..` before a name, names by their
//! characters).
use vstd::prelude::*;
use crate::text::{chars_of, eq_chars, split, split_set, views, CharSet};
use crate::index::{key_of, path_key, strs, NoteMeta};

verus! {

broadcast use vstd::string::group_string_axioms;

/// A component of a path.
pub enum Comp {
    Root,
    Cur,
    Parent,
    Normal(Seq<char>),
}

/// The components the pieces between separators give: empty pieces and `.`
/// name nothing, `..` is the parent.
pub open spec fn piece_comps(parts: Seq<Seq<char>>) -> Seq<Comp>
    decreases parts.len(),
{
    if parts.len() == 0 {
        Seq::<Comp>::empty()
    } else {
        let prev = piece_comps(parts.drop_last());
        let c = parts.last();
        if c.len() == 0 || c == seq!['.'] {
            prev
        } else if c == seq!['.', '.'] {
            prev.push(Comp::Parent)
        } else {
            prev.push(Comp::Normal(c))
        }
    }
}

/// Whether a path starts at the root.
pub open spec fn has_root(p: Seq<char>) -> bool {
    p.len() > 0 && p[0] == '/'
}

/// Whether a relative path starts with `.` as its own component.
pub open spec fn starts_here(p: Seq<char>) -> bool {
    !has_root(p) && split(p, CharSet::Only('/'))[0] == seq!['.']
}

/// `Path::components` of a `/`-separated path.
pub open spec fn comps(p: Seq<char>) -> Seq<Comp> {
    (if has_root(p) {
        seq![Comp::Root]
    } else {
        Seq::<Comp>::empty()
    }) + (if starts_here(p) {
        seq![Comp::Cur]
    } else {
        Seq::<Comp>::empty()
    }) + piece_comps(split(p, CharSet::Only('/')))
}

/// Whether two paths are the same path (`Path`'s `==`).
pub open spec fn same_path(a: Seq<char>, b: Seq<char>) -> bool {
    comps(a) == comps(b)
}

pub open spec fn rank(c: Comp) -> int {
    match c {
        Comp::Root => 0,
        Comp::Cur => 1,
        Comp::Parent => 2,
        Comp::Normal(_) => 3,
    }
}

/// Whether `a` comes before `b` character by character.
pub open spec fn chars_lt(a: Seq<char>, b: Seq<char>) -> bool
    decreases a.len(),
{
    if a.len() == 0 {
        b.len() > 0
    } else if b.len() == 0 {
        false
    } else if a[0] != b[0] {
        (a[0] as int) < (b[0] as int)
    } else {
        chars_lt(a.drop_first(), b.drop_first())
    }
}

pub open spec fn comp_lt(a: Comp, b: Comp) -> bool {
    match (a, b) {
        (Comp::Normal(x), Comp::Normal(y)) => chars_lt(x, y),
        _ => rank(a) < rank(b),
    }
}

/// Whether component sequence `a` comes before `b`.
pub open spec fn comps_lt(a: Seq<Comp>, b: Seq<Comp>) -> bool
    decreases a.len(),
{
    if a.len() == 0 {
        b.len() > 0
    } else if b.len() == 0 {
        false
    } else if a[0] != b[0] {
        comp_lt(a[0], b[0])
    } else {
        comps_lt(a.drop_first(), b.drop_first())
    }
}

/// Whether path `a` comes before path `b` (`Path`'s `<`).
pub open spec fn path_lt(a: Seq<char>, b: Seq<char>) -> bool {
    comps_lt(comps(a), comps(b))
}

/// A component held by the program.
#[derive(Debug, Clone, PartialEq, Eq)]
pub enum PathComp {
    Root,
    Cur,
    Parent,
    Normal(Vec<char>),
}

pub open spec fn comp_view(c: PathComp) -> Comp {
    match c {
        PathComp::Root => Comp::Root,
        PathComp::Cur => Comp::Cur,
        PathComp::Parent => Comp::Parent,
        PathComp::Normal(v) => Comp::Normal(v@),
    }
}

pub open spec fn comps_view(v: Seq<PathComp>) -> Seq<Comp> {
    v.map_values(|c: PathComp| comp_view(c))
}

proof fn lemma_comps_push(v: Seq<PathComp>, c: PathComp)
    ensures
        comps_view(v.push(c)) == comps_view(v).push(comp_view(c)),
{
    assert(comps_view(v.push(c)) =~= comps_view(v).push(comp_view(c)));
}

fn is_dot(c: &Vec<char>) -> (b: bool)
    ensures
        b == (c@ == seq!['.']),
{
    let r = c.len() == 1 && c[0] == '.';
    proof {
        if r {
            assert(c@ =~= seq!['.']);
        }
        if c@ == seq!['.'] {
            assert(c@[0] == '.');
        }
    }
    r
}

fn is_dot_dot(c: &Vec<char>) -> (b: bool)
    ensures
        b == (c@ == seq!['.', '.']),
{
    let r = c.len() == 2 && c[0] == '.' && c[1] == '.';
    proof {
        if r {
            assert(c@ =~= seq!['.', '.']);
        }
        if c@ == seq!['.', '.'] {
            assert(c@[0] == '.' && c@[1] == '.');
        }
    }
    r
}

/// The components of a path.
pub fn path_components(p: &str) -> (r: Vec<PathComp>)
    ensures
        comps_view(r@) == comps(p@),
{
    let s = chars_of(p);
    let parts = split_set(&s, CharSet::Only('/'));
    proof {
        crate::text::lemma_split_len(p@, CharSet::Only('/'));
        assert(views(parts@)[0] == parts@[0]@);
    }
    let mut r: Vec<PathComp> = Vec::new();
    let root = s.len() > 0 && s[0] == '/';
    if root {
        proof {
            lemma_comps_push(r@, PathComp::Root);
        }
        r.push(PathComp::Root);
    }
    if !root && is_dot(&parts[0]) {
        proof {
            lemma_comps_push(r@, PathComp::Cur);
        }
        r.push(PathComp::Cur);
    }
    let ghost head = comps_view(r@);
    assert(head =~= (if has_root(p@) {
        seq![Comp::Root]
    } else {
        Seq::<Comp>::empty()
    }) + (if starts_here(p@) {
        seq![Comp::Cur]
    } else {
        Seq::<Comp>::empty()
    }));
    let mut i: usize = 0;
    while i < parts.len()
        invariant
            i <= parts@.len(),
            comps_view(r@) == head + piece_comps(views(parts@).take(i as int)),
        decreases parts.len() - i,
    {
        let c = &parts[i];
        proof {
            let ps = views(parts@);
            assert(ps.take(i as int + 1).drop_last() =~= ps.take(i as int));
            assert(ps.take(i as int + 1).last() == c@);
        }
        if c.len() == 0 || is_dot(c) {
        } else if is_dot_dot(c) {
            proof {
                lemma_comps_push(r@, PathComp::Parent);
            }
            r.push(PathComp::Parent);
        } else {
            let n = PathComp::Normal(c.clone());
            proof {
                lemma_comps_push(r@, n);
            }
            r.push(n);
        }
        i = i + 1;
    }
    assert(views(parts@).take(parts@.len() as int) =~= views(parts@));
    r
}

pub(crate) fn chars_less(a: &Vec<char>, b: &Vec<char>) -> (r: bool)
    ensures
        r == chars_lt(a@, b@),
{
    let mut i: usize = 0;
    assert(a@.skip(0) =~= a@ && b@.skip(0) =~= b@);
    loop
        invariant
            i <= a@.len(),
            i <= b@.len(),
            chars_lt(a@, b@) == chars_lt(a@.skip(i as int), b@.skip(i as int)),
        decreases a@.len() - i,
    {
        if i == a.len() {
            assert(a@.skip(i as int).len() == 0);
            return i < b.len();
        }
        if i == b.len() {
            return false;
        }
        if a[i] != b[i] {
            assert(a@.skip(i as int)[0] == a@[i as int]);
            assert(b@.skip(i as int)[0] == b@[i as int]);
            return a[i] < b[i];
        }
        proof {
            assert(a@.skip(i as int)[0] == b@.skip(i as int)[0]);
            assert(a@.skip(i as int).drop_first() =~= a@.skip(i as int + 1));
            assert(b@.skip(i as int).drop_first() =~= b@.skip(i as int + 1));
        }
        i = i + 1;
    }
}

pub(crate) fn comp_equal(a: &PathComp, b: &PathComp) -> (r: bool)
    ensures
        r == (comp_view(*a) == comp_view(*b)),
{
    match (a, b) {
        (PathComp::Root, PathComp::Root) => true,
        (PathComp::Cur, PathComp::Cur) => true,
        (PathComp::Parent, PathComp::Parent) => true,
        (PathComp::Normal(x), PathComp::Normal(y)) => eq_chars(x, y),
        _ => false,
    }
}

fn comp_rank(c: &PathComp) -> (r: u8)
    ensures
        r as int == rank(comp_view(*c)),
{
    match c {
        PathComp::Root => 0,
        PathComp::Cur => 1,
        PathComp::Parent => 2,
        PathComp::Normal(_) => 3,
    }
}

fn comp_less(a: &PathComp, b: &PathComp) -> (r: bool)
    ensures
        r == comp_lt(comp_view(*a), comp_view(*b)),
{
    match (a, b) {
        (PathComp::Normal(x), PathComp::Normal(y)) => chars_less(x, y),
        _ => comp_rank(a) < comp_rank(b),
    }
}

fn comps_less(a: &Vec<PathComp>, b: &Vec<PathComp>) -> (r: bool)
    ensures
        r == comps_lt(comps_view(a@), comps_view(b@)),
{
    let ghost av = comps_view(a@);
    let ghost bv = comps_view(b@);
    let mut i: usize = 0;
    assert(av.skip(0) =~= av && bv.skip(0) =~= bv);
    loop
        invariant
            i <= a@.len(),
            i <= b@.len(),
            av == comps_view(a@),
            bv == comps_view(b@),
            comps_lt(av, bv) == comps_lt(av.skip(i as int), bv.skip(i as int)),
        decreases a@.len() - i,
    {
        if i == a.len() {
            assert(av.skip(i as int).len() == 0);
            return i < b.len();
        }
        if i == b.len() {
            return false;
        }
        assert(av.skip(i as int)[0] == comp_view(a@[i as int]));
        assert(bv.skip(i as int)[0] == comp_view(b@[i as int]));
        if !comp_equal(&a[i], &b[i]) {
            return comp_less(&a[i], &b[i]);
        }
        proof {
            assert(av.skip(i as int).drop_first() =~= av.skip(i as int + 1));
            assert(bv.skip(i as int).drop_first() =~= bv.skip(i as int + 1));
        }
        i = i + 1;
    }
}

pub(crate) fn comps_equal(a: &Vec<PathComp>, b: &Vec<PathComp>) -> (r: bool)
    ensures
        r == (comps_view(a@) == comps_view(b@)),
{
    if a.len() != b.len() {
        assert(comps_view(a@).len() != comps_view(b@).len());
        return false;
    }
    let mut i: usize = 0;
    while i < a.len()
        invariant
            i <= a@.len(),
            a@.len() == b@.len(),
            forall|j: int| 0 <= j < i ==> comps_view(a@)[j] == comps_view(b@)[j],
        decreases a.len() - i,
    {
        if !comp_equal(&a[i], &b[i]) {
            assert(comps_view(a@)[i as int] != comps_view(b@)[i as int]);
            return false;
        }
        i = i + 1;
    }
    assert(comps_view(a@) =~= comps_view(b@));
    true
}

/// Whether `a` and `b` are the same path.
pub fn same_note_path(a: &str, b: &str) -> (r: bool)
    ensures
        r == same_path(a@, b@),
{
    comps_equal(&path_components(a), &path_components(b))
}

/// Whether path `a` comes before path `b`.
pub fn path_less(a: &str, b: &str) -> (r: bool)
    ensures
        r == path_lt(a@, b@),
{
    comps_less(&path_components(a), &path_components(b))
}

// ---------------------------------------------------------------------------
// The order is a strict total order on components
// ---------------------------------------------------------------------------

pub(crate) proof fn lemma_chars_lt_irreflexive(a: Seq<char>)
    ensures
        !chars_lt(a, a),
    decreases a.len(),
{
    if a.len() > 0 {
        lemma_chars_lt_irreflexive(a.drop_first());
    }
}

pub(crate) proof fn lemma_chars_lt_transitive(a: Seq<char>, b: Seq<char>, c: Seq<char>)
    requires
        chars_lt(a, b),
        chars_lt(b, c),
    ensures
        chars_lt(a, c),
    decreases a.len(),
{
    if a.len() > 0 && b.len() > 0 && c.len() > 0 && a[0] == b[0] && b[0] == c[0] {
        lemma_chars_lt_transitive(a.drop_first(), b.drop_first(), c.drop_first());
    }
}

pub(crate) proof fn lemma_chars_lt_total(a: Seq<char>, b: Seq<char>)
    requires
        a != b,
    ensures
        chars_lt(a, b) || chars_lt(b, a),
    decreases a.len(),
{
    if a.len() > 0 && b.len() > 0 && a[0] == b[0] {
        if a.drop_first() == b.drop_first() {
            assert(a =~= seq![a[0]] + a.drop_first());
            assert(b =~= seq![b[0]] + b.drop_first());
        }
        lemma_chars_lt_total(a.drop_first(), b.drop_first());
    } else if a.len() > 0 && b.len() > 0 {
        assert((a[0] as int) != (b[0] as int));
    } else if a.len() == 0 && b.len() == 0 {
        assert(a =~= b);
    }
}

proof fn lemma_comp_lt_irreflexive(a: Comp)
    ensures
        !comp_lt(a, a),
{
    if let Comp::Normal(x) = a {
        lemma_chars_lt_irreflexive(x);
    }
}

proof fn lemma_comp_lt_transitive(a: Comp, b: Comp, c: Comp)
    requires
        comp_lt(a, b),
        comp_lt(b, c),
    ensures
        comp_lt(a, c),
{
    if let (Comp::Normal(x), Comp::Normal(y), Comp::Normal(z)) = (a, b, c) {
        lemma_chars_lt_transitive(x, y, z);
    }
}

proof fn lemma_comp_lt_total(a: Comp, b: Comp)
    requires
        a != b,
    ensures
        comp_lt(a, b) || comp_lt(b, a),
{
    if let (Comp::Normal(x), Comp::Normal(y)) = (a, b) {
        lemma_chars_lt_total(x, y);
    }
}

proof fn lemma_comps_lt_irreflexive(a: Seq<Comp>)
    ensures
        !comps_lt(a, a),
    decreases a.len(),
{
    if a.len() > 0 {
        lemma_comps_lt_irreflexive(a.drop_first());
    }
}

proof fn lemma_comps_lt_transitive(a: Seq<Comp>, b: Seq<Comp>, c: Seq<Comp>)
    requires
        comps_lt(a, b),
        comps_lt(b, c),
    ensures
        comps_lt(a, c),
    decreases a.len(),
{
    if a.len() > 0 && b.len() > 0 && c.len() > 0 {
        if a[0] == b[0] && b[0] == c[0] {
            lemma_comps_lt_transitive(a.drop_first(), b.drop_first(), c.drop_first());
        } else if a[0] != b[0] && b[0] != c[0] {
            lemma_comp_lt_transitive(a[0], b[0], c[0]);
            if a[0] == c[0] {
                lemma_comp_lt_irreflexive(a[0]);
            }
        }
    }
}

proof fn lemma_comps_lt_total(a: Seq<Comp>, b: Seq<Comp>)
    requires
        a != b,
    ensures
        comps_lt(a, b) || comps_lt(b, a),
    decreases a.len(),
{
    if a.len() > 0 && b.len() > 0 && a[0] == b[0] {
        if a.drop_first() == b.drop_first() {
            assert(a =~= seq![a[0]] + a.drop_first());
            assert(b =~= seq![b[0]] + b.drop_first());
        }
        lemma_comps_lt_total(a.drop_first(), b.drop_first());
    } else if a.len() > 0 && b.len() > 0 {
        lemma_comp_lt_total(a[0], b[0]);
    } else if a.len() == 0 && b.len() == 0 {
        assert(a =~= b);
    }
}

/// No path comes before itself, or before a path that is the same path.
pub proof fn lemma_path_lt_irreflexive(a: Seq<char>, b: Seq<char>)
    requires
        same_path(a, b),
    ensures
        !path_lt(a, b),
{
    lemma_comps_lt_irreflexive(comps(a));
}

/// The order of paths is transitive.
pub proof fn lemma_path_lt_transitive(a: Seq<char>, b: Seq<char>, c: Seq<char>)
    requires
        path_lt(a, b),
        path_lt(b, c),
    ensures
        path_lt(a, c),
{
    lemma_comps_lt_transitive(comps(a), comps(b), comps(c));
}

/// Of two paths that are not the same path, one comes before the other.
pub proof fn lemma_path_lt_total(a: Seq<char>, b: Seq<char>)
    requires
        !same_path(a, b),
    ensures
        path_lt(a, b) || path_lt(b, a),
{
    lemma_comps_lt_total(comps(a), comps(b));
}

// ---------------------------------------------------------------------------
// Ordered sets of paths
// ---------------------------------------------------------------------------

/// Adding path `x` to the ordered set `s` (a `BTreeSet` of paths): left out
/// when `s` holds the same path already, else put before the first path that
/// comes after it.
pub open spec fn set_insert(s: Seq<Seq<char>>, x: Seq<char>) -> Seq<Seq<char>>
    decreases s.len(),
{
    if s.len() == 0 {
        seq![x]
    } else if same_path(x, s[0]) {
        s
    } else if path_lt(x, s[0]) {
        seq![x] + s
    } else {
        seq![s[0]] + set_insert(s.drop_first(), x)
    }
}

/// The ordered set of the paths of `xs`, added in their order.
pub open spec fn path_set(xs: Seq<Seq<char>>) -> Seq<Seq<char>>
    decreases xs.len(),
{
    if xs.len() == 0 {
        Seq::<Seq<char>>::empty()
    } else {
        set_insert(path_set(xs.drop_last()), xs.last())
    }
}

/// Adds `x` to the ordered set `set`.
pub fn path_set_insert(set: &mut Vec<String>, x: String)
    ensures
        strs(final(set)@) == set_insert(strs(old(set)@), x@),
{
    let ghost s0 = strs(set@);
    let mut i: usize = 0;
    assert(s0.take(0) + s0.skip(0) =~= s0);
    while i < set.len()
        invariant
            i <= set@.len(),
            s0 == strs(set@),
            s0 == strs(old(set)@),
            set_insert(s0, x@) == s0.take(i as int) + set_insert(s0.skip(i as int), x@),
        decreases set.len() - i,
    {
        let ghost rest = s0.skip(i as int);
        assert(rest[0] == set@[i as int]@);
        if same_note_path(x.as_str(), set[i].as_str()) {
            assert(s0.take(i as int) + rest =~= s0);
            return;
        }
        if path_less(x.as_str(), set[i].as_str()) {
            set.insert(i, x);
            proof {
                assert(strs(set@) =~= s0.take(i as int) + (seq![x@] + rest));
            }
            return;
        }
        proof {
            assert(rest.drop_first() =~= s0.skip(i as int + 1));
            assert(s0.take(i as int) + (seq![rest[0]] + set_insert(rest.drop_first(), x@)) =~= s0.take(
                i as int + 1,
            ) + set_insert(s0.skip(i as int + 1), x@));
        }
        i = i + 1;
    }
    let ghost before = set@;
    set.push(x);
    proof {
        assert(s0.skip(i as int).len() == 0);
        assert(s0.take(i as int) =~= s0);
        assert(strs(set@) =~= strs(before).push(x@));
    }
}

/// Whether each path of `s` comes before the next.
pub open spec fn strictly_ordered(s: Seq<Seq<char>>) -> bool {
    forall|i: int, j: int| 0 <= i < j < s.len() ==> path_lt(#[trigger] s[i], #[trigger] s[j])
}

proof fn lemma_set_insert(s: Seq<Seq<char>>, x: Seq<char>)
    requires
        strictly_ordered(s),
    ensures
        strictly_ordered(set_insert(s, x)),
        forall|k: int| 0 <= k < set_insert(s, x).len() ==> (#[trigger] set_insert(s, x)[k] == x || s.contains(set_insert(s, x)[k])),
        exists|k: int| 0 <= k < set_insert(s, x).len() && same_path(x, #[trigger] set_insert(s, x)[k]),
        forall|k: int| 0 <= k < s.len() ==> set_insert(s, x).contains(#[trigger] s[k]),
    decreases s.len(),
{
    let r = set_insert(s, x);
    if s.len() == 0 {
        assert(r[0] == x);
    } else if same_path(x, s[0]) {
        assert(same_path(x, r[0]));
    } else if path_lt(x, s[0]) {
        assert forall|i: int, j: int| 0 <= i < j < r.len() implies path_lt(#[trigger] r[i], #[trigger] r[j]) by {
            if i == 0 {
                if j > 1 {
                    lemma_path_lt_transitive(x, s[0], s[j - 1]);
                }
            } else {
                assert(r[i] == s[i - 1] && r[j] == s[j - 1]);
            }
        }
        assert(same_path(x, r[0]));
        assert forall|k: int| 0 <= k < s.len() implies r.contains(#[trigger] s[k]) by {
            assert(r[k + 1] == s[k]);
        }
        assert forall|k: int| 0 <= k < r.len() implies (#[trigger] r[k] == x || s.contains(r[k])) by {
            if k > 0 {
                assert(r[k] == s[k - 1]);
            }
        }
    } else {
        let t = s.drop_first();
        assert forall|i: int, j: int| 0 <= i < j < t.len() implies path_lt(#[trigger] t[i], #[trigger] t[j]) by {
            assert(t[i] == s[i + 1] && t[j] == s[j + 1]);
        }
        lemma_set_insert(t, x);
        let rt = set_insert(t, x);
        assert(r == seq![s[0]] + rt);
        lemma_path_lt_total(x, s[0]);
        assert forall|i: int, j: int| 0 <= i < j < r.len() implies path_lt(#[trigger] r[i], #[trigger] r[j]) by {
            if i == 0 {
                assert(r[j] == rt[j - 1]);
                if rt[j - 1] == x {
                } else {
                    assert(t.contains(rt[j - 1]));
                    let k = choose|k: int| 0 <= k < t.len() && t[k] == rt[j - 1];
                    assert(t[k] == s[k + 1]);
                }
            } else {
                assert(r[i] == rt[i - 1] && r[j] == rt[j - 1]);
            }
        }
        let w = choose|k: int| 0 <= k < rt.len() && same_path(x, #[trigger] rt[k]);
        assert(r[w + 1] == rt[w]);
        assert forall|k: int| 0 <= k < s.len() implies r.contains(#[trigger] s[k]) by {
            if k == 0 {
                assert(r[0] == s[0]);
            } else {
                assert(s[k] == t[k - 1]);
                assert(rt.contains(t[k - 1]));
                let m = choose|m: int| 0 <= m < rt.len() && rt[m] == t[k - 1];
                assert(r[m + 1] == rt[m]);
            }
        }
        assert forall|k: int| 0 <= k < r.len() implies (#[trigger] r[k] == x || s.contains(r[k])) by {
            if k == 0 {
                assert(s[0] == r[0]);
            } else {
                assert(r[k] == rt[k - 1]);
                if rt[k - 1] != x {
                    let m = choose|m: int| 0 <= m < t.len() && t[m] == rt[k - 1];
                    assert(s[m + 1] == t[m]);
                }
            }
        }
    }
}

/// An ordered set of paths holds its paths in order, each only once; a path
/// of it is one that was added; and it holds the same path as each that was
/// added.
#[verifier::spinoff_prover]
#[verifier::rlimit(40)]
pub proof fn lemma_path_set(xs: Seq<Seq<char>>)
    ensures
        strictly_ordered(path_set(xs)),
        forall|k: int| 0 <= k < path_set(xs).len() ==> xs.contains(#[trigger] path_set(xs)[k]),
        forall|i: int| 0 <= i < xs.len() ==> exists|k: int|
            0 <= k < path_set(xs).len() && same_path(#[trigger] xs[i], path_set(xs)[k]),
    decreases xs.len(),
{
    if xs.len() > 0 {
        let init = xs.drop_last();
        lemma_path_set(init);
        let s = path_set(init);
        lemma_set_insert(s, xs.last());
        let r = path_set(xs);
        assert forall|k: int| 0 <= k < r.len() implies xs.contains(#[trigger] r[k]) by {
            if r[k] == xs.last() {
                assert(xs[xs.len() - 1] == r[k]);
            } else {
                let m = choose|m: int| 0 <= m < s.len() && s[m] == r[k];
                assert(init.contains(s[m]));
                let n = choose|n: int| 0 <= n < init.len() && init[n] == s[m];
                assert(xs[n] == init[n]);
            }
        }
        assert forall|i: int| 0 <= i < xs.len() implies exists|k: int|
            0 <= k < r.len() && same_path(#[trigger] xs[i], r[k]) by {
            if i < xs.len() - 1 {
                assert(xs[i] == init[i]);
                let k = choose|k: int| 0 <= k < s.len() && same_path(init[i], s[k]);
                assert(r.contains(s[k]));
                let m = choose|m: int| 0 <= m < r.len() && r[m] == s[k];
                assert(same_path(xs[i], r[m]));
            } else {
                let k = choose|k: int| 0 <= k < r.len() && same_path(xs.last(), #[trigger] r[k]);
                assert(same_path(xs[i], r[k]));
            }
        }
    }
}

// ---------------------------------------------------------------------------
// Notes in path order
// ---------------------------------------------------------------------------

/// No note comes before one ahead of it in `Path`'s order.
pub open spec fn sorted_by_path(s: Seq<NoteMeta>) -> bool {
    forall|i: int, j: int| 0 <= i < j < s.len() ==> !path_lt(#[trigger] s[j].path@, #[trigger] s[i].path@)
}

proof fn lemma_insert_by_path(before: Seq<NoteMeta>, pos: int, x: NoteMeta)
    requires
        sorted_by_path(before),
        0 <= pos <= before.len(),
        forall|i: int| 0 <= i < pos ==> !path_lt(x.path@, #[trigger] before[i].path@),
        pos < before.len() ==> path_lt(x.path@, before[pos].path@),
    ensures
        sorted_by_path(before.insert(pos, x)),
{
    let out = before.insert(pos, x);
    assert forall|j: int| pos <= j < before.len() implies !path_lt(#[trigger] before[j].path@, x.path@) by {
        if path_lt(before[j].path@, x.path@) {
            lemma_path_lt_transitive(before[j].path@, x.path@, before[pos].path@);
            if j == pos {
                lemma_comps_lt_irreflexive(comps(before[j].path@));
            }
        }
    }
    assert forall|i: int, j: int| 0 <= i < j < out.len() implies !path_lt(
        #[trigger] out[j].path@,
        #[trigger] out[i].path@,
    ) by {
        if i < pos && j == pos {
        } else if i < pos && j > pos {
            assert(out[j] == before[j - 1]);
            assert(out[i] == before[i]);
        } else if i == pos {
            assert(out[j] == before[j - 1]);
        } else if j < pos {
            assert(out[j] == before[j]);
            assert(out[i] == before[i]);
        } else {
            assert(out[j] == before[j - 1]);
            assert(out[i] == before[i - 1]);
        }
    }
}

proof fn lemma_moved_one<A>(out: Seq<A>, rest: Seq<A>, pos: int, orig: vstd::multiset::Multiset<A>)
    requires
        rest.len() > 0,
        0 <= pos <= out.len(),
        out.to_multiset().add(rest.to_multiset()) == orig,
    ensures
        out.insert(pos, rest[0]).to_multiset().add(rest.remove(0).to_multiset()) == orig,
{
    broadcast use vstd::multiset::group_multiset_axioms;

    vstd::seq_lib::to_multiset_remove(rest, 0);
    vstd::seq_lib::to_multiset_contains(rest, rest[0]);
    vstd::seq_lib::to_multiset_insert(out, pos, rest[0]);
    assert(out.insert(pos, rest[0]).to_multiset().add(rest.remove(0).to_multiset()) =~= orig);
}

/// `r` is `s` rearranged by the places `p`: the note at place `k` of `r`
/// is the one at place `p[k]` of `s`, each place of `s` used once, and
/// notes whose paths are the same path keep their order.
pub open spec fn stable_by_path(r: Seq<NoteMeta>, s: Seq<NoteMeta>, p: Seq<int>) -> bool {
    &&& p.len() == r.len() == s.len()
    &&& forall|k: int| 0 <= k < r.len() ==> 0 <= #[trigger] p[k] < s.len() && r[k] == s[p[k]]
    &&& forall|a: int, b: int| 0 <= a < b < r.len() ==> p[a] != p[b]
    &&& forall|a: int, b: int|
        0 <= a < b < r.len() && same_path(#[trigger] r[a].path@, #[trigger] r[b].path@) ==> p[a] < p[b]
}

/// The notes put in `Path`'s order of their paths, as a listing of the
/// notes shows them; notes whose paths are the same path keep their order
/// (the sort is stable).
pub fn sort_notes_by_path(notes: Vec<NoteMeta>) -> (r: Vec<NoteMeta>)
    ensures
        sorted_by_path(r@),
        r@.to_multiset() == notes@.to_multiset(),
        exists|p: Seq<int>| stable_by_path(r@, notes@, p),
{
    broadcast use vstd::multiset::group_multiset_axioms;

    let ghost all = notes@;
    let ghost orig = notes@.to_multiset();
    let ghost mut places: Seq<int> = Seq::empty();
    let ghost mut done: int = 0;
    let mut rest = notes;
    let mut out: Vec<NoteMeta> = Vec::new();
    assert(out@.to_multiset() =~= vstd::multiset::Multiset::<NoteMeta>::empty()) by {
        vstd::seq_lib::to_multiset_len(out@);
    }
    assert(out@.to_multiset().add(rest@.to_multiset()) =~= orig);
    assert(rest@ =~= all.skip(0));
    while rest.len() > 0
        invariant
            sorted_by_path(out@),
            out@.to_multiset().add(rest@.to_multiset()) == orig,
            0 <= done <= all.len(),
            rest@ == all.skip(done),
            places.len() == out@.len() == done,
            forall|k: int| 0 <= k < out@.len() ==> 0 <= #[trigger] places[k] < done && out@[k] == all[places[k]],
            forall|a: int, b: int| 0 <= a < b < out@.len() ==> places[a] != places[b],
            forall|a: int, b: int|
                0 <= a < b < out@.len() && same_path(#[trigger] out@[a].path@, #[trigger] out@[b].path@)
                    ==> places[a] < places[b],
        decreases rest.len(),
    {
        let ghost rest_before = rest@;
        let x = rest.remove(0);
        assert(x == all[done]);
        let mut pos: usize = 0;
        while pos < out.len() && !path_less(x.path.as_str(), out[pos].path.as_str())
            invariant
                pos <= out@.len(),
                forall|i: int| 0 <= i < pos ==> !path_lt(x.path@, #[trigger] out@[i].path@),
            decreases out.len() - pos,
        {
            pos = pos + 1;
        }
        let ghost before = out@;
        let ghost old_places = places;
        proof {
            lemma_insert_by_path(before, pos as int, x);
            lemma_moved_one(before, rest_before, pos as int, orig);
            assert forall|j: int| pos <= j < before.len() implies !same_path(x.path@, #[trigger] before[j].path@) by {
                if same_path(x.path@, before[j].path@) {
                    assert(path_lt(before[j].path@, before[pos as int].path@));
                    if j == pos {
                        lemma_comps_lt_irreflexive(comps(before[j].path@));
                    }
                }
            }
            places = old_places.insert(pos as int, done);
        }
        out.insert(pos, x);
        proof {
            assert forall|k: int| 0 <= k < out@.len() implies 0 <= #[trigger] places[k] < done + 1 && out@[k]
                == all[places[k]] by {
                if k < pos {
                    assert(places[k] == old_places[k]);
                } else if k > pos {
                    assert(places[k] == old_places[k - 1]);
                }
            }
            assert forall|a: int, b: int| 0 <= a < b < out@.len() implies places[a] != places[b] by {
                if a != pos && b != pos {
                    let oa = if a < pos { a } else { a - 1 };
                    let ob = if b < pos { b } else { b - 1 };
                    assert(places[a] == old_places[oa] && places[b] == old_places[ob]);
                } else if a == pos {
                    assert(places[b] == old_places[b - 1]);
                } else {
                    assert(places[a] == old_places[a]);
                }
            }
            assert forall|a: int, b: int|
                0 <= a < b < out@.len() && same_path(#[trigger] out@[a].path@, #[trigger] out@[b].path@) implies places[a]
                < places[b] by {
                if a != pos && b != pos {
                    let oa = if a < pos { a } else { a - 1 };
                    let ob = if b < pos { b } else { b - 1 };
                    assert(places[a] == old_places[oa] && places[b] == old_places[ob]);
                    assert(out@[a] == before[oa] && out@[b] == before[ob]);
                } else if a == pos {
                    assert(out@[b] == before[b - 1]);
                    assert(!same_path(x.path@, before[b - 1].path@));
                } else {
                    assert(places[a] == old_places[a]);
                }
            }
            done = done + 1;
            assert(rest@ =~= all.skip(done));
        }
    }
    assert(rest@.to_multiset() =~= vstd::multiset::Multiset::<NoteMeta>::empty()) by {
        vstd::seq_lib::to_multiset_len(rest@);
    }
    assert(out@.to_multiset() =~= out@.to_multiset().add(rest@.to_multiset()));
    assert(stable_by_path(out@, all, places));
    out
}

/// No path comes before one ahead of it in the order of their keys' text.
pub open spec fn sorted_by_key(s: Seq<String>) -> bool {
    forall|i: int, j: int| 0 <= i < j < s.len() ==> !chars_lt(key_of(#[trigger] s[j]@), key_of(#[trigger] s[i]@))
}

proof fn lemma_insert_by_key(before: Seq<String>, pos: int, x: String)
    requires
        sorted_by_key(before),
        0 <= pos <= before.len(),
        forall|i: int| 0 <= i < pos ==> !chars_lt(key_of(x@), key_of(#[trigger] before[i]@)),
        pos < before.len() ==> chars_lt(key_of(x@), key_of(before[pos]@)),
    ensures
        sorted_by_key(before.insert(pos, x)),
{
    let out = before.insert(pos, x);
    assert forall|j: int| pos <= j < before.len() implies !chars_lt(key_of(#[trigger] before[j]@), key_of(x@)) by {
        if chars_lt(key_of(before[j]@), key_of(x@)) {
            lemma_chars_lt_transitive(key_of(before[j]@), key_of(x@), key_of(before[pos]@));
            if j == pos {
                lemma_chars_lt_irreflexive(key_of(before[j]@));
            }
        }
    }
    assert forall|i: int, j: int| 0 <= i < j < out.len() implies !chars_lt(
        key_of(#[trigger] out[j]@),
        key_of(#[trigger] out[i]@),
    ) by {
        if i < pos && j == pos {
        } else if i < pos && j > pos {
            assert(out[j] == before[j - 1]);
            assert(out[i] == before[i]);
        } else if i == pos {
            assert(out[j] == before[j - 1]);
        } else if j < pos {
            assert(out[j] == before[j]);
            assert(out[i] == before[i]);
        } else {
            assert(out[j] == before[j - 1]);
            assert(out[i] == before[i - 1]);
        }
    }
}

/// `r` is `s` rearranged by the places `p`, each place of `s` used once,
/// and paths with the same key keeping their order.
pub open spec fn stable_by_key(r: Seq<String>, s: Seq<String>, p: Seq<int>) -> bool {
    &&& p.len() == r.len() == s.len()
    &&& forall|k: int| 0 <= k < r.len() ==> 0 <= #[trigger] p[k] < s.len() && r[k] == s[p[k]]
    &&& forall|a: int, b: int| 0 <= a < b < r.len() ==> p[a] != p[b]
    &&& forall|a: int, b: int|
        0 <= a < b < r.len() && key_of(#[trigger] r[a]@) == key_of(#[trigger] r[b]@) ==> p[a] < p[b]
}

/// Paths put in the order of their keys' text (`sort_by_key` with
/// `path_key`), as the vault lists its notes; paths with the same key keep
/// their order (the sort is stable).
pub fn sort_paths_by_key(paths: Vec<String>) -> (r: Vec<String>)
    ensures
        sorted_by_key(r@),
        r@.to_multiset() == paths@.to_multiset(),
        exists|p: Seq<int>| stable_by_key(r@, paths@, p),
{
    broadcast use vstd::multiset::group_multiset_axioms;

    let ghost all = paths@;
    let ghost orig = paths@.to_multiset();
    let ghost mut places: Seq<int> = Seq::empty();
    let ghost mut done: int = 0;
    let mut rest = paths;
    let mut out: Vec<String> = Vec::new();
    assert(out@.to_multiset() =~= vstd::multiset::Multiset::<String>::empty()) by {
        vstd::seq_lib::to_multiset_len(out@);
    }
    assert(out@.to_multiset().add(rest@.to_multiset()) =~= orig);
    assert(rest@ =~= all.skip(0));
    while rest.len() > 0
        invariant
            sorted_by_key(out@),
            out@.to_multiset().add(rest@.to_multiset()) == orig,
            0 <= done <= all.len(),
            rest@ == all.skip(done),
            places.len() == out@.len() == done,
            forall|k: int| 0 <= k < out@.len() ==> 0 <= #[trigger] places[k] < done && out@[k] == all[places[k]],
            forall|a: int, b: int| 0 <= a < b < out@.len() ==> places[a] != places[b],
            forall|a: int, b: int|
                0 <= a < b < out@.len() && key_of(#[trigger] out@[a]@) == key_of(#[trigger] out@[b]@) ==> places[a]
                    < places[b],
        decreases rest.len(),
    {
        let ghost rest_before = rest@;
        let x = rest.remove(0);
        assert(x == all[done]);
        let xk = chars_of(path_key(x.as_str()).as_str());
        let mut pos: usize = 0;
        while pos < out.len() && !chars_less(&xk, &chars_of(path_key(out[pos].as_str()).as_str()))
            invariant
                pos <= out@.len(),
                xk@ == key_of(x@),
                forall|i: int| 0 <= i < pos ==> !chars_lt(key_of(x@), key_of(#[trigger] out@[i]@)),
            decreases out.len() - pos,
        {
            pos = pos + 1;
        }
        let ghost before = out@;
        let ghost old_places = places;
        proof {
            lemma_insert_by_key(before, pos as int, x);
            lemma_moved_one(before, rest_before, pos as int, orig);
            assert forall|j: int| pos <= j < before.len() implies key_of(x@) != key_of(#[trigger] before[j]@) by {
                if key_of(x@) == key_of(before[j]@) {
                    assert(chars_lt(key_of(before[j]@), key_of(before[pos as int]@)));
                    if j == pos {
                        lemma_chars_lt_irreflexive(key_of(before[j]@));
                    }
                }
            }
            places = old_places.insert(pos as int, done);
        }
        out.insert(pos, x);
        proof {
            assert forall|k: int| 0 <= k < out@.len() implies 0 <= #[trigger] places[k] < done + 1 && out@[k]
                == all[places[k]] by {
                if k < pos {
                    assert(places[k] == old_places[k]);
                } else if k > pos {
                    assert(places[k] == old_places[k - 1]);
                }
            }
            assert forall|a: int, b: int| 0 <= a < b < out@.len() implies places[a] != places[b] by {
                if a != pos && b != pos {
                    let oa = if a < pos { a } else { a - 1 };
                    let ob = if b < pos { b } else { b - 1 };
                    assert(places[a] == old_places[oa] && places[b] == old_places[ob]);
                } else if a == pos {
                    assert(places[b] == old_places[b - 1]);
                } else {
                    assert(places[a] == old_places[a]);
                }
            }
            assert forall|a: int, b: int|
                0 <= a < b < out@.len() && key_of(#[trigger] out@[a]@) == key_of(#[trigger] out@[b]@) implies places[a]
                < places[b] by {
                if a != pos && b != pos {
                    let oa = if a < pos { a } else { a - 1 };
                    let ob = if b < pos { b } else { b - 1 };
                    assert(places[a] == old_places[oa] && places[b] == old_places[ob]);
                    assert(out@[a] == before[oa] && out@[b] == before[ob]);
                } else if a == pos {
                    assert(out@[b] == before[b - 1]);
                } else {
                    assert(places[a] == old_places[a]);
                }
            }
            done = done + 1;
            assert(rest@ =~= all.skip(done));
        }
    }
    assert(rest@.to_multiset() =~= vstd::multiset::Multiset::<String>::empty()) by {
        vstd::seq_lib::to_multiset_len(rest@);
    }
    assert(out@.to_multiset() =~= out@.to_multiset().add(rest@.to_multiset()));
    assert(stable_by_key(out@, all, places));
    out
}

} // verus!
