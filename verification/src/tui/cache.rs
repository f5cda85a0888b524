//! The buffers of notes the browser switched away from, kept so that going
//! back restores them: at most `MAX_NOTE_BUFFER_CACHE` are kept, and the
//! one used longest ago goes first.
//!
//! The cache is a table from note paths to buffers and a list of paths from
//! the one used longest ago to the one used last. Paths are compared as
//! paths (`a//b.md` is `a/b.md`).
use std::collections::VecDeque;
use vstd::prelude::*;
use crate::tui::paths::{same_note_path, same_path};

verus! {

/// How many buffers the cache keeps.
pub const MAX_NOTE_BUFFER_CACHE: usize = 24;

/// The first place in `keys` of a path that is the same path as `p`.
pub open spec fn find_key(keys: Seq<Seq<char>>, p: Seq<char>) -> Option<int>
    decreases keys.len(),
{
    if keys.len() == 0 {
        None
    } else if same_path(keys[0], p) {
        Some(0)
    } else {
        match find_key(keys.drop_first(), p) {
            Some(i) => Some(i + 1),
            None => None,
        }
    }
}

/// `keys` without the first path that is the same path as `p`.
pub open spec fn without_key(keys: Seq<Seq<char>>, p: Seq<char>) -> Seq<Seq<char>> {
    match find_key(keys, p) {
        Some(i) => keys.remove(i),
        None => keys,
    }
}

/// Whether no two of `keys` are the same path.
pub open spec fn distinct_paths(keys: Seq<Seq<char>>) -> bool {
    forall|i: int, j: int| 0 <= i < keys.len() && 0 <= j < keys.len() && i != j ==> !same_path(#[trigger] keys[i], #[trigger] keys[j])
}

/// Whether `p` is the same path as one of `keys`.
pub open spec fn has_path(keys: Seq<Seq<char>>, p: Seq<char>) -> bool {
    exists|j: int| 0 <= j < keys.len() && same_path(#[trigger] keys[j], p)
}

/// Whether the table's paths and the order's are the same paths, as many of
/// each.
pub open spec fn agree(keys: Seq<Seq<char>>, order: Seq<Seq<char>>) -> bool {
    &&& keys.len() == order.len()
    &&& forall|i: int| 0 <= i < keys.len() ==> has_path(order, #[trigger] keys[i])
    &&& forall|i: int| 0 <= i < order.len() ==> has_path(keys, #[trigger] order[i])
}

/// The buffer cache.
pub struct BufferCache<T> {
    keys: Vec<String>,
    values: Vec<T>,
    lru: VecDeque<String>,
}

impl<T> BufferCache<T> {
    /// The paths of the table, in the table's order.
    pub closed spec fn table_keys(&self) -> Seq<Seq<char>> {
        self.keys@.map_values(|k: String| k@)
    }

    /// The buffers of the table, in the same order.
    pub closed spec fn table_values(&self) -> Seq<T> {
        self.values@
    }

    /// The paths from the one used longest ago to the one used last.
    pub closed spec fn order(&self) -> Seq<Seq<char>> {
        self.lru@.map_values(|k: String| k@)
    }

    /// The buffer kept for path `p`.
    pub open spec fn lookup(&self, p: Seq<char>) -> Option<T> {
        match find_key(self.table_keys(), p) {
            Some(i) => Some(self.table_values()[i]),
            None => None,
        }
    }

    /// The table has a buffer for each path, each path once, and so does the
    /// order.
    pub closed spec fn wf(&self) -> bool {
        &&& self.keys@.len() == self.values@.len()
        &&& distinct_paths(self.table_keys())
        &&& distinct_paths(self.order())
    }

    /// Every path of the table is in the order and every path of the order
    /// is in the table, as it is while buffers are only stashed, taken and
    /// dropped.
    pub closed spec fn consistent(&self) -> bool {
        &&& agree(self.table_keys(), self.order())
        &&& self.keys@.len() <= MAX_NOTE_BUFFER_CACHE
    }

    pub closed spec fn size(&self) -> nat {
        self.keys@.len()
    }
}

proof fn lemma_find_key_bound(keys: Seq<Seq<char>>, p: Seq<char>)
    ensures
        match find_key(keys, p) {
            Some(i) => 0 <= i < keys.len() && same_path(keys[i], p) && forall|j: int| 0 <= j < i ==> !same_path(#[trigger] keys[j], p),
            None => forall|j: int| 0 <= j < keys.len() ==> !same_path(#[trigger] keys[j], p),
        },
    decreases keys.len(),
{
    if keys.len() > 0 {
        let t = keys.drop_first();
        lemma_find_key_bound(t, p);
        match find_key(t, p) {
            Some(i) => {
                assert forall|j: int| 1 <= j < i + 1 implies !same_path(#[trigger] keys[j], p) by {
                    assert(keys[j] == t[j - 1]);
                }
            },
            None => {
                assert forall|j: int| 1 <= j < keys.len() implies !same_path(#[trigger] keys[j], p) by {
                    assert(keys[j] == t[j - 1]);
                }
            },
        }
    }
}

proof fn lemma_find_key_at(keys: Seq<Seq<char>>, p: Seq<char>, i: int)
    requires
        0 <= i < keys.len(),
        same_path(keys[i], p),
        forall|j: int| 0 <= j < i ==> !same_path(#[trigger] keys[j], p),
    ensures
        find_key(keys, p) == Some(i),
    decreases keys.len(),
{
    if i > 0 {
        let t = keys.drop_first();
        assert forall|j: int| 0 <= j < i - 1 implies !same_path(#[trigger] t[j], p) by {
            assert(t[j] == keys[j + 1]);
        }
        assert(t[i - 1] == keys[i]);
        lemma_find_key_at(t, p, i - 1);
    }
}

proof fn lemma_find_key_none(keys: Seq<Seq<char>>, p: Seq<char>)
    requires
        forall|j: int| 0 <= j < keys.len() ==> !same_path(#[trigger] keys[j], p),
    ensures
        find_key(keys, p) is None,
{
    lemma_find_key_bound(keys, p);
    if find_key(keys, p) is Some {
        let i = find_key(keys, p).unwrap();
        assert(!same_path(keys[i], p));
    }
}

fn position_of(v: &Vec<String>, p: &str) -> (r: Option<usize>)
    ensures
        match r {
            Some(i) => find_key(v@.map_values(|k: String| k@), p@) == Some(i as int) && i < v@.len(),
            None => find_key(v@.map_values(|k: String| k@), p@) is None,
        },
{
    let ghost ks = v@.map_values(|k: String| k@);
    let mut i: usize = 0;
    while i < v.len()
        invariant
            i <= v@.len(),
            ks == v@.map_values(|k: String| k@),
            forall|j: int| 0 <= j < i ==> !same_path(#[trigger] ks[j], p@),
        decreases v.len() - i,
    {
        assert(ks[i as int] == v@[i as int]@);
        if same_note_path(v[i].as_str(), p) {
            proof {
                lemma_find_key_at(ks, p@, i as int);
            }
            return Some(i);
        }
        i = i + 1;
    }
    proof {
        lemma_find_key_none(ks, p@);
    }
    None
}

fn position_in_order(q: &VecDeque<String>, p: &str) -> (r: Option<usize>)
    ensures
        match r {
            Some(i) => find_key(q@.map_values(|k: String| k@), p@) == Some(i as int) && i < q@.len(),
            None => find_key(q@.map_values(|k: String| k@), p@) is None,
        },
{
    let ghost ks = q@.map_values(|k: String| k@);
    let mut i: usize = 0;
    while i < q.len()
        invariant
            i <= q@.len(),
            ks == q@.map_values(|k: String| k@),
            forall|j: int| 0 <= j < i ==> !same_path(#[trigger] ks[j], p@),
        decreases q@.len() - i,
    {
        assert(ks[i as int] == q@[i as int]@);
        if same_note_path(q[i].as_str(), p) {
            proof {
                lemma_find_key_at(ks, p@, i as int);
            }
            return Some(i);
        }
        i = i + 1;
    }
    proof {
        lemma_find_key_none(ks, p@);
    }
    None
}

proof fn lemma_distinct_remove(keys: Seq<Seq<char>>, i: int)
    requires
        distinct_paths(keys),
        0 <= i < keys.len(),
    ensures
        distinct_paths(keys.remove(i)),
{
    let r = keys.remove(i);
    assert forall|a: int, b: int| 0 <= a < r.len() && 0 <= b < r.len() && a != b implies !same_path(#[trigger] r[a], #[trigger] r[b]) by {
        let a2 = if a < i { a } else { a + 1 };
        let b2 = if b < i { b } else { b + 1 };
        assert(r[a] == keys[a2] && r[b] == keys[b2]);
    }
}

proof fn lemma_distinct_push(keys: Seq<Seq<char>>, p: Seq<char>)
    requires
        distinct_paths(keys),
        find_key(keys, p) is None,
    ensures
        distinct_paths(keys.push(p)),
{
    lemma_find_key_bound(keys, p);
    let r = keys.push(p);
    assert forall|a: int, b: int| 0 <= a < r.len() && 0 <= b < r.len() && a != b implies !same_path(#[trigger] r[a], #[trigger] r[b]) by {
        if a == keys.len() {
            assert(!same_path(keys[b], p));
        } else if b == keys.len() {
            assert(!same_path(keys[a], p));
        } else {
            assert(r[a] == keys[a] && r[b] == keys[b]);
        }
    }
}

proof fn lemma_without_key_none(keys: Seq<Seq<char>>, p: Seq<char>)
    requires
        distinct_paths(keys),
    ensures
        find_key(without_key(keys, p), p) is None,
        distinct_paths(without_key(keys, p)),
{
    lemma_find_key_bound(keys, p);
    match find_key(keys, p) {
        Some(i) => {
            let r = keys.remove(i);
            lemma_distinct_remove(keys, i);
            assert forall|j: int| 0 <= j < r.len() implies !same_path(#[trigger] r[j], p) by {
                let j2 = if j < i { j } else { j + 1 };
                assert(r[j] == keys[j2]);
                if same_path(keys[j2], p) {
                    assert(same_path(keys[j2], keys[i]));
                }
            }
            lemma_find_key_none(r, p);
        },
        None => {},
    }
}

impl<T> BufferCache<T> {
    /// An empty cache.
    pub fn new() -> (r: Self)
        ensures
            r.wf(),
            r.consistent(),
            r.size() == 0,
            forall|p: Seq<char>| r.lookup(p) is None,
    {
        let r = BufferCache { keys: Vec::new(), values: Vec::new(), lru: VecDeque::new() };
        assert(r.table_keys() =~= Seq::<Seq<char>>::empty());
        assert(r.order() =~= Seq::<Seq<char>>::empty());
        r
    }

    /// How many buffers are kept.
    pub fn len(&self) -> (r: usize)
        requires
            self.wf(),
        ensures
            r == self.size(),
    {
        self.keys.len()
    }

    fn touch(&mut self, key: &str)
        requires
            old(self).wf(),
        ensures
            final(self).wf(),
            final(self).keys@ == old(self).keys@,
            final(self).values@ == old(self).values@,
            final(self).order() == without_key(old(self).order(), key@).push(key@),
    {
        let ghost o = self.order();
        match position_in_order(&self.lru, key) {
            Some(i) => {
                self.lru.remove(i);
                proof {
                    assert(self.order() =~= o.remove(i as int));
                    lemma_distinct_remove(o, i as int);
                }
            },
            None => {},
        }
        proof {
            lemma_without_key_none(o, key@);
        }
        let k = String::from_str(key);
        self.lru.push_back(k);
        proof {
            assert(self.order() =~= without_key(o, key@).push(key@));
            lemma_distinct_push(without_key(o, key@), key@);
        }
    }
}

/// The table once `p` holds `v`: the buffer replaced when the table has
/// the path, else the pair added.
pub open spec fn inserted_keys(keys: Seq<Seq<char>>, p: Seq<char>) -> Seq<Seq<char>> {
    match find_key(keys, p) {
        Some(_) => keys,
        None => keys.push(p),
    }
}

pub open spec fn inserted_values<T>(keys: Seq<Seq<char>>, values: Seq<T>, p: Seq<char>, v: T) -> Seq<T> {
    match find_key(keys, p) {
        Some(i) => values.update(i, v),
        None => values.push(v),
    }
}

/// Making room: while the table holds more than the limit, the path used
/// longest ago leaves the order and its buffer the table.
pub open spec fn evicted<T>(keys: Seq<Seq<char>>, values: Seq<T>, order: Seq<Seq<char>>) -> (Seq<Seq<char>>, Seq<T>, Seq<Seq<char>>)
    decreases order.len(),
{
    if keys.len() <= MAX_NOTE_BUFFER_CACHE || order.len() == 0 {
        (keys, values, order)
    } else {
        match find_key(keys, order[0]) {
            Some(i) => evicted(keys.remove(i), values.remove(i), order.drop_first()),
            None => evicted(keys, values, order.drop_first()),
        }
    }
}

impl<T> BufferCache<T> {
    /// Putting `v` in the table under `key` (the order is left as it is).
    pub fn insert_entry(&mut self, key: String, v: T)
        requires
            old(self).wf(),
        ensures
            final(self).wf(),
            final(self).table_keys() == inserted_keys(old(self).table_keys(), key@),
            final(self).table_values() == inserted_values(old(self).table_keys(), old(self).table_values(), key@, v),
            final(self).order() == old(self).order(),
    {
        let ghost ks = self.table_keys();
        match position_of(&self.keys, key.as_str()) {
            Some(i) => {
                self.values.set(i, v);
            },
            None => {
                proof {
                    lemma_distinct_push(ks, key@);
                }
                self.keys.push(key);
                self.values.push(v);
                assert(self.table_keys() =~= ks.push(key@));
            },
        }
    }

    /// Taking the buffer of `key` out of the table (the order is left as it
    /// is).
    pub fn remove_entry(&mut self, key: &str) -> (r: Option<T>)
        requires
            old(self).wf(),
        ensures
            final(self).wf(),
            r == old(self).lookup(key@),
            final(self).table_keys() == without_key(old(self).table_keys(), key@),
            final(self).order() == old(self).order(),
            match find_key(old(self).table_keys(), key@) {
                Some(i) => final(self).table_values() == old(self).table_values().remove(i),
                None => final(self).table_values() == old(self).table_values(),
            },
    {
        let ghost ks = self.table_keys();
        match position_of(&self.keys, key) {
            Some(i) => {
                self.keys.remove(i);
                let v = self.values.remove(i);
                proof {
                    assert(self.table_keys() =~= ks.remove(i as int));
                    lemma_distinct_remove(ks, i as int);
                }
                Some(v)
            },
            None => None,
        }
    }

    fn forget(&mut self, key: &str)
        requires
            old(self).wf(),
        ensures
            final(self).wf(),
            final(self).keys@ == old(self).keys@,
            final(self).values@ == old(self).values@,
            final(self).order() == without_key(old(self).order(), key@),
    {
        let ghost o = self.order();
        match position_in_order(&self.lru, key) {
            Some(i) => {
                self.lru.remove(i);
                proof {
                    assert(self.order() =~= o.remove(i as int));
                    lemma_distinct_remove(o, i as int);
                }
            },
            None => {},
        }
    }

    fn evict(&mut self)
        requires
            old(self).wf(),
        ensures
            final(self).wf(),
            (final(self).table_keys(), final(self).table_values(), final(self).order()) == evicted(
                old(self).table_keys(),
                old(self).table_values(),
                old(self).order(),
            ),
    {
        let ghost target = evicted(self.table_keys(), self.table_values(), self.order());
        while self.keys.len() > MAX_NOTE_BUFFER_CACHE && self.lru.len() > 0
            invariant
                self.wf(),
                evicted(self.table_keys(), self.table_values(), self.order()) == target,
            decreases self.lru@.len(),
        {
            let ghost o = self.order();
            if let Some(oldest) = self.lru.pop_front() {
                proof {
                    assert(oldest@ == o[0]);
                    lemma_distinct_remove(o, 0);
                    assert(self.order() =~= o.remove(0));
                    assert(o.remove(0) =~= o.drop_first());
                }
                let ghost ks = self.table_keys();
                let ghost vs = self.table_values();
                match position_of(&self.keys, oldest.as_str()) {
                    Some(i) => {
                        self.keys.remove(i);
                        self.values.remove(i);
                        proof {
                            assert(self.table_keys() =~= ks.remove(i as int));
                            lemma_distinct_remove(ks, i as int);
                        }
                    },
                    None => {},
                }
            }
        }
    }
}

proof fn lemma_find_key_has(keys: Seq<Seq<char>>, p: Seq<char>)
    ensures
        (find_key(keys, p) is Some) == has_path(keys, p),
{
    lemma_find_key_bound(keys, p);
    if has_path(keys, p) {
        let j = choose|j: int| 0 <= j < keys.len() && same_path(#[trigger] keys[j], p);
        if find_key(keys, p) is None {
            assert(!same_path(keys[j], p));
        }
    }
}

proof fn lemma_has_without(keys: Seq<Seq<char>>, p: Seq<char>, x: Seq<char>)
    requires
        has_path(keys, x),
        !same_path(x, p),
    ensures
        has_path(without_key(keys, p), x),
{
    lemma_find_key_bound(keys, p);
    let j = choose|j: int| 0 <= j < keys.len() && same_path(#[trigger] keys[j], x);
    match find_key(keys, p) {
        Some(i) => {
            assert(i != j);
            let r = keys.remove(i);
            let j2 = if j < i { j } else { j - 1 };
            assert(r[j2] == keys[j]);
        },
        None => {},
    }
}

proof fn lemma_has_of_without(keys: Seq<Seq<char>>, p: Seq<char>, y: Seq<char>)
    requires
        has_path(without_key(keys, p), y),
    ensures
        has_path(keys, y),
{
    lemma_find_key_bound(keys, p);
    let w = without_key(keys, p);
    let j = choose|j: int| 0 <= j < w.len() && same_path(#[trigger] w[j], y);
    match find_key(keys, p) {
        Some(i) => {
            let j2 = if j < i { j } else { j + 1 };
            assert(w[j] == keys[j2]);
        },
        None => {},
    }
}

proof fn lemma_without_len(keys: Seq<Seq<char>>, p: Seq<char>)
    ensures
        has_path(keys, p) ==> without_key(keys, p).len() == keys.len() - 1,
        !has_path(keys, p) ==> without_key(keys, p) == keys,
{
    lemma_find_key_bound(keys, p);
    lemma_find_key_has(keys, p);
}

/// Stashing keeps the table and the order in agreement.
proof fn lemma_stash_agree(keys: Seq<Seq<char>>, order: Seq<Seq<char>>, p: Seq<char>)
    requires
        agree(keys, order),
        distinct_paths(order),
    ensures
        agree(inserted_keys(keys, p), without_key(order, p).push(p)),
{
    lemma_find_key_has(keys, p);
    lemma_find_key_has(order, p);
    lemma_without_len(order, p);
    let k2 = inserted_keys(keys, p);
    let o2 = without_key(order, p).push(p);
    if has_path(keys, p) {
        let j = choose|j: int| 0 <= j < keys.len() && same_path(#[trigger] keys[j], p);
        assert(has_path(order, keys[j]));
        let m = choose|m: int| 0 <= m < order.len() && same_path(#[trigger] order[m], keys[j]);
        assert(same_path(order[m], p));
        assert(has_path(order, p));
    } else {
        if has_path(order, p) {
            let m = choose|m: int| 0 <= m < order.len() && same_path(#[trigger] order[m], p);
            assert(has_path(keys, order[m]));
            let j = choose|j: int| 0 <= j < keys.len() && same_path(#[trigger] keys[j], order[m]);
            assert(same_path(keys[j], p));
        }
    }
    assert forall|i: int| 0 <= i < k2.len() implies has_path(o2, #[trigger] k2[i]) by {
        if same_path(k2[i], p) {
            assert(same_path(o2[o2.len() - 1], k2[i]));
        } else {
            assert(k2[i] == keys[i]);
            assert(has_path(order, keys[i]));
            lemma_has_without(order, p, keys[i]);
            let w = without_key(order, p);
            let m = choose|m: int| 0 <= m < w.len() && same_path(#[trigger] w[m], keys[i]);
            assert(o2[m] == w[m]);
        }
    }
    assert forall|i: int| 0 <= i < o2.len() implies has_path(k2, #[trigger] o2[i]) by {
        let w = without_key(order, p);
        if i == o2.len() - 1 {
            if has_path(keys, p) {
                let j = choose|j: int| 0 <= j < keys.len() && same_path(#[trigger] keys[j], p);
                assert(same_path(k2[j], o2[i]));
            } else {
                assert(same_path(k2[keys.len() as int], o2[i]));
            }
        } else {
            assert(o2[i] == w[i]);
            assert(has_path(w, w[i]));
            lemma_has_of_without(order, p, w[i]);
            assert(has_path(keys, w[i]));
            let j = choose|j: int| 0 <= j < keys.len() && same_path(#[trigger] keys[j], w[i]);
            assert(k2[j] == keys[j]);
        }
    }
}

/// Making room keeps the table and the order in agreement, and leaves at
/// most the limit.
proof fn lemma_evicted_agree<T>(keys: Seq<Seq<char>>, values: Seq<T>, order: Seq<Seq<char>>)
    requires
        agree(keys, order),
        distinct_paths(keys),
        distinct_paths(order),
    ensures
        agree(evicted(keys, values, order).0, evicted(keys, values, order).2),
        evicted(keys, values, order).0.len() <= MAX_NOTE_BUFFER_CACHE,
    decreases order.len(),
{
    if keys.len() > MAX_NOTE_BUFFER_CACHE && order.len() > 0 {
        let o = order[0];
        assert(has_path(keys, o));
        lemma_find_key_has(keys, o);
        lemma_find_key_bound(keys, o);
        let i = find_key(keys, o).unwrap();
        let k2 = keys.remove(i);
        let o2 = order.drop_first();
        lemma_distinct_remove(keys, i);
        lemma_distinct_remove(order, 0);
        assert(order.remove(0) =~= o2);
        assert forall|a: int| 0 <= a < k2.len() implies has_path(o2, #[trigger] k2[a]) by {
            let a2 = if a < i { a } else { a + 1 };
            assert(k2[a] == keys[a2]);
            assert(has_path(order, keys[a2]));
            let m = choose|m: int| 0 <= m < order.len() && same_path(#[trigger] order[m], keys[a2]);
            if m == 0 {
                assert(same_path(keys[a2], keys[i]));
            }
            assert(o2[m - 1] == order[m]);
        }
        assert forall|b: int| 0 <= b < o2.len() implies has_path(k2, #[trigger] o2[b]) by {
            assert(o2[b] == order[b + 1]);
            assert(has_path(keys, order[b + 1]));
            let j = choose|j: int| 0 <= j < keys.len() && same_path(#[trigger] keys[j], order[b + 1]);
            if j == i {
                assert(same_path(order[b + 1], order[0]));
            }
            let j2 = if j < i { j } else { j - 1 };
            assert(k2[j2] == keys[j]);
        }
        lemma_evicted_agree(k2, values.remove(i), o2);
    }
}

impl<T> BufferCache<T> {
    /// Stashing the buffer `v` of the note at `key`: the table holds it for
    /// that path, the path becomes the one used last, and room is made.
    pub fn stash(&mut self, key: String, v: T)
        requires
            old(self).wf(),
        ensures
            final(self).wf(),
            (final(self).table_keys(), final(self).table_values(), final(self).order()) == evicted(
                inserted_keys(old(self).table_keys(), key@),
                inserted_values(old(self).table_keys(), old(self).table_values(), key@, v),
                without_key(old(self).order(), key@).push(key@),
            ),
            old(self).consistent() ==> final(self).consistent() && final(self).lookup(key@) == Some(v),
    {
        let ghost k0 = self.table_keys();
        let ghost o0 = self.order();
        let ghost v0 = self.table_values();
        proof {
            if agree(k0, o0) && k0.len() <= MAX_NOTE_BUFFER_CACHE {
                lemma_stash_then_lookup(k0, v0, o0, key@, v);
            }
        }
        let again = String::from_str(key.as_str());
        self.insert_entry(key, v);
        self.touch(again.as_str());
        proof {
            if agree(k0, o0) {
                lemma_stash_agree(k0, o0, again@);
                lemma_evicted_agree(self.table_keys(), self.table_values(), self.order());
            }
        }
        self.evict();
    }

    /// Taking the buffer of the note at `key` out of the cache, to use it
    /// again.
    pub fn take(&mut self, key: &str) -> (r: Option<T>)
        requires
            old(self).wf(),
        ensures
            final(self).wf(),
            r == old(self).lookup(key@),
            final(self).table_keys() == without_key(old(self).table_keys(), key@),
            final(self).order() == without_key(old(self).order(), key@),
            old(self).consistent() ==> final(self).consistent(),
    {
        let ghost k0 = self.table_keys();
        let ghost o0 = self.order();
        proof {
            lemma_without_len(k0, key@);
        }
        let r = self.remove_entry(key);
        self.forget(key);
        proof {
            if agree(k0, o0) {
                lemma_take_agree(k0, o0, key@);
            }
        }
        r
    }

    /// Dropping the buffer of the note at `key`.
    pub fn drop_buffer(&mut self, key: &str)
        requires
            old(self).wf(),
        ensures
            final(self).wf(),
            final(self).table_keys() == without_key(old(self).table_keys(), key@),
            final(self).order() == without_key(old(self).order(), key@),
            old(self).consistent() ==> final(self).consistent(),
    {
        let _ = self.take(key);
    }
}

proof fn lemma_take_agree(keys: Seq<Seq<char>>, order: Seq<Seq<char>>, p: Seq<char>)
    requires
        agree(keys, order),
        distinct_paths(keys),
        distinct_paths(order),
    ensures
        agree(without_key(keys, p), without_key(order, p)),
{
    lemma_without_len(keys, p);
    lemma_without_len(order, p);
    if has_path(keys, p) {
        let j = choose|j: int| 0 <= j < keys.len() && same_path(#[trigger] keys[j], p);
        assert(has_path(order, keys[j]));
        let m = choose|m: int| 0 <= m < order.len() && same_path(#[trigger] order[m], keys[j]);
        assert(same_path(order[m], p));
    } else if has_path(order, p) {
        let m = choose|m: int| 0 <= m < order.len() && same_path(#[trigger] order[m], p);
        assert(has_path(keys, order[m]));
        let j = choose|j: int| 0 <= j < keys.len() && same_path(#[trigger] keys[j], order[m]);
        assert(same_path(keys[j], p));
    }
    let k2 = without_key(keys, p);
    let o2 = without_key(order, p);
    lemma_without_key_none(keys, p);
    lemma_without_key_none(order, p);
    lemma_find_key_has(k2, p);
    lemma_find_key_has(o2, p);
    assert forall|i: int| 0 <= i < k2.len() implies has_path(o2, #[trigger] k2[i]) by {
        assert(has_path(k2, k2[i]));
        lemma_has_of_without(keys, p, k2[i]);
        let j = choose|j: int| 0 <= j < keys.len() && same_path(#[trigger] keys[j], k2[i]);
        assert(has_path(order, keys[j]));
        let m = choose|m: int| 0 <= m < order.len() && same_path(#[trigger] order[m], keys[j]);
        assert(has_path(order, k2[i]));
        if same_path(k2[i], p) {
            assert(has_path(k2, p));
        }
        lemma_has_without(order, p, k2[i]);
    }
    assert forall|i: int| 0 <= i < o2.len() implies has_path(k2, #[trigger] o2[i]) by {
        assert(has_path(o2, o2[i]));
        lemma_has_of_without(order, p, o2[i]);
        let m = choose|m: int| 0 <= m < order.len() && same_path(#[trigger] order[m], o2[i]);
        assert(has_path(keys, order[m]));
        let j = choose|j: int| 0 <= j < keys.len() && same_path(#[trigger] keys[j], order[m]);
        assert(has_path(keys, o2[i]));
        if same_path(o2[i], p) {
            assert(has_path(o2, p));
        }
        lemma_has_without(keys, p, o2[i]);
    }
}

proof fn lemma_insert_finds<T>(keys: Seq<Seq<char>>, values: Seq<T>, p: Seq<char>, v: T)
    requires
        keys.len() == values.len(),
    ensures
        find_key(inserted_keys(keys, p), p) matches Some(i) && 0 <= i < inserted_keys(keys, p).len()
            && inserted_values(keys, values, p, v)[i] == v,
        inserted_keys(keys, p).len() == inserted_values(keys, values, p, v).len(),
        inserted_keys(keys, p).len() <= keys.len() + 1,
{
    lemma_find_key_bound(keys, p);
    match find_key(keys, p) {
        Some(i) => {},
        None => {
            let k1 = keys.push(p);
            assert forall|j: int| 0 <= j < keys.len() implies !same_path(#[trigger] k1[j], p) by {
                assert(k1[j] == keys[j]);
            }
            lemma_find_key_at(k1, p, keys.len() as int);
        },
    }
}

proof fn lemma_evict_one<T>(k1: Seq<Seq<char>>, v1: Seq<T>, o1: Seq<Seq<char>>, p: Seq<char>, i1: int)
    requires
        k1.len() == MAX_NOTE_BUFFER_CACHE + 1,
        v1.len() == k1.len(),
        o1.len() >= 2,
        distinct_paths(o1),
        o1[o1.len() - 1] == p,
        find_key(k1, p) == Some(i1),
        has_path(k1, o1[0]),
    ensures
        find_key(evicted(k1, v1, o1).0, p) matches Some(i) && 0 <= i < evicted(k1, v1, o1).1.len()
            && evicted(k1, v1, o1).1[i] == v1[i1],
{
    lemma_find_key_bound(k1, p);
    let o = o1[0];
    assert(!same_path(o1[0], o1[o1.len() - 1]));
    lemma_find_key_has(k1, o);
    lemma_find_key_bound(k1, o);
    let i = find_key(k1, o).unwrap();
    assert(i != i1);
    let k2 = k1.remove(i);
    let v2 = v1.remove(i);
    let i2 = if i1 < i { i1 } else { i1 - 1 };
    assert(k2[i2] == k1[i1]);
    assert forall|j: int| 0 <= j < i2 implies !same_path(#[trigger] k2[j], p) by {
        let j2 = if j < i { j } else { j + 1 };
        assert(k2[j] == k1[j2]);
    }
    lemma_find_key_at(k2, p, i2);
    assert(v2[i2] == v1[i1]);
    assert(evicted(k1, v1, o1) == evicted(k2, v2, o1.drop_first()));
    assert(evicted(k2, v2, o1.drop_first()) == (k2, v2, o1.drop_first()));
}

/// What a cache whose table and order agree gives back for a path once a
/// buffer is stashed under it: that buffer. (The stash leaves the path the
/// one used last, and making room takes the one used longest ago.)
pub proof fn lemma_stash_then_lookup<T>(keys: Seq<Seq<char>>, values: Seq<T>, order: Seq<Seq<char>>, p: Seq<char>, v: T)
    requires
        agree(keys, order),
        distinct_paths(keys),
        distinct_paths(order),
        keys.len() == values.len(),
        keys.len() <= MAX_NOTE_BUFFER_CACHE,
    ensures
        ({
            let e = evicted(inserted_keys(keys, p), inserted_values(keys, values, p, v), without_key(order, p).push(p));
            find_key(e.0, p) matches Some(i) && 0 <= i < e.1.len() && e.1[i] == v
        }),
{
    let k1 = inserted_keys(keys, p);
    let v1 = inserted_values(keys, values, p, v);
    let o1 = without_key(order, p).push(p);
    lemma_insert_finds(keys, values, p, v);
    let i1 = find_key(k1, p).unwrap();
    assert(o1.len() == k1.len() && (o1.len() > 0 ==> has_path(k1, o1[0]))) by {
        lemma_stash_agree(keys, order, p);
    }
    assert(distinct_paths(o1)) by {
        lemma_without_key_none(order, p);
        lemma_distinct_push(without_key(order, p), p);
    }
    if k1.len() > MAX_NOTE_BUFFER_CACHE {
        lemma_evict_one(k1, v1, o1, p, i1);
    } else {
        assert(evicted(k1, v1, o1) == (k1, v1, o1));
    }
}

} // verus!
