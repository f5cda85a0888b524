//! Edit distance, the measure behind fuzzy note search.
use vstd::prelude::*;
use crate::text::chars_of;

verus! {

broadcast use vstd::string::group_string_axioms;

pub open spec fn min3(x: nat, y: nat, z: nat) -> nat {
    if x <= y && x <= z {
        x
    } else if y <= z {
        y
    } else {
        z
    }
}

/// The Levenshtein distance: the fewest single-character insertions,
/// deletions and substitutions that turn `a` into `b`.
pub open spec fn lev(a: Seq<char>, b: Seq<char>) -> nat
    decreases a.len() + b.len(),
{
    if a.len() == 0 {
        b.len()
    } else if b.len() == 0 {
        a.len()
    } else {
        min3(
            lev(a.drop_last(), b) + 1,
            lev(a, b.drop_last()) + 1,
            lev(a.drop_last(), b.drop_last()) + if a.last() == b.last() {
                0nat
            } else {
                1nat
            },
        )
    }
}

/// The distance is at most the longer length.
pub proof fn lemma_lev_bound(a: Seq<char>, b: Seq<char>)
    ensures
        lev(a, b) <= if a.len() >= b.len() { a.len() } else { b.len() },
    decreases a.len() + b.len(),
{
    if a.len() > 0 && b.len() > 0 {
        lemma_lev_bound(a.drop_last(), b.drop_last());
    }
}

/// A text is at distance zero from itself.
pub proof fn lemma_lev_self(a: Seq<char>)
    ensures
        lev(a, a) == 0,
    decreases a.len(),
{
    if a.len() > 0 {
        lemma_lev_self(a.drop_last());
    }
}

/// The edit distance of two texts, row by row.
pub fn levenshtein(a: &str, b: &str) -> (r: usize)
    requires
        a@.len() < usize::MAX,
        b@.len() < usize::MAX,
    ensures
        r == lev(a@, b@),
{
    let ac = chars_of(a);
    let bc = chars_of(b);
    let m = bc.len();
    let mut prev: Vec<usize> = Vec::new();
    let mut j: usize = 0;
    while j <= m
        invariant
            j <= m + 1,
            m == bc@.len(),
            m < usize::MAX,
            prev@.len() == j,
            forall|k: int| 0 <= k < j ==> prev@[k] == lev(ac@.take(0), bc@.take(k)),
        decreases m + 1 - j,
    {
        assert(ac@.take(0).len() == 0);
        prev.push(j);
        j = j + 1;
    }
    let mut i: usize = 0;
    while i < ac.len()
        invariant
            i <= ac@.len(),
            ac@.len() < usize::MAX,
            m == bc@.len(),
            m < usize::MAX,
            prev@.len() == m + 1,
            forall|k: int| 0 <= k <= m ==> prev@[k] == lev(ac@.take(i as int), bc@.take(k)),
        decreases ac@.len() - i,
    {
        let a_ch = ac[i];
        let ghost ai = ac@.take(i as int + 1);
        assert(ai.drop_last() =~= ac@.take(i as int));
        assert(ai.last() == a_ch);
        let mut curr: Vec<usize> = Vec::new();
        assert(bc@.take(0).len() == 0);
        curr.push(i + 1);
        let mut j: usize = 0;
        while j < m
            invariant
                i < ac@.len(),
                ac@.len() < usize::MAX,
                ai == ac@.take(i as int + 1),
                ai.drop_last() == ac@.take(i as int),
                ai.last() == a_ch,
                m == bc@.len(),
                m < usize::MAX,
                j <= m,
                prev@.len() == m + 1,
                forall|k: int| 0 <= k <= m ==> prev@[k] == lev(ac@.take(i as int), bc@.take(k)),
                curr@.len() == j + 1,
                forall|k: int| 0 <= k <= j ==> curr@[k] == lev(ai, bc@.take(k)),
            decreases m - j,
        {
            let b_ch = bc[j];
            let ghost bj = bc@.take(j as int + 1);
            assert(bj.drop_last() =~= bc@.take(j as int));
            assert(bj.last() == b_ch);
            proof {
                lemma_lev_bound(ai, bc@.take(j as int));
                lemma_lev_bound(ac@.take(i as int), bj);
                lemma_lev_bound(ac@.take(i as int), bc@.take(j as int));
            }
            let cost: usize = if a_ch != b_ch { 1 } else { 0 };
            let ins = curr[j] + 1;
            let del = prev[j + 1] + 1;
            let sub = prev[j] + cost;
            let best = if ins <= del && ins <= sub {
                ins
            } else if del <= sub {
                del
            } else {
                sub
            };
            assert(best == lev(ai, bj));
            curr.push(best);
            j = j + 1;
        }
        prev = curr;
        i = i + 1;
    }
    assert(ac@.take(ac@.len() as int) =~= ac@);
    assert(bc@.take(m as int) =~= bc@);
    prev[m]
}

} // verus!
