//! `/`, `n` and `N` in the open note: the next or previous place where the
//! (lower-cased) query occurs in the lower-cased buffer, wrapping around the
//! ends of the buffer.
use vstd::prelude::*;
use crate::text::{chars_of, find_from, first_match_from, matches_at, matches_at_exec, string_of, trim_whitespace, trim_ws, views};
use crate::index::strs;
use crate::vault::{lower_of, to_lowercase};

verus! {

broadcast use vstd::string::group_string_axioms;

/// `at` is the last place where `q` occurs wholly before `until`.
pub open spec fn last_match_until(s: Seq<char>, q: Seq<char>, until: int, at: int) -> bool {
    &&& matches_at(s, q, at)
    &&& at + q.len() <= until
    &&& forall|j: int| at < j && j + q.len() <= until ==> !matches_at(s, q, j)
}

/// The first place at or after `from` where `q` occurs.
pub open spec fn first_at(s: Seq<char>, q: Seq<char>, from: int) -> Option<int> {
    if exists|at: int| first_match_from(s, q, from, at) {
        Some(choose|at: int| first_match_from(s, q, from, at))
    } else {
        None
    }
}

/// The last place where `q` occurs wholly before `until`.
pub open spec fn last_at(s: Seq<char>, q: Seq<char>, until: int) -> Option<int> {
    if exists|at: int| last_match_until(s, q, until, at) {
        Some(choose|at: int| last_match_until(s, q, until, at))
    } else {
        None
    }
}

/// Rows `r..end` searched forward; on the row the search starts from,
/// only places from `from` on count.
pub open spec fn scan_forward(ls: Seq<Seq<char>>, q: Seq<char>, r: int, end: int, start: int, from: int) -> Option<(int, int)>
    decreases end - r,
{
    if r >= end || r < 0 || r >= ls.len() {
        None
    } else {
        match first_at(ls[r], q, if r == start { from } else { 0 }) {
            Some(p) => Some((r, p)),
            None => scan_forward(ls, q, r + 1, end, start, from),
        }
    }
}

/// Rows `r` down to `stop` searched backward; on the row the search starts
/// from, only places that end by `from` count.
pub open spec fn scan_backward(ls: Seq<Seq<char>>, q: Seq<char>, r: int, stop: int, start: int, from: int) -> Option<(int, int)>
    decreases r - stop,
{
    if r < stop || r < 0 || r >= ls.len() {
        None
    } else {
        match last_at(ls[r], q, if r == start { from } else { ls[r].len() as int }) {
            Some(p) => Some((r, p)),
            None => if r == stop {
                None
            } else {
                scan_backward(ls, q, r - 1, stop, start, from)
            },
        }
    }
}

/// Where the search for `q` in the lower-cased lines `ls` lands, from the
/// cursor `(row, col)`: forward from the cursor (past it when `exclusive`)
/// to the end, then from the top; or backward from the cursor to the top,
/// then from the bottom. Nothing for an empty query or buffer.
pub open spec fn search_hit(ls: Seq<Seq<char>>, row: int, col: int, q: Seq<char>, forward: bool, exclusive: bool) -> Option<(int, int)> {
    if q.len() == 0 || ls.len() == 0 {
        None
    } else {
        let start = if row < ls.len() - 1 { row } else { ls.len() - 1 };
        let c = if exclusive { col + 1 } else { col };
        let from = if c < ls[start].len() { c } else { ls[start].len() as int };
        if forward {
            match scan_forward(ls, q, start, ls.len() as int, start, from) {
                Some(h) => Some(h),
                None => scan_forward(ls, q, 0, start, start, from),
            }
        } else {
            match scan_backward(ls, q, start, 0, start, from) {
                Some(h) => Some(h),
                None => scan_backward(ls, q, ls.len() - 1, start + 1, start, from),
            }
        }
    }
}

fn first_place(s: &Vec<char>, q: &Vec<char>, from: usize) -> (r: Option<usize>)
    ensures
        match r {
            Some(p) => first_at(s@, q@, from as int) == Some(p as int),
            None => first_at(s@, q@, from as int) is None,
        },
{
    match find_from(s, q, from) {
        Some(p) => {
            proof {
                let c = choose|at: int| first_match_from(s@, q@, from as int, at);
                if c < p {
                    assert(!matches_at(s@, q@, c));
                } else if c > p {
                    assert(!matches_at(s@, q@, p as int));
                }
            }
            Some(p)
        },
        None => None,
    }
}

fn last_place(s: &Vec<char>, q: &Vec<char>, until: usize) -> (r: Option<usize>)
    requires
        until <= s.len(),
    ensures
        match r {
            Some(p) => last_at(s@, q@, until as int) == Some(p as int),
            None => last_at(s@, q@, until as int) is None,
        },
{
    if q.len() > until {
        proof {
            assert forall|at: int| !last_match_until(s@, q@, until as int, at) by {}
        }
        return None;
    }
    let mut i: usize = until - q.len();
    loop
        invariant
            i + q.len() <= until <= s.len(),
            forall|j: int| i < j && j + q@.len() <= until ==> !matches_at(s@, q@, j),
        decreases i,
    {
        if matches_at_exec(s, q, i) {
            proof {
                assert(last_match_until(s@, q@, until as int, i as int));
                let c = choose|at: int| last_match_until(s@, q@, until as int, at);
                if c < i {
                    assert(!matches_at(s@, q@, i as int));
                } else if c > i {
                    assert(!matches_at(s@, q@, c));
                }
            }
            return Some(i);
        }
        if i == 0 {
            proof {
                assert forall|at: int| !last_match_until(s@, q@, until as int, at) by {
                    if last_match_until(s@, q@, until as int, at) {
                        assert(0 <= at);
                        if at == 0 {
                            assert(!matches_at(s@, q@, 0));
                        }
                    }
                }
            }
            return None;
        }
        i = i - 1;
    }
}

/// The search over lines already lower-cased.
pub fn find_in_lowered(
    ls: &Vec<Vec<char>>,
    row: usize,
    col: usize,
    q: &Vec<char>,
    forward: bool,
    exclusive: bool,
) -> (r: Option<(usize, usize)>)
    ensures
        match r {
            Some((a, b)) => search_hit(views(ls@), row as int, col as int, q@, forward, exclusive) == Some(
                (a as int, b as int),
            ),
            None => search_hit(views(ls@), row as int, col as int, q@, forward, exclusive) is None,
        },
{
    let ghost lv = views(ls@);
    if q.len() == 0 || ls.len() == 0 {
        return None;
    }
    let n = ls.len();
    let start = if row < n - 1 {
        row
    } else {
        n - 1
    };
    let len0 = ls[start].len();
    assert(lv[start as int] == ls@[start as int]@);
    let from = if exclusive {
        if col < len0 {
            col + 1
        } else {
            len0
        }
    } else if col < len0 {
        col
    } else {
        len0
    };
    assert(from as int == {
        let c = if exclusive { col + 1 } else { col as int };
        if c < lv[start as int].len() { c } else { lv[start as int].len() as int }
    });
    assert(q@.len() > 0 && lv.len() > 0);
    assert(start as int == if row < lv.len() - 1 { row as int } else { lv.len() - 1 });
    if forward {
        let mut r = start;
        while r < n
            invariant
                start <= r <= n,
                n == ls@.len(),
                lv == views(ls@),
                search_hit(lv, row as int, col as int, q@, forward, exclusive) == match scan_forward(lv, q@, start as int, n as int, start as int, from as int) {
                    Some(h) => Some(h),
                    None => scan_forward(lv, q@, 0, start as int, start as int, from as int),
                },
                from <= lv[start as int].len(),
                scan_forward(lv, q@, start as int, n as int, start as int, from as int) == scan_forward(
                    lv,
                    q@,
                    r as int,
                    n as int,
                    start as int,
                    from as int,
                ),
            decreases n - r,
        {
            assert(lv[r as int] == ls@[r as int]@);
            let f = if r == start {
                from
            } else {
                0
            };
            match first_place(&ls[r], q, f) {
                Some(p) => {
                    return Some((r, p));
                },
                None => {},
            }
            r = r + 1;
        }
        let mut r: usize = 0;
        while r < start
            invariant
                r <= start < n,
                n == ls@.len(),
                lv == views(ls@),
                search_hit(lv, row as int, col as int, q@, forward, exclusive) == match scan_forward(lv, q@, start as int, n as int, start as int, from as int) {
                    Some(h) => Some(h),
                    None => scan_forward(lv, q@, 0, start as int, start as int, from as int),
                },
                scan_forward(lv, q@, start as int, n as int, start as int, from as int) is None,
                scan_forward(lv, q@, 0, start as int, start as int, from as int) == scan_forward(
                    lv,
                    q@,
                    r as int,
                    start as int,
                    start as int,
                    from as int,
                ),
            decreases start - r,
        {
            assert(lv[r as int] == ls@[r as int]@);
            match first_place(&ls[r], q, 0) {
                Some(p) => {
                    return Some((r, p));
                },
                None => {},
            }
            r = r + 1;
        }
        None
    } else {
        let mut r = start;
        loop
            invariant
                r <= start < n,
                n == ls@.len(),
                lv == views(ls@),
                search_hit(lv, row as int, col as int, q@, forward, exclusive) == match scan_backward(lv, q@, start as int, 0, start as int, from as int) {
                    Some(h) => Some(h),
                    None => scan_backward(lv, q@, n - 1, start + 1, start as int, from as int),
                },
                from <= lv[start as int].len(),
                scan_backward(lv, q@, start as int, 0, start as int, from as int) == scan_backward(
                    lv,
                    q@,
                    r as int,
                    0,
                    start as int,
                    from as int,
                ),
            ensures
                scan_backward(lv, q@, start as int, 0, start as int, from as int) is None,
            decreases r,
        {
            assert(lv[r as int] == ls@[r as int]@);
            let until = if r == start {
                from
            } else {
                ls[r].len()
            };
            match last_place(&ls[r], q, until) {
                Some(p) => {
                    return Some((r, p));
                },
                None => {},
            }
            if r == 0 {
                break;
            }
            r = r - 1;
        }
        let mut r = n - 1;
        while r > start
            invariant
                start <= r < n,
                n == ls@.len(),
                lv == views(ls@),
                search_hit(lv, row as int, col as int, q@, forward, exclusive) == match scan_backward(lv, q@, start as int, 0, start as int, from as int) {
                    Some(h) => Some(h),
                    None => scan_backward(lv, q@, n - 1, start + 1, start as int, from as int),
                },
                scan_backward(lv, q@, start as int, 0, start as int, from as int) is None,
                scan_backward(lv, q@, n - 1, start + 1, start as int, from as int) == scan_backward(
                    lv,
                    q@,
                    r as int,
                    start + 1,
                    start as int,
                    from as int,
                ),
            decreases r,
        {
            assert(lv[r as int] == ls@[r as int]@);
            match last_place(&ls[r], q, ls[r].len()) {
                Some(p) => {
                    return Some((r, p));
                },
                None => {},
            }
            r = r - 1;
        }
        None
    }
}

/// How many bytes UTF-8 spends on `c`.
pub open spec fn utf8_width(c: char) -> int {
    let v = c as u32;
    if v < 0x80 {
        1
    } else if v < 0x800 {
        2
    } else if v < 0x10000 {
        3
    } else {
        4
    }
}

fn utf8_width_exec(c: char) -> (r: u8)
    ensures
        r as int == utf8_width(c),
{
    let v = c as u32;
    if v < 0x80 {
        1
    } else if v < 0x800 {
        2
    } else if v < 0x10000 {
        3
    } else {
        4
    }
}

/// `b` has as many characters as `a`, each as wide in UTF-8 as the one in
/// `a` at its place, so that byte offsets in the one are byte offsets in the
/// other.
pub open spec fn same_widths(a: Seq<char>, b: Seq<char>) -> bool {
    &&& a.len() == b.len()
    &&& forall|j: int| 0 <= j < a.len() ==> utf8_width(#[trigger] a[j]) == utf8_width(b[j])
}

fn same_widths_exec(a: &Vec<char>, b: &Vec<char>) -> (r: bool)
    ensures
        r == same_widths(a@, b@),
{
    if a.len() != b.len() {
        return false;
    }
    let mut j: usize = 0;
    while j < a.len()
        invariant
            a.len() == b.len(),
            j <= a.len(),
            forall|k: int| 0 <= k < j ==> utf8_width(#[trigger] a@[k]) == utf8_width(b@[k]),
        decreases a.len() - j,
    {
        if utf8_width_exec(a[j]) != utf8_width_exec(b[j]) {
            return false;
        }
        j = j + 1;
    }
    true
}

/// The lines lower-cased, one by one.
pub open spec fn lowered(ls: Seq<Seq<char>>) -> Seq<Seq<char>> {
    ls.map_values(|l: Seq<char>| lower_of(l))
}

/// Whether lower-casing leaves every line's byte offsets where they were.
pub open spec fn lowering_keeps_widths(ls: Seq<Seq<char>>) -> bool {
    forall|i: int| 0 <= i < ls.len() ==> same_widths(#[trigger] ls[i], lower_of(ls[i]))
}

/// What the search in the note gives.
#[derive(Debug, Clone, Copy, PartialEq, Eq)]
pub enum FindOutcome {
    /// The cursor goes to this place.
    Found { row: usize, col: usize },
    /// The query occurs nowhere (or is empty, or the buffer is).
    NotFound,
    /// Lower-casing changes how wide some character of the buffer is in
    /// UTF-8, so that byte offsets found in the lower-cased text do not
    /// point at the same characters of the buffer; nothing is searched.
    Unaligned,
}

/// The outcome for the lines `ls`: the search over them lower-cased, when
/// lower-casing keeps their byte offsets.
pub open spec fn find_outcome(ls: Seq<Seq<char>>, row: int, col: int, q: Seq<char>, forward: bool, exclusive: bool) -> FindOutcome {
    if q.len() == 0 || ls.len() == 0 {
        FindOutcome::NotFound
    } else if !lowering_keeps_widths(ls) {
        FindOutcome::Unaligned
    } else {
        match search_hit(lowered(ls), row, col, q, forward, exclusive) {
            Some((r, c)) => FindOutcome::Found { row: r as usize, col: c as usize },
            None => FindOutcome::NotFound,
        }
    }
}

/// The search for `q` (already lower-cased) in the buffer from the cursor.
pub fn find_in_note(
    lines: &Vec<String>,
    row: usize,
    col: usize,
    q: &str,
    forward: bool,
    exclusive: bool,
) -> (r: FindOutcome)
    ensures
        r == find_outcome(strs(lines@), row as int, col as int, q@, forward, exclusive),
{
    let ghost ls = strs(lines@);
    let qv = chars_of(q);
    if qv.len() == 0 || lines.len() == 0 {
        return FindOutcome::NotFound;
    }
    let mut lows: Vec<Vec<char>> = Vec::new();
    let mut i: usize = 0;
    while i < lines.len()
        invariant
            i <= lines@.len(),
            ls == strs(lines@),
            qv@ == q@,
            qv@.len() > 0,
            lines@.len() > 0,
            lows@.len() == i,
            forall|k: int| 0 <= k < i ==> #[trigger] views(lows@)[k] == lower_of(ls[k]),
            forall|k: int| 0 <= k < i ==> same_widths(#[trigger] ls[k], lower_of(ls[k])),
        decreases lines.len() - i,
    {
        let line = chars_of(lines[i].as_str());
        let low = chars_of(to_lowercase(lines[i].as_str()).as_str());
        assert(ls[i as int] == lines@[i as int]@);
        if !same_widths_exec(&line, &low) {
            assert(!lowering_keeps_widths(ls));
            assert(qv@.len() > 0 && ls.len() > 0);
            return FindOutcome::Unaligned;
        }
        let ghost before = lows@;
        lows.push(low);
        proof {
            assert forall|k: int| 0 <= k < i + 1 implies #[trigger] views(lows@)[k] == lower_of(ls[k]) by {
                assert(views(lows@)[k] == lows@[k]@);
                if k < i {
                    assert(lows@[k] == before[k]);
                    assert(views(before)[k] == before[k]@);
                }
            }
        }
        i = i + 1;
    }
    assert(views(lows@) =~= lowered(ls));
    match find_in_lowered(&lows, row, col, &qv, forward, exclusive) {
        Some((a, b)) => FindOutcome::Found { row: a, col: b },
        None => FindOutcome::NotFound,
    }
}

/// Typing in the `/` prompt: the search for the prompt's text, trimmed and
/// lower-cased, forward from the cursor itself.
pub fn apply_in_note_search(lines: &Vec<String>, row: usize, col: usize, input: &str) -> (r: FindOutcome)
    ensures
        r == find_outcome(strs(lines@), row as int, col as int, lower_of(trim_ws(input@)), true, false),
{
    let q = to_lowercase(string_of(&trim_whitespace(&chars_of(input))).as_str());
    find_in_note(lines, row, col, q.as_str(), true, false)
}

proof fn lemma_scan_forward_matches(ls: Seq<Seq<char>>, q: Seq<char>, r: int, end: int, start: int, from: int)
    ensures
        scan_forward(ls, q, r, end, start, from) matches Some((a, b)) ==> 0 <= a < ls.len() && matches_at(
            ls[a],
            q,
            b,
        ),
    decreases end - r,
{
    if r < end && 0 <= r < ls.len() {
        let f = if r == start { from } else { 0 };
        if exists|at: int| first_match_from(ls[r], q, f, at) {
            let p = choose|at: int| first_match_from(ls[r], q, f, at);
            assert(matches_at(ls[r], q, p));
        } else {
            lemma_scan_forward_matches(ls, q, r + 1, end, start, from);
        }
    }
}

proof fn lemma_scan_backward_matches(ls: Seq<Seq<char>>, q: Seq<char>, r: int, stop: int, start: int, from: int)
    ensures
        scan_backward(ls, q, r, stop, start, from) matches Some((a, b)) ==> 0 <= a < ls.len() && matches_at(
            ls[a],
            q,
            b,
        ),
    decreases r - stop,
{
    if r >= stop && 0 <= r < ls.len() {
        let u = if r == start { from } else { ls[r].len() as int };
        if exists|at: int| last_match_until(ls[r], q, u, at) {
            let p = choose|at: int| last_match_until(ls[r], q, u, at);
            assert(matches_at(ls[r], q, p));
        } else if r != stop {
            lemma_scan_backward_matches(ls, q, r - 1, stop, start, from);
        }
    }
}

/// Where the search lands, the query occurs: in the lower-cased line of the
/// buffer that the cursor goes to, at the column it goes to.
pub proof fn lemma_search_lands_on_the_query(
    ls: Seq<Seq<char>>,
    row: int,
    col: int,
    q: Seq<char>,
    forward: bool,
    exclusive: bool,
)
    ensures
        search_hit(ls, row, col, q, forward, exclusive) matches Some((r, c)) ==> 0 <= r < ls.len()
            && matches_at(ls[r], q, c),
{
    if q.len() > 0 && ls.len() > 0 {
        let start = if row < ls.len() - 1 { row } else { ls.len() - 1 };
        let k = if exclusive { col + 1 } else { col };
        let from = if k < ls[start].len() { k } else { ls[start].len() as int };
        lemma_scan_forward_matches(ls, q, start, ls.len() as int, start, from);
        lemma_scan_forward_matches(ls, q, 0, start, start, from);
        lemma_scan_backward_matches(ls, q, start, 0, start, from);
        lemma_scan_backward_matches(ls, q, ls.len() - 1, start + 1, start, from);
    }
}

} // verus!
