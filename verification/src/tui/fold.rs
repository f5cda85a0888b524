//! Folding the preview at markdown headings: which rows a collapsed heading
//! hides, and how the cursor steps over hidden rows.
use vstd::prelude::*;
use crate::text::{chars_of, is_whitespace, is_ws, lead, lead_len, trim_start, trim_start_set, CharSet};
use crate::index::strs;

verus! {

broadcast use vstd::string::group_string_axioms;

/// The level of a heading line: after its indentation, one to six `#` and
/// then whitespace.
pub open spec fn heading_level(line: Seq<char>) -> Option<nat> {
    let t = trim_start(line, CharSet::Whitespace);
    let n = lead(t, CharSet::Only('#'));
    if 1 <= n <= 6 && n < t.len() && is_ws(t[n as int]) {
        Some(n)
    } else {
        None
    }
}

pub open spec fn level_at(ls: Seq<Seq<char>>, row: int) -> Option<nat> {
    if 0 <= row < ls.len() {
        heading_level(ls[row])
    } else {
        None
    }
}

fn heading_level_of(line: &str) -> (r: Option<usize>)
    ensures
        match r {
            Some(n) => heading_level(line@) == Some(n as nat),
            None => heading_level(line@) is None,
        },
{
    let t = trim_start_set(&chars_of(line), CharSet::Whitespace);
    let n = lead_len(&t, CharSet::Only('#'));
    if 1 <= n && n <= 6 && n < t.len() && is_whitespace(t[n]) {
        Some(n)
    } else {
        None
    }
}

/// The level of the heading on row `row`; none when that row is no heading.
pub fn preview_heading_level(lines: &Vec<String>, row: usize) -> (r: Option<usize>)
    ensures
        match r {
            Some(n) => level_at(strs(lines@), row as int) == Some(n as nat),
            None => level_at(strs(lines@), row as int) is None,
        },
{
    if row < lines.len() {
        assert(strs(lines@)[row as int] == lines@[row as int]@);
        heading_level_of(lines[row].as_str())
    } else {
        None
    }
}

/// The first row at or after `r` that is a heading of level `level` or
/// higher, or the number of lines.
pub open spec fn next_peer(ls: Seq<Seq<char>>, r: int, level: nat) -> int
    decreases ls.len() - r,
{
    if r < 0 || r >= ls.len() {
        ls.len() as int
    } else if level_at(ls, r) matches Some(l) && l <= level {
        r
    } else {
        next_peer(ls, r + 1, level)
    }
}

/// Where the section of the heading at `h` ends: at the next heading of its
/// level or higher; just after `h` when `h` is no heading.
pub open spec fn section_end(ls: Seq<Seq<char>>, h: int) -> int {
    match level_at(ls, h) {
        None => h + 1,
        Some(level) => next_peer(ls, h + 1, level),
    }
}

pub fn preview_heading_section_end(lines: &Vec<String>, heading_row: usize) -> (r: usize)
    requires
        heading_row < usize::MAX,
    ensures
        r == section_end(strs(lines@), heading_row as int),
{
    let level = match preview_heading_level(lines, heading_row) {
        None => {
            return heading_row + 1;
        },
        Some(l) => l,
    };
    let mut row = heading_row + 1;
    while row < lines.len()
        invariant
            heading_row < row,
            level_at(strs(lines@), heading_row as int) == Some(level as nat),
            next_peer(strs(lines@), row as int, level as nat) == next_peer(
                strs(lines@),
                heading_row + 1,
                level as nat,
            ),
        decreases lines.len() - row,
    {
        match preview_heading_level(lines, row) {
            Some(l) => {
                if l <= level {
                    return row;
                }
            },
            None => {},
        }
        row = row + 1;
    }
    lines.len()
}

/// The heading whose section holds `row`, searching back from `row` and
/// giving up at a first-level heading that does not reach it.
pub open spec fn owner_from(ls: Seq<Seq<char>>, row: int, c: int) -> Option<int>
    decreases c,
{
    if c <= 0 {
        None
    } else {
        let cand = c - 1;
        match level_at(ls, cand) {
            None => owner_from(ls, row, cand),
            Some(level) => if row < section_end(ls, cand) {
                Some(cand)
            } else if level == 1 {
                None
            } else {
                owner_from(ls, row, cand)
            },
        }
    }
}

pub open spec fn heading_row_for(ls: Seq<Seq<char>>, row: int) -> Option<int> {
    if level_at(ls, row) is Some {
        Some(row)
    } else {
        owner_from(ls, row, row)
    }
}

pub fn preview_heading_row_for_row(lines: &Vec<String>, row: usize) -> (r: Option<usize>)
    ensures
        match r {
            Some(h) => heading_row_for(strs(lines@), row as int) == Some(h as int),
            None => heading_row_for(strs(lines@), row as int) is None,
        },
{
    if preview_heading_level(lines, row).is_some() {
        return Some(row);
    }
    let mut c = row;
    while c > 0
        invariant
            c <= row,
            level_at(strs(lines@), row as int) is None,
            owner_from(strs(lines@), row as int, c as int) == owner_from(
                strs(lines@),
                row as int,
                row as int,
            ),
        decreases c,
    {
        let cand = c - 1;
        match preview_heading_level(lines, cand) {
            None => {},
            Some(level) => {
                if row < preview_heading_section_end(lines, cand) {
                    return Some(cand);
                }
                if level == 1 {
                    return None;
                }
            },
        }
        c = cand;
    }
    None
}

/// Whether the heading on row `row` is collapsed.
pub fn preview_heading_is_collapsed(collapsed: &Vec<usize>, row: usize) -> (b: bool)
    ensures
        b == collapsed@.contains(row),
{
    let mut i: usize = 0;
    while i < collapsed.len()
        invariant
            i <= collapsed@.len(),
            forall|j: int| 0 <= j < i ==> collapsed@[j] != row,
        decreases collapsed.len() - i,
    {
        if collapsed[i] == row {
            assert(collapsed@[i as int] == row);
            return true;
        }
        i = i + 1;
    }
    false
}

/// A row lies inside the section of a collapsed heading.
pub open spec fn hidden(ls: Seq<Seq<char>>, collapsed: Seq<usize>, row: int) -> bool {
    exists|i: int| 0 <= i < collapsed.len() && collapsed[i] < row < section_end(ls, #[trigger] collapsed[i] as int)
}

pub fn preview_is_row_hidden(lines: &Vec<String>, collapsed: &Vec<usize>, row: usize) -> (b: bool)
    ensures
        b == hidden(strs(lines@), collapsed@, row as int),
{
    let mut i: usize = 0;
    while i < collapsed.len()
        invariant
            i <= collapsed@.len(),
            forall|j: int| 0 <= j < i ==> !(collapsed@[j] < row < section_end(strs(lines@), #[trigger] collapsed@[j] as int)),
        decreases collapsed.len() - i,
    {
        let h = collapsed[i];
        if h < row {
            if row < preview_heading_section_end(lines, h) {
                return true;
            }
        }
        i = i + 1;
    }
    false
}

/// The row the preview shows for `row`: its heading when it is hidden.
pub open spec fn visible_row_for(ls: Seq<Seq<char>>, collapsed: Seq<usize>, row: int) -> int {
    if hidden(ls, collapsed, row) {
        match heading_row_for(ls, row) {
            Some(h) => h,
            None => row,
        }
    } else {
        row
    }
}

pub fn preview_visible_row_for_source_row(lines: &Vec<String>, collapsed: &Vec<usize>, row: usize) -> (r: usize)
    ensures
        r == visible_row_for(strs(lines@), collapsed@, row as int),
{
    if preview_is_row_hidden(lines, collapsed, row) {
        match preview_heading_row_for_row(lines, row) {
            Some(h) => h,
            None => row,
        }
    } else {
        row
    }
}

/// The first row after `r` that is not hidden, or the number of lines.
pub open spec fn first_shown_from(ls: Seq<Seq<char>>, collapsed: Seq<usize>, r: int) -> int
    decreases ls.len() - r,
{
    if r >= ls.len() || r < 0 {
        ls.len() as int
    } else if hidden(ls, collapsed, r) {
        first_shown_from(ls, collapsed, r + 1)
    } else {
        r
    }
}

/// `j` in the preview: past the section of a collapsed heading, else to the
/// next row that is not hidden; nowhere at the end.
pub open spec fn next_visible(ls: Seq<Seq<char>>, collapsed: Seq<usize>, row: int) -> int {
    if ls.len() == 0 {
        0
    } else {
        let v = visible_row_for(ls, collapsed, row);
        match heading_row_for(ls, v) {
            Some(h) if collapsed.contains(h as usize) && 0 <= h => {
                if section_end(ls, h) < ls.len() {
                    section_end(ls, h)
                } else {
                    v
                }
            },
            _ => {
                let n = first_shown_from(ls, collapsed, v + 1);
                if n < ls.len() {
                    n
                } else {
                    v
                }
            },
        }
    }
}

fn contains_usize(v: &Vec<usize>, x: usize) -> (b: bool)
    ensures
        b == v@.contains(x),
{
    let mut i: usize = 0;
    while i < v.len()
        invariant
            i <= v@.len(),
            forall|j: int| 0 <= j < i ==> v@[j] != x,
        decreases v.len() - i,
    {
        if v[i] == x {
            return true;
        }
        i = i + 1;
    }
    false
}

proof fn lemma_owner_in_range(ls: Seq<Seq<char>>, row: int, c: int)
    ensures
        owner_from(ls, row, c) matches Some(h) ==> 0 <= h < ls.len() && h < c,
    decreases c,
{
    if c > 0 {
        lemma_owner_in_range(ls, row, c - 1);
    }
}

/// The heading found for a row is a row of the buffer, at or before it.
pub proof fn lemma_heading_row_in_range(ls: Seq<Seq<char>>, row: int)
    ensures
        heading_row_for(ls, row) matches Some(h) ==> 0 <= h < ls.len() && h <= row,
{
    lemma_owner_in_range(ls, row, row);
}

pub fn preview_next_visible_row(lines: &Vec<String>, collapsed: &Vec<usize>, row: usize) -> (r: usize)
    ensures
        r == next_visible(strs(lines@), collapsed@, row as int),
{
    let ghost ls = strs(lines@);
    if lines.len() == 0 {
        return 0;
    }
    let v = preview_visible_row_for_source_row(lines, collapsed, row);
    let hr = preview_heading_row_for_row(lines, v);
    proof {
        lemma_heading_row_in_range(ls, v as int);
    }
    match hr {
        Some(h) => {
            if contains_usize(collapsed, h) {
                let next = preview_heading_section_end(lines, h);
                if next < lines.len() {
                    return next;
                }
                return v;
            }
        },
        None => {},
    }
    if v >= lines.len() - 1 {
        return v;
    }
    let mut next = v + 1;
    while next < lines.len() && preview_is_row_hidden(lines, collapsed, next)
        invariant
            ls == strs(lines@),
            v < next <= lines@.len(),
            first_shown_from(ls, collapsed@, next as int) == first_shown_from(ls, collapsed@, v + 1),
        decreases lines.len() - next,
    {
        next = next + 1;
    }
    if next < lines.len() {
        next
    } else {
        v
    }
}

/// The last row at or before `k` that is not hidden, or the first row.
pub open spec fn shown_back(ls: Seq<Seq<char>>, collapsed: Seq<usize>, k: int) -> int
    decreases k,
{
    if k <= 0 || !hidden(ls, collapsed, k) {
        if k <= 0 {
            0
        } else {
            k
        }
    } else {
        shown_back(ls, collapsed, k - 1)
    }
}

/// `k` in the preview: to the previous row that is not hidden.
pub open spec fn prev_visible(ls: Seq<Seq<char>>, collapsed: Seq<usize>, row: int) -> int {
    if ls.len() == 0 {
        0
    } else {
        let v = visible_row_for(ls, collapsed, row);
        if v <= 0 {
            0
        } else {
            shown_back(ls, collapsed, v - 1)
        }
    }
}

pub fn preview_prev_visible_row(lines: &Vec<String>, collapsed: &Vec<usize>, row: usize) -> (r: usize)
    ensures
        r == prev_visible(strs(lines@), collapsed@, row as int),
{
    if lines.len() == 0 {
        return 0;
    }
    let v = preview_visible_row_for_source_row(lines, collapsed, row);
    if v == 0 {
        return 0;
    }
    let mut prev = v - 1;
    while preview_is_row_hidden(lines, collapsed, prev)
        invariant
            prev < v,
            shown_back(strs(lines@), collapsed@, prev as int) == shown_back(strs(lines@), collapsed@, v - 1),
        decreases prev,
    {
        if prev == 0 {
            return 0;
        }
        prev = prev - 1;
    }
    prev
}

/// How many rows from `from` to `to` (both included) are shown.
pub open spec fn shown_count(ls: Seq<Seq<char>>, collapsed: Seq<usize>, from: int, to: int) -> nat
    decreases to - from + 1,
{
    if to < from {
        0
    } else if hidden(ls, collapsed, to) {
        shown_count(ls, collapsed, from, to - 1)
    } else {
        shown_count(ls, collapsed, from, to - 1) + 1
    }
}

/// The screen row, counted from the row scrolled to, on which the preview
/// shows `row`.
pub open spec fn screen_row(ls: Seq<Seq<char>>, collapsed: Seq<usize>, scroll: int, row: int) -> int {
    if ls.len() == 0 || scroll >= ls.len() {
        0
    } else {
        let target = visible_row_for(ls, collapsed, row);
        if target < scroll {
            0
        } else {
            let last = if target < ls.len() - 1 {
                target
            } else {
                ls.len() - 1
            };
            let n = shown_count(ls, collapsed, scroll, last);
            if n > 0 {
                n - 1
            } else {
                0
            }
        }
    }
}

pub fn preview_screen_row_for_source_row(lines: &Vec<String>, collapsed: &Vec<usize>, scroll: usize, row: usize) -> (r: usize)
    ensures
        r == screen_row(strs(lines@), collapsed@, scroll as int, row as int),
{
    if lines.len() == 0 || scroll >= lines.len() {
        return 0;
    }
    let target = preview_visible_row_for_source_row(lines, collapsed, row);
    if target < scroll {
        return 0;
    }
    let last = if target < lines.len() - 1 {
        target
    } else {
        lines.len() - 1
    };
    let mut visible: usize = 0;
    let mut idx = scroll;
    let n = lines.len();
    while idx <= last
        invariant
            scroll <= idx <= last + 1,
            last < n,
            visible == shown_count(strs(lines@), collapsed@, scroll as int, idx - 1),
            visible <= idx - scroll,
        decreases last + 1 - idx,
    {
        if !preview_is_row_hidden(lines, collapsed, idx) {
            visible = visible + 1;
        }
        idx = idx + 1;
    }
    if visible > 0 {
        visible - 1
    } else {
        0
    }
}

/// What toggling the fold from row `row` does: the heading whose section
/// holds the row the cursor shows on is collapsed, or expanded when it was
/// collapsed; nothing happens when no heading holds it. The result says
/// whether the heading is now collapsed.
pub open spec fn fold_toggled(ls: Seq<Seq<char>>, before: Seq<usize>, row: int, after: Seq<usize>, r: Option<bool>) -> bool {
    match heading_row_for(ls, visible_row_for(ls, before, row)) {
        None => r is None && after == before,
        Some(h) => if before.contains(h as usize) {
            r == Some(false) && after.to_set() == before.to_set().remove(h as usize)
        } else {
            r == Some(true) && after.to_set() == before.to_set().insert(h as usize)
        },
    }
}

/// Collapses the heading whose section holds the cursor's row, or expands it
/// when it is collapsed; `None` when no heading holds the row. The result
/// says whether the heading is now collapsed.
pub fn toggle_current_heading_fold(lines: &Vec<String>, collapsed: &mut Vec<usize>, cursor_row: usize) -> (r: Option<bool>)
    requires
        old(collapsed)@.no_duplicates(),
    ensures
        final(collapsed)@.no_duplicates(),
        fold_toggled(strs(lines@), old(collapsed)@, cursor_row as int, final(collapsed)@, r),
{
    let row = preview_visible_row_for_source_row(lines, collapsed, cursor_row);
    let h = match preview_heading_row_for_row(lines, row) {
        None => {
            return None;
        },
        Some(h) => h,
    };
    let mut i: usize = 0;
    while i < collapsed.len()
        invariant
            i <= collapsed@.len(),
            collapsed@ == old(collapsed)@,
            old(collapsed)@.no_duplicates(),
            heading_row_for(strs(lines@), visible_row_for(strs(lines@), old(collapsed)@, cursor_row as int))
                == Some(h as int),
            forall|j: int| 0 <= j < i ==> collapsed@[j] != h,
        decreases collapsed.len() - i,
    {
        if collapsed[i] == h {
            let ghost before = collapsed@;
            collapsed.remove(i);
            proof {
                assert(!collapsed@.contains(h)) by {
                    if collapsed@.contains(h) {
                        let k = choose|k: int| 0 <= k < collapsed@.len() && collapsed@[k] == h;
                        if k < i {
                            assert(before[k] == h);
                        } else {
                            assert(before[k + 1] == h);
                            assert(before[i as int] == h);
                        }
                    }
                }
                assert(collapsed@.to_set() =~= before.to_set().remove(h)) by {
                    assert forall|x: usize| collapsed@.to_set().contains(x) <==> before.to_set().remove(h).contains(x) by {
                        if collapsed@.contains(x) {
                            let k = choose|k: int| 0 <= k < collapsed@.len() && collapsed@[k] == x;
                            if k < i {
                                assert(before[k] == x);
                            } else {
                                assert(before[k + 1] == x);
                            }
                        }
                        if before.contains(x) && x != h {
                            let k = choose|k: int| 0 <= k < before.len() && before[k] == x;
                            if k < i {
                                assert(collapsed@[k] == x);
                            } else {
                                assert(k != i);
                                assert(collapsed@[k - 1] == x);
                            }
                        }
                    }
                }
                assert(collapsed@.no_duplicates()) by {
                    assert forall|a: int, b: int| 0 <= a < collapsed@.len() && 0 <= b < collapsed@.len() && a != b implies collapsed@[a] != collapsed@[b] by {
                        let a1 = if a < i { a } else { a + 1 };
                        let b1 = if b < i { b } else { b + 1 };
                        assert(collapsed@[a] == before[a1]);
                        assert(collapsed@[b] == before[b1]);
                    }
                }
            }
            return Some(false);
        }
        i = i + 1;
    }
    let ghost before = collapsed@;
    collapsed.push(h);
    proof {
        assert(!before.contains(h));
        assert(collapsed@.to_set() =~= before.to_set().insert(h)) by {
            assert forall|x: usize| collapsed@.to_set().contains(x) <==> before.to_set().insert(h).contains(x) by {
                if collapsed@.contains(x) {
                    let k = choose|k: int| 0 <= k < collapsed@.len() && collapsed@[k] == x;
                    if k < before.len() {
                        assert(before[k] == x);
                    }
                }
                if before.contains(x) {
                    let k = choose|k: int| 0 <= k < before.len() && before[k] == x;
                    assert(collapsed@[k] == x);
                }
                if x == h {
                    assert(collapsed@[before.len() as int] == h);
                }
            }
        }
        assert(collapsed@.no_duplicates()) by {
            assert forall|a: int, b: int| 0 <= a < collapsed@.len() && 0 <= b < collapsed@.len() && a != b implies collapsed@[a] != collapsed@[b] by {
                if a == before.len() {
                    assert(before[b] == collapsed@[b]);
                } else if b == before.len() {
                    assert(before[a] == collapsed@[a]);
                } else {
                    assert(before[a] == collapsed@[a]);
                    assert(before[b] == collapsed@[b]);
                }
            }
        }
    }
    Some(true)
}

proof fn lemma_owner_is_heading(ls: Seq<Seq<char>>, row: int, c: int)
    ensures
        owner_from(ls, row, c) matches Some(h) ==> level_at(ls, h) is Some,
    decreases c,
{
    if c > 0 {
        lemma_owner_is_heading(ls, row, c - 1);
    }
}

/// The heading that holds the row shown for `row` is the heading that holds
/// `row`, whatever is collapsed.
proof fn lemma_heading_of_shown_row(ls: Seq<Seq<char>>, collapsed: Seq<usize>, row: int)
    ensures
        heading_row_for(ls, visible_row_for(ls, collapsed, row)) == heading_row_for(ls, row),
{
    lemma_owner_is_heading(ls, row, row);
}

/// Toggling the fold twice from the same row leaves the same headings
/// collapsed as before, and the second toggle says the opposite of the
/// first.
pub proof fn lemma_toggle_twice_restores(
    ls: Seq<Seq<char>>,
    c1: Seq<usize>,
    c2: Seq<usize>,
    c3: Seq<usize>,
    row: int,
    r1: Option<bool>,
    r2: Option<bool>,
)
    requires
        fold_toggled(ls, c1, row, c2, r1),
        fold_toggled(ls, c2, row, c3, r2),
    ensures
        c3.to_set() == c1.to_set(),
        r1 is None <==> r2 is None,
        r1 matches Some(b) ==> r2 == Some(!b),
{
    lemma_heading_of_shown_row(ls, c1, row);
    lemma_heading_of_shown_row(ls, c2, row);
    match heading_row_for(ls, row) {
        None => {},
        Some(h) => {
            let k = h as usize;
            assert(c1.to_set().contains(k) == c1.contains(k));
            assert(c2.to_set().contains(k) == c2.contains(k));
            if c1.contains(k) {
                assert(!c2.contains(k));
                assert(c3.to_set() =~= c1.to_set());
            } else {
                assert(c2.contains(k));
                assert(c3.to_set() =~= c1.to_set());
            }
        },
    }
}

} // verus!
