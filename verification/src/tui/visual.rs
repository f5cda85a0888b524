//! Visual selections of the browser's buffer: their bounds, the text they
//! yank, and deleting them; and putting yanked text back.
//!
//! A position is `(row, col)`; positions are ordered row first.
use vstd::prelude::*;
use crate::text::{chars_of, concat, push_all, slice_chars, string_of, split, split_set, views, CharSet};
use crate::index::{strs, strings_of};
use crate::tui::motion::{clamped, min_int};
use crate::tui::edit::{with_line, Edited};
use crate::editor::machine::split_lines as content_lines;

verus! {

broadcast use vstd::string::group_string_axioms;

pub open spec fn pos_le(a: (usize, usize), b: (usize, usize)) -> bool {
    a.0 < b.0 || (a.0 == b.0 && a.1 <= b.1)
}

pub open spec fn line_len_or_zero(ls: Seq<Seq<char>>, row: int) -> nat {
    if 0 <= row < ls.len() {
        ls[row].len()
    } else {
        0
    }
}

/// The first and last position of a selection from `anchor` to `cursor`:
/// whole lines in line mode (to the last character of the last line), else
/// the two positions in order.
pub open spec fn selection_bounds(
    ls: Seq<Seq<char>>,
    anchor: (usize, usize),
    cursor: (usize, usize),
    line_mode: bool,
) -> ((usize, usize), (usize, usize)) {
    if line_mode {
        let (sr, er) = if anchor.0 <= cursor.0 {
            (anchor.0, cursor.0)
        } else {
            (cursor.0, anchor.0)
        };
        let n = line_len_or_zero(ls, er as int);
        ((sr, 0usize), (er, if n > 0 { (n - 1) as usize } else { 0usize }))
    } else if pos_le(anchor, cursor) {
        (anchor, cursor)
    } else {
        (cursor, anchor)
    }
}

pub fn normalized_visual_bounds(
    lines: &Vec<String>,
    anchor: (usize, usize),
    cursor: (usize, usize),
    line_mode: bool,
) -> (r: ((usize, usize), (usize, usize)))
    ensures
        r == selection_bounds(strs(lines@), anchor, cursor, line_mode),
{
    if line_mode {
        let (sr, er) = if anchor.0 <= cursor.0 {
            (anchor.0, cursor.0)
        } else {
            (cursor.0, anchor.0)
        };
        let n = if er < lines.len() {
            assert(strs(lines@)[er as int] == lines@[er as int]@);
            chars_of(lines[er].as_str()).len()
        } else {
            0
        };
        ((sr, 0), (er, if n > 0 { n - 1 } else { 0 }))
    } else if anchor.0 < cursor.0 || (anchor.0 == cursor.0 && anchor.1 <= cursor.1) {
        (anchor, cursor)
    } else {
        (cursor, anchor)
    }
}

/// Each line followed by a newline.
pub open spec fn lines_with_breaks(ls: Seq<Seq<char>>) -> Seq<char>
    decreases ls.len(),
{
    if ls.len() == 0 {
        Seq::<char>::empty()
    } else {
        lines_with_breaks(ls.drop_last()) + ls.last().push('\n')
    }
}

/// The lines from `sr` to `er`, joined by newlines.
pub open spec fn joined_rows(ls: Seq<Seq<char>>, sr: int, er: int) -> Seq<char>
    decreases er - sr,
{
    if er < sr {
        Seq::<char>::empty()
    } else if er == sr {
        ls[sr]
    } else {
        joined_rows(ls, sr, er - 1).push('\n') + ls[er]
    }
}

/// The text a selection from `s` to `e` yanks: whole lines in line mode,
/// else from `s` to `e` inclusive, with the line breaks between; none when a
/// line it needs is missing.
pub open spec fn selected_text(ls: Seq<Seq<char>>, s: (usize, usize), e: (usize, usize), line_mode: bool) -> Option<Seq<char>> {
    let (sr, sc) = (s.0 as int, s.1 as int);
    let (er, ec) = (e.0 as int, e.1 as int);
    if line_mode {
        if sr <= er && er >= ls.len() {
            None
        } else {
            Some(joined_rows(ls, sr, er))
        }
    } else if sr == er {
        if sr >= ls.len() {
            None
        } else {
            let line = ls[sr];
            Some(line.subrange(min_int(sc, line.len() as int), min_int(ec + 1, line.len() as int)))
        }
    } else if sr >= ls.len() || er >= ls.len() {
        None
    } else {
        let first = ls[sr];
        let last = ls[er];
        Some(first.skip(min_int(sc, first.len() as int)).push('\n') + lines_with_breaks(ls.subrange(sr + 1, er))
            + last.take(min_int(ec + 1, last.len() as int)))
    }
}

fn line_chars(lines: &Vec<String>, row: usize) -> (r: Vec<char>)
    requires
        row < lines@.len(),
    ensures
        r@ == strs(lines@)[row as int],
{
    assert(strs(lines@)[row as int] == lines@[row as int]@);
    chars_of(lines[row].as_str())
}

/// The text that yanking a visual selection gives, and whether it is whole
/// lines.
pub fn capture_visual_selection(
    lines: &Vec<String>,
    start: (usize, usize),
    end: (usize, usize),
    line_mode: bool,
) -> (r: Option<(String, bool)>)
    requires
        pos_le(start, end),
        end.1 < usize::MAX,
    ensures
        match r {
            Some((t, lw)) => selected_text(strs(lines@), start, end, line_mode) == Some(t@) && lw
                == line_mode,
            None => selected_text(strs(lines@), start, end, line_mode) is None,
        },
{
    let ghost ls = strs(lines@);
    let (sr, sc) = start;
    let (er, ec) = end;
    if line_mode {
        if er >= lines.len() {
            return None;
        }
        let mut out = line_chars(lines, sr);
        let mut row = sr;
        while row < er
            invariant
                sr <= row <= er < lines@.len(),
                ls == strs(lines@),
                out@ == joined_rows(ls, sr as int, row as int),
            decreases er - row,
        {
            row = row + 1;
            out.push('\n');
            let l = line_chars(lines, row);
            push_all(&mut out, &l);
        }
        return Some((string_of(&out), true));
    }
    if sr == er {
        if sr >= lines.len() {
            return None;
        }
        let line = line_chars(lines, sr);
        let a = if sc < line.len() {
            sc
        } else {
            line.len()
        };
        let b = if ec + 1 < line.len() {
            ec + 1
        } else {
            line.len()
        };
        return Some((string_of(&slice_chars(&line, a, b)), false));
    }
    if sr >= lines.len() || er >= lines.len() {
        return None;
    }
    let first = line_chars(lines, sr);
    let a = if sc < first.len() {
        sc
    } else {
        first.len()
    };
    let mut out = slice_chars(&first, a, first.len());
    out.push('\n');
    let ghost head = out@;
    let mut row = sr + 1;
    while row < er
        invariant
            sr < row <= er < lines@.len(),
            ls == strs(lines@),
            out@ == head + lines_with_breaks(ls.subrange(sr + 1, row as int)),
        decreases er - row,
    {
        let l = line_chars(lines, row);
        push_all(&mut out, &l);
        out.push('\n');
        proof {
            assert(ls.subrange(sr + 1, row + 1).drop_last() =~= ls.subrange(sr + 1, row as int));
            assert(ls.subrange(sr + 1, row + 1).last() == ls[row as int]);
        }
        row = row + 1;
    }
    let last = line_chars(lines, er);
    let b = if ec + 1 < last.len() {
        ec + 1
    } else {
        last.len()
    };
    let tail = slice_chars(&last, 0, b);
    push_all(&mut out, &tail);
    Some((string_of(&out), false))
}

/// Deleting a selection from `s` to `e`: whole lines in line mode, else the
/// characters from `s` to `e` inclusive, joining the first and last line.
/// The cursor goes to the selection's start, clamped into the buffer.
pub open spec fn selection_deleted(ls: Seq<Seq<char>>, s: (usize, usize), e: (usize, usize), line_mode: bool) -> Edited {
    let (sr, sc) = (s.0 as int, s.1 as int);
    let (er, ec) = (e.0 as int, e.1 as int);
    if line_mode {
        let rest = with_line(ls.subrange(0, sr) + ls.skip(er + 1));
        let r = min_int(sr, rest.len() - 1);
        let c = clamped(rest, r, 0);
        Edited { lines: rest, row: c.0, col: c.1, dirty: true }
    } else {
        let cut = if sr == er {
            if sr < ls.len() {
                let line = ls[sr];
                let a = min_int(sc, line.len() as int);
                let b = min_int(ec + 1, line.len() as int);
                if a < b {
                    ls.update(sr, line.take(a) + line.skip(b))
                } else {
                    ls
                }
            } else {
                ls
            }
        } else if er < ls.len() {
            let first = ls[sr];
            let last = ls[er];
            let joined = first.take(min_int(sc, first.len() as int)) + last.skip(min_int(ec + 1, last.len() as int));
            ls.subrange(0, sr) + seq![joined] + ls.skip(er + 1)
        } else {
            ls
        };
        let rest = with_line(cut);
        let r = min_int(sr, rest.len() - 1);
        let c = clamped(rest, r, sc);
        Edited { lines: rest, row: c.0, col: c.1, dirty: true }
    }
}

proof fn lemma_strs_splice(v: Seq<String>, a: int, b: int, mid: Seq<String>)
    requires
        0 <= a <= b <= v.len(),
    ensures
        strs(v.subrange(0, a) + mid + v.skip(b)) == strs(v).subrange(0, a) + strs(mid) + strs(v).skip(b),
{
    assert(strs(v.subrange(0, a) + mid + v.skip(b)) =~= strs(v).subrange(0, a) + strs(mid) + strs(v).skip(b));
}

/// Keeps `v[..a]` and `v[b..]` with `mid` between them.
fn splice_lines(v: &Vec<String>, a: usize, b: usize, mid: Vec<String>) -> (r: Vec<String>)
    requires
        a <= b <= v@.len(),
    ensures
        r@ == v@.subrange(0, a as int) + mid@ + v@.skip(b as int),
{
    let mut r: Vec<String> = Vec::new();
    let mut i: usize = 0;
    while i < a
        invariant
            i <= a <= b <= v@.len(),
            r@ == v@.subrange(0, i as int),
        decreases a - i,
    {
        r.push(v[i].clone());
        proof {
            assert(r@ =~= v@.subrange(0, i as int + 1)) by {
                assert(r@.last() == v@[i as int]);
            }
        }
        i = i + 1;
    }
    let ghost with_head = r@;
    let mut j: usize = 0;
    while j < mid.len()
        invariant
            j <= mid@.len(),
            r@ == with_head + mid@.take(j as int),
        decreases mid.len() - j,
    {
        r.push(mid[j].clone());
        proof {
            assert(r@ =~= with_head + mid@.take(j as int + 1)) by {
                assert(r@.last() == mid@[j as int]);
            }
        }
        j = j + 1;
    }
    assert(mid@.take(mid@.len() as int) =~= mid@);
    let ghost with_mid = r@;
    let mut k = b;
    while k < v.len()
        invariant
            b <= k <= v@.len(),
            r@ == with_mid + v@.subrange(b as int, k as int),
        decreases v.len() - k,
    {
        r.push(v[k].clone());
        proof {
            assert(r@ =~= with_mid + v@.subrange(b as int, k as int + 1)) by {
                assert(r@.last() == v@[k as int]);
            }
        }
        k = k + 1;
    }
    assert(v@.subrange(b as int, v@.len() as int) =~= v@.skip(b as int));
    r
}

pub fn delete_visual_selection(
    lines: &mut Vec<String>,
    start: (usize, usize),
    end: (usize, usize),
    line_mode: bool,
) -> (r: (usize, usize, bool))
    requires
        pos_le(start, end),
        end.1 < usize::MAX,
        line_mode ==> end.0 < old(lines)@.len(),
    ensures
        ({
            let e = selection_deleted(strs(old(lines)@), start, end, line_mode);
            &&& strs(final(lines)@) == e.lines
            &&& r.0 as int == e.row
            &&& r.1 as int == e.col
            &&& r.2 == e.dirty
        }),
{
    let ghost ls = strs(lines@);
    let (sr, sc) = start;
    let (er, ec) = end;
    if line_mode {
        let n = lines.len();
        assert(er < n);
        let next = splice_lines(lines, sr, er + 1, Vec::new());
        proof {
            lemma_strs_splice(lines@, sr as int, er + 1, Seq::empty());
            assert(strs(Seq::<String>::empty()) =~= Seq::<Seq<char>>::empty());
            assert(strs(next@) =~= ls.subrange(0, sr as int) + ls.skip(er + 1));
        }
        *lines = next;
        if lines.len() == 0 {
            lines.push(String::new());
            assert(strs(lines@) =~= seq![Seq::<char>::empty()]);
        }
        let r = if sr < lines.len() {
            sr
        } else {
            lines.len() - 1
        };
        let (cr, cc) = crate::tui::motion::clamp_cursor(lines, r, 0);
        return (cr, cc, true);
    }
    if sr == er {
        if sr < lines.len() {
            let line = line_chars(lines, sr);
            let a = if sc < line.len() {
                sc
            } else {
                line.len()
            };
            let b = if ec + 1 < line.len() {
                ec + 1
            } else {
                line.len()
            };
            if a < b {
                let head = slice_chars(&line, 0, a);
                let tail = slice_chars(&line, b, line.len());
                let ghost before = lines@;
                lines.set(sr, string_of(&concat(&head, &tail)));
                proof {
                    assert(strs(lines@) =~= strs(before).update(sr as int, lines@[sr as int]@));
                }
            }
        }
    } else if er < lines.len() {
        let first = line_chars(lines, sr);
        let last = line_chars(lines, er);
        let a = if sc < first.len() {
            sc
        } else {
            first.len()
        };
        let b = if ec + 1 < last.len() {
            ec + 1
        } else {
            last.len()
        };
        let joined = string_of(&concat(&slice_chars(&first, 0, a), &slice_chars(&last, b, last.len())));
        let mut mid: Vec<String> = Vec::new();
        mid.push(joined);
        let next = splice_lines(lines, sr, er + 1, mid);
        proof {
            lemma_strs_splice(lines@, sr as int, er + 1, mid@);
            assert(strs(mid@) =~= seq![mid@[0]@]);
        }
        *lines = next;
    }
    let ghost cut = strs(lines@);
    if lines.len() == 0 {
        lines.push(String::new());
        assert(strs(lines@) =~= seq![Seq::<char>::empty()]);
    }
    let r = if sr < lines.len() {
        sr
    } else {
        lines.len() - 1
    };
    let (cr, cc) = crate::tui::motion::clamp_cursor(lines, r, sc);
    (cr, cc, true)
}

/// Putting text that is not whole lines after the cursor's character: the
/// cursor's line takes the text's first line, the text's further lines
/// follow it, and the rest of the cursor's line ends the last of them; the
/// cursor ends on the last character put (or where the text went, when it
/// is empty).
pub open spec fn charwise_pasted(ls: Seq<Seq<char>>, row: int, col: int, text: Seq<char>) -> (Seq<Seq<char>>, int, int) {
    let r = min_int(row, ls.len() - 1);
    let line = ls[r];
    let ic = if line.len() == 0 {
        0
    } else {
        min_int(col + 1, line.len() as int)
    };
    let parts = split(text, CharSet::Only('\n'));
    if parts.len() == 1 {
        (
            ls.update(r, line.take(ic) + parts[0] + line.skip(ic)),
            r,
            if parts[0].len() == 0 { ic } else { ic + parts[0].len() - 1 },
        )
    } else {
        let n = parts.len() as int;
        let last = parts[n - 1];
        (
            ls.subrange(0, r) + seq![line.take(ic) + parts[0]] + parts.subrange(1, n - 1) + seq![
                last + line.skip(ic),
            ] + ls.skip(r + 1),
            r + n - 1,
            if last.len() == 0 { 0 } else { last.len() - 1 },
        )
    }
}

/// The lines of `parts` after the first and before the last, as strings.
fn middle_parts(parts: &Vec<Vec<char>>) -> (r: Vec<String>)
    requires
        parts@.len() >= 2,
    ensures
        strs(r@) == views(parts@).subrange(1, parts@.len() - 1),
{
    let n = parts.len();
    let mut mid: Vec<String> = Vec::new();
    let mut k: usize = 1;
    while k < n - 1
        invariant
            1 <= k <= n - 1,
            n == parts@.len(),
            strs(mid@) == views(parts@).subrange(1, k as int),
        decreases n - 1 - k,
    {
        let p = string_of(&parts[k]);
        proof {
            assert(views(parts@)[k as int] == parts@[k as int]@);
            assert(strs(mid@.push(p)) =~= strs(mid@).push(p@));
            assert(views(parts@).subrange(1, k as int + 1) =~= views(parts@).subrange(1, k as int).push(
                views(parts@)[k as int],
            ));
        }
        mid.push(p);
        k = k + 1;
    }
    mid
}

#[verifier::rlimit(50)]
pub fn paste_charwise_after_cursor(lines: &mut Vec<String>, row: usize, col: usize, text: &str) -> (r: (usize, usize))
    requires
        old(lines)@.len() > 0,
        col < usize::MAX,
    ensures
        ({
            let p = charwise_pasted(strs(old(lines)@), row as int, col as int, text@);
            &&& strs(final(lines)@) == p.0
            &&& r.0 as int == p.1
            &&& r.1 as int == p.2
        }),
{
    let ghost ls0 = strs(lines@);
    let r = if row < lines.len() {
        row
    } else {
        lines.len() - 1
    };
    let line = line_chars(lines, r);
    let ic = if line.len() == 0 {
        0
    } else if col + 1 < line.len() {
        col + 1
    } else {
        line.len()
    };
    let head = slice_chars(&line, 0, ic);
    let tail = slice_chars(&line, ic, line.len());
    let parts = split_set(&chars_of(text), CharSet::Only('\n'));
    proof {
        crate::text::lemma_split_len(text@, CharSet::Only('\n'));
        assert(views(parts@)[0] == parts@[0]@);
    }
    if parts.len() == 1 {
        let mut joined = concat(&head, &parts[0]);
        let first_len = joined.len();
        push_all(&mut joined, &tail);
        let c = if parts[0].len() == 0 {
            ic
        } else {
            first_len - 1
        };
        let ghost before = lines@;
        lines.set(r, string_of(&joined));
        proof {
            assert(strs(lines@) =~= strs(before).update(r as int, lines@[r as int]@));
        }
        return (r, c);
    }
    let n = parts.len();
    let first_line = string_of(&concat(&head, &parts[0]));
    let last = &parts[n - 1];
    assert(views(parts@)[n - 1] == last@);
    let last_line = string_of(&concat(last, &tail));
    let last_len = last.len();
    let mut mid: Vec<String> = Vec::new();
    mid.push(first_line);
    let middle = middle_parts(&parts);
    let mut k: usize = 0;
    while k < middle.len()
        invariant
            k <= middle@.len(),
            strs(mid@) == seq![head@ + views(parts@)[0]] + strs(middle@).take(k as int),
        decreases middle.len() - k,
    {
        let p = middle[k].clone();
        proof {
            assert(strs(middle@)[k as int] == middle@[k as int]@);
            assert(strs(mid@.push(p)) =~= strs(mid@).push(p@));
            assert(strs(middle@).take(k as int + 1) =~= strs(middle@).take(k as int).push(
                strs(middle@)[k as int],
            ));
        }
        mid.push(p);
        k = k + 1;
    }
    proof {
        assert(strs(middle@).take(middle@.len() as int) =~= strs(middle@));
        assert(strs(mid@.push(last_line)) =~= strs(mid@).push(last_line@));
    }
    mid.push(last_line);
    let ghost mv = mid@;
    assert(mv.len() == n);
    let next = splice_lines(lines, r, r + 1, mid);
    proof {
        lemma_strs_splice(lines@, r as int, r + 1, mv);
        assert(strs(mv) =~= seq![head@ + views(parts@)[0]] + views(parts@).subrange(1, n - 1) + seq![
            last@ + tail@,
        ]);
    }
    *lines = next;
    let c = if last_len == 0 {
        0
    } else {
        last_len - 1
    };
    let total = lines.len();
    assert(r + n - 1 < total);
    (r + (n - 1), c)
}

/// Putting yanked text after the cursor: whole lines go below the cursor's
/// line, with the cursor on the first of them; other text goes as
/// `charwise_pasted` says. The cursor is then clamped into the buffer.
pub open spec fn pasted(ls: Seq<Seq<char>>, row: int, col: int, text: Seq<char>, linewise: bool) -> Edited {
    let ls0 = with_line(ls);
    if linewise {
        let at = min_int(row + 1, ls0.len() as int);
        let ins = if content_lines(text).len() == 0 {
            seq![Seq::<char>::empty()]
        } else {
            content_lines(text)
        };
        let out = ls0.subrange(0, at) + ins + ls0.skip(at);
        let c = clamped(out, at, 0);
        Edited { lines: out, row: c.0, col: c.1, dirty: true }
    } else {
        let p = charwise_pasted(ls0, row, col, text);
        let c = clamped(p.0, p.1, p.2);
        Edited { lines: p.0, row: c.0, col: c.1, dirty: true }
    }
}

pub fn paste_after_cursor(
    lines: &mut Vec<String>,
    row: usize,
    col: usize,
    text: &str,
    linewise: bool,
) -> (r: (usize, usize, bool))
    requires
        col < usize::MAX,
        row < usize::MAX,
    ensures
        ({
            let e = pasted(strs(old(lines)@), row as int, col as int, text@, linewise);
            &&& strs(final(lines)@) == e.lines
            &&& r.0 as int == e.row
            &&& r.1 as int == e.col
            &&& r.2 == e.dirty
        }),
{
    if lines.len() == 0 {
        lines.push(String::new());
        assert(strs(lines@) =~= seq![Seq::<char>::empty()]);
    }
    let ghost ls0 = strs(lines@);
    if linewise {
        let at = if row + 1 < lines.len() {
            row + 1
        } else {
            lines.len()
        };
        let mut ins = crate::tui::chars::split_lines(text);
        if ins.len() == 0 {
            ins.push(String::new());
            assert(strs(ins@) =~= seq![Seq::<char>::empty()]);
        }
        let ghost iv = ins@;
        let next = splice_lines(lines, at, at, ins);
        proof {
            lemma_strs_splice(lines@, at as int, at as int, iv);
        }
        *lines = next;
        let (cr, cc) = crate::tui::motion::clamp_cursor(lines, at, 0);
        return (cr, cc, true);
    }
    let (pr, pc) = paste_charwise_after_cursor(lines, row, col, text);
    let (cr, cc) = crate::tui::motion::clamp_cursor(lines, pr, pc);
    (cr, cc, true)
}

/// The two ends of a motion in order.
pub open spec fn motion_ends(start: (usize, usize), end: (usize, usize)) -> ((usize, usize), (usize, usize)) {
    if pos_le(start, end) {
        (start, end)
    } else {
        (end, start)
    }
}

/// Stepping back from an exclusive motion end over a line break reads the
/// line before it, which must be in the buffer.
pub open spec fn motion_in_buffer(ls: Seq<Seq<char>>, start: (usize, usize), end: (usize, usize), inclusive: bool) -> bool {
    let (s, e) = motion_ends(start, end);
    !inclusive && s != e && e.1 == 0 && e.0 > s.0 ==> e.0 - 1 < ls.len()
}

/// The selection a motion from `start` to `end` deletes: from the first of
/// the two to the last, that one left out unless `inclusive` (stepping back
/// over a line break to the previous line's last character), then put in
/// order again; none when that leaves nothing.
pub open spec fn motion_selection(
    ls: Seq<Seq<char>>,
    start: (usize, usize),
    end: (usize, usize),
    inclusive: bool,
) -> Option<((usize, usize), (usize, usize))> {
    let (s, e) = motion_ends(start, end);
    if inclusive {
        Some((s, e))
    } else if s == e {
        None
    } else if e.1 > 0 {
        Some(motion_ends(s, (e.0, (e.1 - 1) as usize)))
    } else if e.0 > s.0 {
        let n = ls[e.0 - 1].len();
        Some(motion_ends(s, ((e.0 - 1) as usize, if n > 0 { (n - 1) as usize } else { 0usize })))
    } else {
        None
    }
}

/// Deleting the text a motion passed over (`dw`, `db`, `de`): the buffer
/// gets a line when it has none, then the selection that the motion gives
/// is deleted; `None` when there is nothing to delete.
pub fn delete_motion_range(
    lines: &mut Vec<String>,
    start: (usize, usize),
    end: (usize, usize),
    inclusive_end: bool,
) -> (r: Option<(usize, usize, bool)>)
    requires
        start.1 < usize::MAX,
        end.1 < usize::MAX,
        motion_in_buffer(with_line(strs(old(lines)@)), start, end, inclusive_end),
    ensures
        match motion_selection(with_line(strs(old(lines)@)), start, end, inclusive_end) {
            None => r is None && strs(final(lines)@) == with_line(strs(old(lines)@)),
            Some((s, e)) => {
                let d = selection_deleted(with_line(strs(old(lines)@)), s, e, false);
                &&& r == Some((d.row as usize, d.col as usize, d.dirty))
                &&& strs(final(lines)@) == d.lines
            },
        },
{
    if lines.len() == 0 {
        lines.push(String::new());
        assert(strs(lines@) =~= seq![Seq::<char>::empty()]);
    }
    let (s, e) = if start.0 < end.0 || (start.0 == end.0 && start.1 <= end.1) {
        (start, end)
    } else {
        (end, start)
    };
    let (mut er, mut ec) = e;
    if !inclusive_end {
        if s.0 == e.0 && s.1 == e.1 {
            return None;
        }
        if ec > 0 {
            ec = ec - 1;
        } else if er > s.0 {
            er = er - 1;
            let n = line_chars(lines, er).len();
            ec = if n > 0 {
                n - 1
            } else {
                0
            };
        } else {
            return None;
        }
    }
    let (a, b) = if s.0 < er || (s.0 == er && s.1 <= ec) {
        (s, (er, ec))
    } else {
        ((er, ec), s)
    };
    let (cr, cc, d) = delete_visual_selection(lines, a, b, false);
    Some((cr, cc, d))
}

/// The columns of row `row` (a line of `line_len` characters) that a
/// selection from `s` to `e` covers, as a start and an end (excluded);
/// none when it covers none.
pub open spec fn row_span(bounds: Option<((usize, usize), (usize, usize))>, row: usize, line_len: usize) -> Option<(usize, usize)> {
    match bounds {
        None => None,
        Some(((sr, sc), (er, ec))) => if row < sr || row > er {
            None
        } else {
            let end_col = if ec == usize::MAX { ec } else { (ec + 1) as usize };
            let (from, to) = if sr == er {
                (sc, end_col)
            } else if row == sr {
                (sc, line_len)
            } else if row == er {
                (0usize, end_col)
            } else {
                (0usize, line_len)
            };
            let f = if from < line_len { from } else { line_len };
            let t = if to < line_len { to } else { line_len };
            if f >= t {
                None
            } else {
                Some((f, t))
            }
        },
    }
}

pub fn visual_selection_for_row(
    bounds: Option<((usize, usize), (usize, usize))>,
    row: usize,
    line_len: usize,
) -> (r: Option<(usize, usize)>)
    ensures
        r == row_span(bounds, row, line_len),
{
    let ((sr, sc), (er, ec)) = match bounds {
        Some(b) => b,
        None => {
            return None;
        },
    };
    if row < sr || row > er {
        return None;
    }
    let end_col = ec.saturating_add(1);
    let (from, to) = if sr == er {
        (sc, end_col)
    } else if row == sr {
        (sc, line_len)
    } else if row == er {
        (0, end_col)
    } else {
        (0, line_len)
    };
    let f = if from < line_len {
        from
    } else {
        line_len
    };
    let t = if to < line_len {
        to
    } else {
        line_len
    };
    if f >= t {
        None
    } else {
        Some((f, t))
    }
}

} // verus!
