//! Edits of the browser's buffer in insert and normal mode: typing a
//! character, breaking a line, deleting backwards and forwards, deleting a
//! line, opening a line.
//!
//! Each edit takes the lines and the cursor `(row, col)` and gives the new
//! cursor and whether the buffer counts as modified.
use vstd::prelude::*;
use crate::text::{chars_of, concat, slice_chars, string_of};
use crate::index::strs;
use crate::tui::lists::{continuation, list_continuation_prefix, number_fits};
use crate::tui::motion::{clamped, min_int};

verus! {

broadcast use vstd::string::group_string_axioms;

/// Lines longer than this are broken before a character is typed.
pub const MAX_EDITOR_LINE_CHARS: usize = 105;

/// The buffer, with one empty line when it has none.
pub open spec fn with_line(ls: Seq<Seq<char>>) -> Seq<Seq<char>> {
    if ls.len() == 0 {
        seq![Seq::<char>::empty()]
    } else {
        ls
    }
}

/// The result of an edit: the lines, the cursor, and whether the buffer was
/// marked modified.
pub struct Edited {
    pub lines: Seq<Seq<char>>,
    pub row: int,
    pub col: int,
    pub dirty: bool,
}

/// Breaking the line at the cursor: the text right of the cursor moves to a
/// new line below, after the list marker that continues the item.
pub open spec fn line_split(ls: Seq<Seq<char>>, row: int, col: int) -> Edited {
    let ls0 = with_line(ls);
    if row < 0 || row >= ls0.len() {
        Edited { lines: ls0, row, col, dirty: false }
    } else {
        let line = ls0[row];
        let c = min_int(col, line.len() as int);
        let cont = continuation(line, col);
        Edited {
            lines: ls0.update(row, line.take(c)).insert(row + 1, cont + line.skip(c)),
            row: row + 1,
            col: cont.len() as int,
            dirty: true,
        }
    }
}

/// The list number that breaking `row` at `col` continues has a successor.
pub open spec fn split_ok(ls: Seq<Seq<char>>, row: int, col: int) -> bool {
    0 <= row < with_line(ls).len() ==> number_fits(with_line(ls)[row], col)
}

fn ensure_has_line(lines: &mut Vec<String>)
    ensures
        strs(final(lines)@) == with_line(strs(old(lines)@)),
{
    if lines.len() == 0 {
        lines.push(String::new());
        assert(strs(lines@) =~= seq![Seq::<char>::empty()]);
    }
}

proof fn lemma_strs_update(v: Seq<String>, i: int, s: String)
    requires
        0 <= i < v.len(),
    ensures
        strs(v.update(i, s)) == strs(v).update(i, s@),
{
    assert(strs(v.update(i, s)) =~= strs(v).update(i, s@));
}

proof fn lemma_strs_insert(v: Seq<String>, i: int, s: String)
    requires
        0 <= i <= v.len(),
    ensures
        strs(v.insert(i, s)) == strs(v).insert(i, s@),
{
    assert(strs(v.insert(i, s)) =~= strs(v).insert(i, s@));
}

proof fn lemma_strs_remove(v: Seq<String>, i: int)
    requires
        0 <= i < v.len(),
    ensures
        strs(v.remove(i)) == strs(v).remove(i),
{
    assert(strs(v.remove(i)) =~= strs(v).remove(i));
}

pub fn split_line_at_cursor(lines: &mut Vec<String>, row: usize, col: usize) -> (r: (usize, usize, bool))
    requires
        split_ok(strs(old(lines)@), row as int, col as int),
        old(lines)@.len() < usize::MAX,
    ensures
        ({
            let e = line_split(strs(old(lines)@), row as int, col as int);
            &&& strs(final(lines)@) == e.lines
            &&& r.0 as int == e.row
            &&& r.1 as int == e.col
            &&& r.2 == e.dirty
        }),
{
    ensure_has_line(lines);
    if row >= lines.len() {
        return (row, col, false);
    }
    let chars = chars_of(lines[row].as_str());
    assert(strs(lines@)[row as int] == lines@[row as int]@);
    let cont = list_continuation_prefix(lines[row].as_str(), col);
    let c = if col < chars.len() {
        col
    } else {
        chars.len()
    };
    let head = slice_chars(&chars, 0, c);
    let tail = slice_chars(&chars, c, chars.len());
    let cont_chars = chars_of(cont.as_str());
    let new_line = string_of(&concat(&cont_chars, &tail));
    let ghost before = lines@;
    lines.set(row, string_of(&head));
    proof {
        lemma_strs_update(before, row as int, lines@[row as int]);
        assert(head@ =~= chars@.take(c as int));
        assert(tail@ =~= chars@.skip(c as int));
    }
    let ghost mid = lines@;
    lines.insert(row + 1, new_line);
    proof {
        lemma_strs_insert(mid, row + 1, lines@[row + 1]);
    }
    (row + 1, cont_chars.len(), true)
}

/// Typing `ch` where there is room: `[` comes with its `]`; the cursor moves
/// one right.
pub open spec fn put_char(ls: Seq<Seq<char>>, row: int, col: int, ch: char) -> Edited {
    let ls0 = with_line(ls);
    if row < 0 || row >= ls0.len() {
        Edited { lines: ls0, row, col, dirty: false }
    } else {
        let line = ls0[row];
        let c = min_int(col, line.len() as int);
        let ins = if ch == '[' {
            seq!['[', ']']
        } else {
            seq![ch]
        };
        Edited {
            lines: ls0.update(row, line.take(c) + ins + line.skip(c)),
            row,
            col: col + 1,
            dirty: true,
        }
    }
}

pub open spec fn insert_width(ch: char) -> int {
    if ch == '[' {
        2
    } else {
        1
    }
}

pub open spec fn line_len_at(ls: Seq<Seq<char>>, row: int) -> int {
    if 0 <= row < ls.len() {
        ls[row].len() as int
    } else {
        0
    }
}

/// Typing `ch`: while the line has no room for it the line is broken at the
/// cursor first. Breaking a line at most twice leaves only the text right of
/// the cursor on the line, so two breaks are as many as can be needed.
pub open spec fn typed(ls: Seq<Seq<char>>, row: int, col: int, ch: char, breaks: nat) -> Edited
    decreases breaks,
{
    let ls0 = with_line(ls);
    if line_len_at(ls0, row) + insert_width(ch) > MAX_EDITOR_LINE_CHARS && breaks > 0 {
        let s = line_split(ls0, row, col);
        let t = typed(s.lines, s.row, s.col, ch, (breaks - 1) as nat);
        Edited { dirty: true, ..t }
    } else {
        put_char(ls0, row, col, ch)
    }
}

/// The text right of the cursor leaves room for `ch`, so that breaking the
/// line makes room (otherwise breaking never ends).
pub open spec fn room_after_break(ls: Seq<Seq<char>>, row: int, col: int, ch: char) -> bool {
    let ls0 = with_line(ls);
    0 <= row < ls0.len() ==> ls0[row].len() - min_int(col, ls0[row].len() as int) + insert_width(ch)
        <= MAX_EDITOR_LINE_CHARS
}

fn put_char_exec(lines: &mut Vec<String>, row: usize, col: usize, ch: char) -> (r: (usize, usize, bool))
    requires
        old(lines)@.len() > 0,
        col < usize::MAX || (row < old(lines)@.len() && col <= old(lines)@[row as int]@.len()),
    ensures
        ({
            let e = put_char(strs(old(lines)@), row as int, col as int, ch);
            &&& strs(final(lines)@) == e.lines
            &&& r.0 as int == e.row
            &&& r.1 as int == e.col
            &&& r.2 == e.dirty
        }),
{
    if row >= lines.len() {
        return (row, col, false);
    }
    let chars = chars_of(lines[row].as_str());
    assert(strs(lines@)[row as int] == lines@[row as int]@);
    let c = if col < chars.len() {
        col
    } else {
        chars.len()
    };
    let mut out = slice_chars(&chars, 0, c);
    out.push(ch);
    if ch == '[' {
        out.push(']');
    }
    let tail = slice_chars(&chars, c, chars.len());
    crate::text::push_all(&mut out, &tail);
    let ghost ins = if ch == '[' {
        seq!['[', ']']
    } else {
        seq![ch]
    };
    assert(out@ =~= chars@.take(c as int) + ins + chars@.skip(c as int));
    let new_col = if col <= c {
        c + 1
    } else {
        col + 1
    };
    let ghost before = lines@;
    lines.set(row, string_of(&out));
    proof {
        lemma_strs_update(before, row as int, lines@[row as int]);
    }
    (row, new_col, true)
}

pub fn insert_char(lines: &mut Vec<String>, row: usize, col: usize, ch: char) -> (r: (usize, usize, bool))
    requires
        room_after_break(strs(old(lines)@), row as int, col as int, ch),
        split_ok(strs(old(lines)@), row as int, col as int),
        old(lines)@.len() < usize::MAX - 2,
        col < usize::MAX,
    ensures
        ({
            let e = typed(strs(old(lines)@), row as int, col as int, ch, 2);
            &&& strs(final(lines)@) == e.lines
            &&& r.0 as int == e.row
            &&& r.1 as int == e.col
            &&& r.2 == e.dirty
        }),
{
    proof {
        reveal_with_fuel(typed, 3);
    }
    ensure_has_line(lines);
    let w: usize = if ch == '[' {
        2
    } else {
        1
    };
    let len = if row < lines.len() {
        assert(strs(lines@)[row as int] == lines@[row as int]@);
        chars_of(lines[row].as_str()).len()
    } else {
        0
    };
    if len > MAX_EDITOR_LINE_CHARS - w {
        let ghost ls0 = strs(lines@);
        let (r1, c1, _) = split_line_at_cursor(lines, row, col);
        let ghost s1 = line_split(ls0, row as int, col as int);
        proof {
            let line = ls0[row as int];
            let c = min_int(col as int, line.len() as int);
            crate::tui::lists::lemma_continuation_again(line, col as int, line.skip(c));
            assert(strs(lines@)[r1 as int] == continuation(line, col as int) + line.skip(c));
            assert((continuation(line, col as int) + line.skip(c)).take(c1 as int) =~= continuation(line, col as int));
        }
        let len1 = if r1 < lines.len() {
            assert(strs(lines@)[r1 as int] == lines@[r1 as int]@);
            chars_of(lines[r1].as_str()).len()
        } else {
            0
        };
        if len1 > MAX_EDITOR_LINE_CHARS - w {
            let (r2, c2, _) = split_line_at_cursor(lines, r1, c1);
            assert(strs(lines@).len() == lines@.len());
            let (r3, c3, _) = put_char_exec(lines, r2, c2, ch);
            return (r3, c3, true);
        }
        let (r2, c2, _) = put_char_exec(lines, r1, c1, ch);
        return (r2, c2, true);
    }
    put_char_exec(lines, row, col, ch)
}

/// Backspace in insert mode: the character left of the cursor goes; at the
/// start of a line the line joins the one above.
pub open spec fn backspaced(ls: Seq<Seq<char>>, row: int, col: int) -> Edited {
    if ls.len() == 0 {
        Edited { lines: ls, row, col, dirty: false }
    } else if col > 0 {
        if row < 0 || row >= ls.len() {
            Edited { lines: ls, row, col, dirty: false }
        } else {
            let line = ls[row];
            let next = if col <= line.len() {
                line.take(col - 1) + line.skip(col)
            } else {
                line
            };
            Edited { lines: ls.update(row, next), row, col: col - 1, dirty: true }
        }
    } else if row > 0 {
        Edited {
            lines: ls.update(row - 1, ls[row - 1] + ls[row]).remove(row),
            row: row - 1,
            col: ls[row - 1].len() as int,
            dirty: true,
        }
    } else {
        Edited { lines: ls, row, col, dirty: false }
    }
}

pub fn backspace_in_insert_mode(lines: &mut Vec<String>, row: usize, col: usize) -> (r: (usize, usize, bool))
    requires
        col == 0 && row > 0 && old(lines)@.len() > 0 ==> row < old(lines)@.len(),
    ensures
        ({
            let e = backspaced(strs(old(lines)@), row as int, col as int);
            &&& strs(final(lines)@) == e.lines
            &&& r.0 as int == e.row
            &&& r.1 as int == e.col
            &&& r.2 == e.dirty
        }),
{
    if lines.len() == 0 {
        return (row, col, false);
    }
    if col > 0 {
        if row >= lines.len() {
            return (row, col, false);
        }
        let chars = chars_of(lines[row].as_str());
        assert(strs(lines@)[row as int] == lines@[row as int]@);
        if col <= chars.len() {
            let head = slice_chars(&chars, 0, col - 1);
            let tail = slice_chars(&chars, col, chars.len());
            let next = string_of(&concat(&head, &tail));
            let ghost before = lines@;
            lines.set(row, next);
            proof {
                lemma_strs_update(before, row as int, lines@[row as int]);
            }
        }
        return (row, col - 1, true);
    }
    if row > 0 {
        let prev = chars_of(lines[row - 1].as_str());
        let cur = chars_of(lines[row].as_str());
        assert(strs(lines@)[row - 1] == lines@[row - 1]@);
        assert(strs(lines@)[row as int] == lines@[row as int]@);
        let joined = string_of(&concat(&prev, &cur));
        let ghost before = lines@;
        lines.set(row - 1, joined);
        proof {
            lemma_strs_update(before, row - 1, lines@[row - 1]);
        }
        let ghost mid = lines@;
        lines.remove(row);
        proof {
            lemma_strs_remove(mid, row as int);
        }
        return (row - 1, prev.len(), true);
    }
    (row, col, false)
}

/// `x`: the character under the cursor goes; at the end of a line the next
/// line joins it. The cursor is then clamped into the buffer.
pub open spec fn char_deleted(ls: Seq<Seq<char>>, row: int, col: int) -> Edited {
    if ls.len() == 0 || row < 0 || row >= ls.len() {
        Edited { lines: ls, row, col, dirty: false }
    } else {
        let line = ls[row];
        let e = if col < line.len() {
            Edited { lines: ls.update(row, line.take(col) + line.skip(col + 1)), row, col, dirty: true }
        } else if row + 1 < ls.len() {
            Edited {
                lines: ls.update(row, line + ls[row + 1]).remove(row + 1),
                row,
                col,
                dirty: true,
            }
        } else {
            Edited { lines: ls, row, col, dirty: false }
        };
        let c = clamped(e.lines, row, col);
        Edited { row: c.0, col: c.1, ..e }
    }
}

pub fn delete_char_under_cursor(lines: &mut Vec<String>, row: usize, col: usize) -> (r: (usize, usize, bool))
    ensures
        ({
            let e = char_deleted(strs(old(lines)@), row as int, col as int);
            &&& strs(final(lines)@) == e.lines
            &&& r.0 as int == e.row
            &&& r.1 as int == e.col
            &&& r.2 == e.dirty
        }),
{
    if lines.len() == 0 || row >= lines.len() {
        return (row, col, false);
    }
    let chars = chars_of(lines[row].as_str());
    assert(strs(lines@)[row as int] == lines@[row as int]@);
    let mut dirty = false;
    if col < chars.len() {
        let head = slice_chars(&chars, 0, col);
        let tail = slice_chars(&chars, col + 1, chars.len());
        let next = string_of(&concat(&head, &tail));
        let ghost before = lines@;
        lines.set(row, next);
        proof {
            lemma_strs_update(before, row as int, lines@[row as int]);
        }
        dirty = true;
    } else if row + 1 < lines.len() {
        let nxt = chars_of(lines[row + 1].as_str());
        assert(strs(lines@)[row + 1] == lines@[row + 1]@);
        let joined = string_of(&concat(&chars, &nxt));
        let ghost before = lines@;
        lines.set(row, joined);
        proof {
            lemma_strs_update(before, row as int, lines@[row as int]);
        }
        let ghost mid = lines@;
        lines.remove(row + 1);
        proof {
            lemma_strs_remove(mid, row + 1);
        }
        dirty = true;
    }
    let (r0, c0) = crate::tui::motion::clamp_cursor(lines, row, col);
    (r0, c0, dirty)
}

/// `dd`: the cursor's line goes (an emptied buffer keeps one empty line),
/// and the cursor stays on the line that takes its place.
pub open spec fn line_deleted(ls: Seq<Seq<char>>, row: int, col: int) -> Edited {
    if ls.len() == 0 {
        Edited { lines: ls, row, col, dirty: false }
    } else {
        let rest = with_line(ls.remove(row));
        let r = min_int(row, rest.len() - 1);
        Edited { lines: rest, row: r, col: min_int(col, rest[r].len() as int), dirty: true }
    }
}

pub fn delete_current_line(lines: &mut Vec<String>, row: usize, col: usize) -> (r: (usize, usize, bool))
    requires
        old(lines)@.len() > 0 ==> row < old(lines)@.len(),
    ensures
        ({
            let e = line_deleted(strs(old(lines)@), row as int, col as int);
            &&& strs(final(lines)@) == e.lines
            &&& r.0 as int == e.row
            &&& r.1 as int == e.col
            &&& r.2 == e.dirty
        }),
{
    if lines.len() == 0 {
        return (row, col, false);
    }
    let ghost before = lines@;
    lines.remove(row);
    proof {
        lemma_strs_remove(before, row as int);
    }
    ensure_has_line(lines);
    assert(strs(lines@).len() == lines@.len());
    let r = if row >= lines.len() {
        lines.len() - 1
    } else {
        row
    };
    let len = chars_of(lines[r].as_str()).len();
    assert(strs(lines@)[r as int] == lines@[r as int]@);
    let c = if col > len {
        len
    } else {
        col
    };
    (r, c, true)
}

/// `o` and `O`: an empty line below or at the cursor's line, with the cursor
/// at its start.
pub open spec fn line_opened(ls: Seq<Seq<char>>, row: int, below: bool) -> Edited {
    let ls0 = with_line(ls);
    let at = if below { row + 1 } else { row };
    Edited { lines: ls0.insert(at, Seq::<char>::empty()), row: at, col: 0, dirty: true }
}

pub fn open_line(lines: &mut Vec<String>, row: usize, below: bool) -> (r: (usize, usize, bool))
    requires
        (if below { row + 1 } else { row as int }) <= with_line(strs(old(lines)@)).len(),
    ensures
        ({
            let e = line_opened(strs(old(lines)@), row as int, below);
            &&& strs(final(lines)@) == e.lines
            &&& r.0 as int == e.row
            &&& r.1 as int == e.col
            &&& r.2 == e.dirty
        }),
{
    ensure_has_line(lines);
    assert(strs(lines@).len() == lines@.len());
    let n = lines.len();
    assert(below ==> row + 1 <= n);
    let at = if below {
        row + 1
    } else {
        row
    };
    let ghost before = lines@;
    lines.insert(at, String::new());
    proof {
        lemma_strs_insert(before, at as int, lines@[at as int]);
    }
    (at, 0, true)
}

/// Typing a character other than `[` into a line with room for it and then
/// pressing backspace gives back the buffer and the cursor.
pub proof fn lemma_type_then_backspace(ls: Seq<Seq<char>>, row: int, col: int, ch: char)
    requires
        0 <= row < ls.len(),
        0 <= col <= ls[row].len(),
        ch != '[',
        ls[row].len() + 1 <= MAX_EDITOR_LINE_CHARS,
    ensures
        ({
            let t = typed(ls, row, col, ch, 2);
            let b = backspaced(t.lines, t.row, t.col);
            &&& b.lines == ls
            &&& b.row == row
            &&& b.col == col
        }),
{
    let t = typed(ls, row, col, ch, 2);
    let line = ls[row];
    let typed_line = line.take(col) + seq![ch] + line.skip(col);
    assert(t.lines == ls.update(row, typed_line));
    assert(typed_line.take(col) + typed_line.skip(col + 1) =~= line);
    assert(ls.update(row, typed_line).update(row, line) =~= ls);
}

} // verus!
