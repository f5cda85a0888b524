//! Cursor motions over the browser's buffer: by character, to the bounds of
//! the buffer, and by word (`b`, `w`, `e`).
//!
//! A cursor is a pair `(row, col)`, both counted in characters from 0.
use vstd::prelude::*;
use crate::text::{chars_of, is_whitespace, is_ws};
use crate::index::strs;
use crate::tui::chars::{char_class, class_of, is_word_char, word_char};

verus! {

broadcast use vstd::string::group_string_axioms;

pub open spec fn min_int(a: int, b: int) -> int {
    if a <= b {
        a
    } else {
        b
    }
}

// ---------------------------------------------------------------------------
// Clamping
// ---------------------------------------------------------------------------

/// The cursor moved into the buffer: onto its last line when below it, and
/// no further right than the end of its line.
pub open spec fn clamped(ls: Seq<Seq<char>>, row: int, col: int) -> (int, int) {
    if ls.len() == 0 {
        (0, 0)
    } else {
        let r = min_int(row, ls.len() - 1);
        (r, min_int(col, ls[r].len() as int))
    }
}

pub fn clamp_cursor(lines: &Vec<String>, row: usize, col: usize) -> (r: (usize, usize))
    ensures
        (r.0 as int, r.1 as int) == clamped(strs(lines@), row as int, col as int),
{
    if lines.len() == 0 {
        return (0, 0);
    }
    let r = if row >= lines.len() {
        lines.len() - 1
    } else {
        row
    };
    let len = chars_of(lines[r].as_str()).len();
    assert(strs(lines@)[r as int] == lines@[r as int]@);
    let c = if col > len {
        len
    } else {
        col
    };
    (r, c)
}

/// `l`: one character right, up to the end of the line.
pub open spec fn moved_right(ls: Seq<Seq<char>>, row: int, col: int) -> int {
    let len = if 0 <= row < ls.len() {
        ls[row].len() as int
    } else {
        0
    };
    if col < len {
        col + 1
    } else {
        col
    }
}

pub fn move_cursor_right(lines: &Vec<String>, row: usize, col: usize) -> (r: usize)
    ensures
        r == moved_right(strs(lines@), row as int, col as int),
{
    let len = if row < lines.len() {
        assert(strs(lines@)[row as int] == lines@[row as int]@);
        chars_of(lines[row].as_str()).len()
    } else {
        0
    };
    if col < len {
        col + 1
    } else {
        col
    }
}

/// `h`: one character left, stopping at the start of the line.
pub fn move_cursor_left(col: usize) -> (r: usize)
    ensures
        r == if col > 0 { col - 1 } else { 0 },
{
    if col > 0 {
        col - 1
    } else {
        0
    }
}

// ---------------------------------------------------------------------------
// b: back to the start of a word
// ---------------------------------------------------------------------------

/// A word starts at `i`: the character there is not whitespace and its class
/// differs from the one before it.
pub open spec fn word_start(line: Seq<char>, i: int) -> bool {
    &&& 0 <= i < line.len()
    &&& !is_ws(line[i])
    &&& (i == 0 || class_of(line[i - 1]) != class_of(line[i]))
}

/// The last word start at or before `k`.
pub open spec fn last_start_upto(line: Seq<char>, k: int) -> Option<int>
    decreases k + 1,
{
    if k < 0 || k >= line.len() {
        None
    } else if word_start(line, k) {
        Some(k)
    } else {
        last_start_upto(line, k - 1)
    }
}

/// The last word start before column `k + 1` of `row`, or in an earlier line;
/// the start of the buffer when there is none.
pub open spec fn back_from(ls: Seq<Seq<char>>, row: int, k: int) -> (int, int)
    decreases row + 1,
{
    if row < 0 || row >= ls.len() {
        (0, 0)
    } else {
        match last_start_upto(ls[row], k) {
            Some(i) => (row, i),
            None => if row == 0 {
                (0, 0)
            } else {
                back_from(ls, row - 1, ls[row - 1].len() - 1)
            },
        }
    }
}

/// Where `b` takes the cursor.
pub open spec fn word_backward(ls: Seq<Seq<char>>, row: int, col: int) -> (int, int) {
    if ls.len() == 0 {
        (row, col)
    } else {
        let r = min_int(row, ls.len() - 1);
        back_from(ls, r, min_int(col, ls[r].len() as int) - 1)
    }
}

fn is_word_start(line: &Vec<char>, i: usize) -> (b: bool)
    requires
        i < line.len(),
    ensures
        b == word_start(line@, i as int),
{
    if is_whitespace(line[i]) {
        return false;
    }
    if i == 0 {
        return true;
    }
    char_class(line[i - 1]) != char_class(line[i])
}

pub fn move_word_backward(lines: &Vec<String>, row: usize, col: usize) -> (r: (usize, usize))
    ensures
        (r.0 as int, r.1 as int) == word_backward(strs(lines@), row as int, col as int),
{
    if lines.len() == 0 {
        return (row, col);
    }
    let ghost ls = strs(lines@);
    let mut r = if row >= lines.len() {
        lines.len() - 1
    } else {
        row
    };
    let mut chars = chars_of(lines[r].as_str());
    assert(ls[r as int] == lines@[r as int]@);
    let mut upto = if col < chars.len() {
        col
    } else {
        chars.len()
    };
    loop
        invariant
            ls == strs(lines@),
            r < lines.len(),
            chars@ == ls[r as int],
            upto <= chars.len(),
            back_from(ls, r as int, upto - 1) == word_backward(ls, row as int, col as int),
        decreases r, upto,
    {
        let mut i = upto;
        while i > 0
            invariant
                i <= upto <= chars.len(),
                chars@ == ls[r as int],
                r < ls.len(),
                last_start_upto(chars@, i - 1) == last_start_upto(chars@, upto - 1),
                back_from(ls, r as int, upto - 1) == word_backward(ls, row as int, col as int),
                ls == strs(lines@),
            decreases i,
        {
            if is_word_start(&chars, i - 1) {
                return (r, i - 1);
            }
            i = i - 1;
        }
        if r == 0 {
            return (0, 0);
        }
        r = r - 1;
        chars = chars_of(lines[r].as_str());
        assert(ls[r as int] == lines@[r as int]@);
        upto = chars.len();
    }
}

// ---------------------------------------------------------------------------
// w: forward to the start of the next word
// ---------------------------------------------------------------------------

/// The end of the run of word characters that starts at `i`.
pub open spec fn run_end(line: Seq<char>, i: int) -> int
    decreases line.len() - i,
{
    if 0 <= i && i + 1 < line.len() && word_char(line[i + 1]) {
        run_end(line, i + 1)
    } else {
        i
    }
}

/// The first position at or after `i` that holds a word character, or the
/// length of the line.
pub open spec fn skip_nonword(line: Seq<char>, i: int) -> int
    decreases line.len() - i,
{
    if 0 <= i < line.len() && !word_char(line[i]) {
        skip_nonword(line, i + 1)
    } else {
        i
    }
}

/// Where `w` takes the cursor from `(row, col)`, `row` in the buffer.
pub open spec fn fwd_from(ls: Seq<Seq<char>>, row: int, col: int) -> (int, int)
    decreases ls.len() - row,
{
    if row < 0 || row >= ls.len() {
        (row, col)
    } else {
        let line = ls[row];
        let len = line.len() as int;
        let last_row = row + 1 >= ls.len();
        if len == 0 {
            if last_row {
                (row, 0)
            } else {
                (row + 1, 0)
            }
        } else if col >= len {
            if last_row {
                (row, len - 1)
            } else {
                (row + 1, 0)
            }
        } else if word_char(line[col]) && run_end(line, col) + 1 >= len && !last_row {
            (row + 1, 0)
        } else {
            let i0 = if word_char(line[col]) {
                if run_end(line, col) + 1 < len {
                    run_end(line, col) + 1
                } else {
                    run_end(line, col)
                }
            } else {
                col
            };
            let i = skip_nonword(line, i0);
            if i < len {
                (row, i)
            } else if last_row {
                (row, len - 1)
            } else {
                fwd_from(ls, row + 1, 0)
            }
        }
    }
}

/// Where `w` takes the cursor.
pub open spec fn word_forward(ls: Seq<Seq<char>>, row: int, col: int) -> (int, int) {
    if ls.len() == 0 {
        (row, col)
    } else {
        fwd_from(ls, min_int(row, ls.len() - 1), col)
    }
}

fn word_run_end(line: &Vec<char>, i: usize) -> (r: usize)
    requires
        i < line.len(),
    ensures
        r == run_end(line@, i as int),
        i <= r < line.len(),
{
    let mut j = i;
    while j + 1 < line.len() && is_word_char(line[j + 1])
        invariant
            i <= j < line.len(),
            run_end(line@, j as int) == run_end(line@, i as int),
        decreases line.len() - j,
    {
        j = j + 1;
    }
    j
}

fn skip_non_word(line: &Vec<char>, i: usize) -> (r: usize)
    requires
        i <= line.len(),
    ensures
        r == skip_nonword(line@, i as int),
        i <= r <= line.len(),
{
    let mut j = i;
    while j < line.len() && !is_word_char(line[j])
        invariant
            i <= j <= line.len(),
            skip_nonword(line@, j as int) == skip_nonword(line@, i as int),
        decreases line.len() - j,
    {
        j = j + 1;
    }
    j
}

pub fn move_word_forward(lines: &Vec<String>, row: usize, col: usize) -> (r: (usize, usize))
    ensures
        (r.0 as int, r.1 as int) == word_forward(strs(lines@), row as int, col as int),
{
    if lines.len() == 0 {
        return (row, col);
    }
    let ghost ls = strs(lines@);
    let n = lines.len();
    let mut r = if row >= n {
        n - 1
    } else {
        row
    };
    let mut c = col;
    loop
        invariant
            ls == strs(lines@),
            n == lines.len(),
            r < n,
            fwd_from(ls, r as int, c as int) == word_forward(ls, row as int, col as int),
        decreases n - r,
    {
        let chars = chars_of(lines[r].as_str());
        assert(ls[r as int] == lines@[r as int]@);
        let len = chars.len();
        let last_row = r + 1 >= n;
        if len == 0 {
            if last_row {
                return (r, 0);
            }
            return (r + 1, 0);
        }
        if c >= len {
            if last_row {
                return (r, len - 1);
            }
            return (r + 1, 0);
        }
        let mut i = c;
        if is_word_char(chars[i]) {
            i = word_run_end(&chars, i);
            if i + 1 < len {
                i = i + 1;
            } else if !last_row {
                return (r + 1, 0);
            }
        }
        i = skip_non_word(&chars, i);
        if i < len {
            return (r, i);
        }
        if last_row {
            return (r, len - 1);
        }
        r = r + 1;
        c = 0;
    }
}

// ---------------------------------------------------------------------------
// e: forward to the end of a word
// ---------------------------------------------------------------------------

/// Where `e` takes the cursor from `(row, col)`; `(cr, cc)` is where the
/// cursor stood when the motion began.
pub open spec fn end_from(ls: Seq<Seq<char>>, row: int, col: int, cr: int, cc: int) -> (int, int)
    decreases ls.len() - row,
{
    if row < 0 || row >= ls.len() {
        (row, col)
    } else {
        let line = ls[row];
        let len = line.len() as int;
        let more = row + 1 < ls.len();
        if len == 0 {
            if !more {
                (row, 0)
            } else {
                end_from(ls, row + 1, 0, cr, cc)
            }
        } else {
            let i = min_int(col, len - 1);
            if word_char(line[i]) && (run_end(line, i) > col || run_end(line, i) + 1 >= len) {
                let e = run_end(line, i);
                if e > col {
                    (row, e)
                } else if more && cr == row && cc >= e {
                    end_from(ls, row + 1, 0, cr, cc)
                } else {
                    (row, e)
                }
            } else {
                let i1 = if word_char(line[i]) {
                    run_end(line, i) + 1
                } else {
                    i
                };
                let j = skip_nonword(line, i1);
                if j >= len {
                    if more && cr == row && cc >= len - 1 {
                        end_from(ls, row + 1, 0, cr, cc)
                    } else {
                        (row, len - 1)
                    }
                } else {
                    (row, run_end(line, j))
                }
            }
        }
    }
}

/// Where `e` takes the cursor.
pub open spec fn word_end_forward(ls: Seq<Seq<char>>, row: int, col: int) -> (int, int) {
    if ls.len() == 0 {
        (row, col)
    } else {
        end_from(ls, min_int(row, ls.len() - 1), col, row, col)
    }
}

pub fn move_word_end_forward(lines: &Vec<String>, row: usize, col: usize) -> (r: (usize, usize))
    ensures
        (r.0 as int, r.1 as int) == word_end_forward(strs(lines@), row as int, col as int),
{
    if lines.len() == 0 {
        return (row, col);
    }
    let ghost ls = strs(lines@);
    let n = lines.len();
    let mut r = if row >= n {
        n - 1
    } else {
        row
    };
    let mut c = col;
    loop
        invariant
            ls == strs(lines@),
            n == lines.len(),
            r < n,
            end_from(ls, r as int, c as int, row as int, col as int) == word_end_forward(
                ls,
                row as int,
                col as int,
            ),
        decreases n - r,
    {
        let chars = chars_of(lines[r].as_str());
        assert(ls[r as int] == lines@[r as int]@);
        let len = chars.len();
        let more = r + 1 < n;
        if len == 0 {
            if !more {
                return (r, 0);
            }
            r = r + 1;
            c = 0;
            continue;
        }
        let mut i = if c < len - 1 {
            c
        } else {
            len - 1
        };
        if is_word_char(chars[i]) {
            let e = word_run_end(&chars, i);
            if e > c {
                return (r, e);
            }
            if e + 1 < len {
                i = e + 1;
            } else if more {
                if row == r && col >= e {
                    r = r + 1;
                    c = 0;
                    continue;
                }
                return (r, e);
            } else {
                return (r, e);
            }
        }
        let j = skip_non_word(&chars, i);
        if j >= len {
            let line_end = len - 1;
            if more && row == r && col >= line_end {
                r = r + 1;
                c = 0;
                continue;
            }
            return (r, line_end);
        }
        let e2 = word_run_end(&chars, j);
        return (r, e2);
    }
}

} // verus!
