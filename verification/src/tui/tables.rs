//! Markdown tables: recognising rows and separator rows, and padding the
//! cells of a table so that its columns line up.
use vstd::prelude::*;
use crate::text::{
    chars_of, is_ws, is_whitespace, lead, lead_len, push_all, slice_chars, split, split_set,
    string_of, trim, trim_set, trim_whitespace, trim_ws, views, CharSet,
};
use crate::index::{strs, strings_of};

verus! {

broadcast use vstd::string::group_string_axioms;

/// The cells of a table row: the row trimmed, its outer `|` removed, split at
/// `|`, each cell trimmed.
pub open spec fn cells_of(row: Seq<char>) -> Seq<Seq<char>> {
    trim_all(split(trim(trim_ws(row), CharSet::Only('|')), CharSet::Only('|')))
}

/// Each piece trimmed.
pub open spec fn trim_all(parts: Seq<Seq<char>>) -> Seq<Seq<char>> {
    parts.map_values(|c: Seq<char>| trim_ws(c))
}

pub fn parse_table_cells(row: &str) -> (r: Vec<String>)
    ensures
        strs(r@) == cells_of(row@),
{
    let t = trim_whitespace(&chars_of(row));
    let inner = trim_set(&t, CharSet::Only('|'));
    let parts = split_set(&inner, CharSet::Only('|'));
    let mut out: Vec<String> = Vec::new();
    let mut i: usize = 0;
    while i < parts.len()
        invariant
            i <= parts.len(),
            views(parts@) == split(inner@, CharSet::Only('|')),
            strs(out@) == trim_all(views(parts@).take(i as int)),
        decreases parts.len() - i,
    {
        let c = string_of(&trim_whitespace(&parts[i]));
        proof {
            assert(views(parts@)[i as int] == parts@[i as int]@);
            assert(strs(out@.push(c)) =~= strs(out@).push(c@));
            assert(trim_all(views(parts@).take(i as int + 1)) =~= trim_all(views(parts@).take(i as int)).push(
                trim_ws(views(parts@)[i as int]),
            ));
        }
        out.push(c);
        i = i + 1;
    }
    assert(views(parts@).take(parts@.len() as int) =~= views(parts@));
    out
}

/// A table row: not blank, and holding a `|`.
pub open spec fn table_row(line: Seq<char>) -> bool {
    trim_ws(line).len() > 0 && trim_ws(line).contains('|')
}

pub fn is_table_row(line: &str) -> (b: bool)
    ensures
        b == table_row(line@),
{
    let t = trim_whitespace(&chars_of(line));
    if t.len() == 0 {
        return false;
    }
    let mut i: usize = 0;
    while i < t.len()
        invariant
            i <= t.len(),
            t@ == trim_ws(line@),
            forall|j: int| 0 <= j < i ==> t@[j] != '|',
        decreases t.len() - i,
    {
        if t[i] == '|' {
            assert(t@[i as int] == '|');
            return true;
        }
        i = i + 1;
    }
    false
}

/// A cell of a separator row: not blank, and only dashes, colons and spaces.
pub open spec fn sep_cell(c: Seq<char>) -> bool {
    trim_ws(c).len() > 0 && forall|i: int| 0 <= i < trim_ws(c).len() ==> (#[trigger] trim_ws(c)[i]
        == '-' || trim_ws(c)[i] == ':' || trim_ws(c)[i] == ' ')
}

/// A separator row such as `|---|:-:|`.
pub open spec fn separator_row(line: Seq<char>) -> bool {
    cells_of(line).len() > 0 && forall|j: int| 0 <= j < cells_of(line).len() ==> sep_cell(
        #[trigger] cells_of(line)[j],
    )
}

fn is_sep_cell(c: &Vec<char>) -> (b: bool)
    ensures
        b == sep_cell(c@),
{
    let t = trim_whitespace(c);
    if t.len() == 0 {
        return false;
    }
    let mut i: usize = 0;
    while i < t.len()
        invariant
            i <= t.len(),
            t@ == trim_ws(c@),
            forall|j: int| 0 <= j < i ==> (#[trigger] t@[j] == '-' || t@[j] == ':' || t@[j] == ' '),
        decreases t.len() - i,
    {
        if !(t[i] == '-' || t[i] == ':' || t[i] == ' ') {
            return false;
        }
        i = i + 1;
    }
    true
}

pub fn is_table_separator_row(line: &str) -> (b: bool)
    ensures
        b == separator_row(line@),
{
    let cells = parse_table_cells(line);
    if cells.len() == 0 {
        return false;
    }
    let mut i: usize = 0;
    while i < cells.len()
        invariant
            i <= cells.len(),
            strs(cells@) == cells_of(line@),
            forall|j: int| 0 <= j < i ==> sep_cell(#[trigger] cells_of(line@)[j]),
        decreases cells.len() - i,
    {
        assert(strs(cells@)[i as int] == cells@[i as int]@);
        if !is_sep_cell(&chars_of(cells[i].as_str())) {
            return false;
        }
        i = i + 1;
    }
    true
}

pub open spec fn max_nat(a: nat, b: nat) -> nat {
    if a >= b {
        a
    } else {
        b
    }
}

/// The cell a separator row gets in a column of `width`: at least three
/// dashes, with the colons of `cell` kept at either end.
pub open spec fn sep_text(cell: Seq<char>, width: nat) -> Seq<char> {
    let n = max_nat(width, 3);
    let t = trim_ws(cell);
    let left = t.len() > 0 && t[0] == ':';
    let right = t.len() > 0 && t.last() == ':';
    Seq::new(
        n,
        |i: int|
            if i == 0 && left {
                ':'
            } else if i == n - 1 && right {
                ':'
            } else {
                '-'
            },
    )
}

pub fn table_separator_cell(cell: &str, width: usize) -> (r: String)
    ensures
        r@ == sep_text(cell@, width as nat),
{
    let t = trim_whitespace(&chars_of(cell));
    let left = t.len() > 0 && t[0] == ':';
    let right = t.len() > 0 && t[t.len() - 1] == ':';
    let n = if width > 3 {
        width
    } else {
        3
    };
    let mut out: Vec<char> = Vec::new();
    let mut i: usize = 0;
    while i < n
        invariant
            i <= n,
            n == max_nat(width as nat, 3),
            t@ == trim_ws(cell@),
            left == (t@.len() > 0 && t@[0] == ':'),
            right == (t@.len() > 0 && t@.last() == ':'),
            out@ =~= sep_text(cell@, width as nat).take(i as int),
        decreases n - i,
    {
        let c = if i == 0 && left {
            ':'
        } else if i == n - 1 && right {
            ':'
        } else {
            '-'
        };
        out.push(c);
        i = i + 1;
    }
    string_of(&out)
}

// ---------------------------------------------------------------------------
// Aligning a table
// ---------------------------------------------------------------------------

/// The width of column `j` over the first `k` rows: the longest cell there.
pub open spec fn width_upto(rows: Seq<Seq<Seq<char>>>, k: int, j: int) -> nat
    decreases k,
{
    if k <= 0 {
        0
    } else {
        let prev = width_upto(rows, k - 1, j);
        if 0 <= j < rows[k - 1].len() {
            max_nat(prev, rows[k - 1][j].len())
        } else {
            prev
        }
    }
}

/// The number of columns over the first `k` rows: the most cells in a row.
pub open spec fn ncols_upto(rows: Seq<Seq<Seq<char>>>, k: int) -> nat
    decreases k,
{
    if k <= 0 {
        0
    } else {
        max_nat(ncols_upto(rows, k - 1), rows[k - 1].len())
    }
}

pub open spec fn spaces(n: nat) -> Seq<char> {
    Seq::new(n, |i: int| ' ')
}

/// Column `j` of a row as the aligned table shows it.
pub open spec fn cell_text(cells: Seq<Seq<char>>, j: int, width: nat, is_sep: bool) -> Seq<char> {
    if is_sep {
        if j < cells.len() {
            sep_text(cells[j], width)
        } else {
            Seq::new(max_nat(width, 3), |i: int| '-')
        }
    } else {
        let c = if j < cells.len() {
            cells[j]
        } else {
            Seq::<char>::empty()
        };
        c + spaces(if width > c.len() { (width - c.len()) as nat } else { 0 })
    }
}

/// The first `m` columns of a row, each as ` cell |`.
pub open spec fn row_cols(cells: Seq<Seq<char>>, widths: Seq<nat>, m: int, is_sep: bool) -> Seq<char>
    decreases m,
{
    if m <= 0 {
        Seq::<char>::empty()
    } else {
        row_cols(cells, widths, m - 1, is_sep) + seq![' '] + cell_text(cells, m - 1, widths[m - 1], is_sep)
            + seq![' ', '|']
    }
}

/// The leading whitespace of a line.
pub open spec fn indent_of(line: Seq<char>) -> Seq<char> {
    line.take(lead(line, CharSet::Whitespace) as int)
}

/// The widths of the table's columns.
pub open spec fn table_widths(block: Seq<Seq<char>>) -> Seq<nat> {
    let rows = block.map_values(|l: Seq<char>| cells_of(l));
    Seq::new(ncols_upto(rows, rows.len() as int), |j: int| width_upto(rows, rows.len() as int, j))
}

/// A row of the aligned table.
pub open spec fn aligned_row(block: Seq<Seq<char>>, i: int) -> Seq<char> {
    let widths = table_widths(block);
    let line = block[i];
    let is_sep = i == 1 && separator_row(line);
    indent_of(line) + seq!['|'] + row_cols(cells_of(line), widths, widths.len() as int, is_sep)
}

pub open spec fn aligned_block(block: Seq<Seq<char>>) -> Seq<Seq<char>> {
    Seq::new(block.len(), |i: int| aligned_row(block, i))
}

fn char_count(s: &String) -> (r: usize)
    ensures
        r == s@.len(),
{
    chars_of(s.as_str()).len()
}

/// The widths of the columns of `rows`, computed row by row.
fn column_widths(rows: &Vec<Vec<String>>) -> (w: Vec<usize>)
    ensures
        w@.len() == ncols_upto(rows@.map_values(|r: Vec<String>| strs(r@)), rows@.len() as int),
        forall|j: int| 0 <= j < w@.len() ==> w@[j] == width_upto(
            rows@.map_values(|r: Vec<String>| strs(r@)),
            rows@.len() as int,
            j,
        ),
{
    let ghost rv = rows@.map_values(|r: Vec<String>| strs(r@));
    let mut widths: Vec<usize> = Vec::new();
    let mut k: usize = 0;
    while k < rows.len()
        invariant
            k <= rows.len(),
            rv == rows@.map_values(|r: Vec<String>| strs(r@)),
            widths@.len() == ncols_upto(rv, k as int),
            forall|j: int| 0 <= j < widths@.len() ==> widths@[j] == width_upto(rv, k as int, j),
            forall|j: int| widths@.len() <= j ==> #[trigger] width_upto(rv, k as int, j) == 0,
        decreases rows.len() - k,
    {
        let row = &rows[k];
        assert(rv[k as int] == strs(row@));
        let mut j: usize = 0;
        let ghost old_w = widths@;
        while widths.len() < row.len()
            invariant
                old_w.len() <= widths@.len() <= row@.len() || widths@.len() == old_w.len(),
                widths@.len() >= old_w.len(),
                forall|t: int| 0 <= t < old_w.len() ==> widths@[t] == old_w[t],
                forall|t: int| old_w.len() <= t < widths@.len() ==> widths@[t] == 0,
            decreases row.len() - widths.len(),
        {
            widths.push(0);
        }
        assert(widths@.len() == max_nat(old_w.len(), row@.len()));
        let ghost grown = widths@;
        while j < row.len()
            invariant
                j <= row@.len(),
                row@.len() <= widths@.len(),
                widths@.len() == grown.len(),
                rv[k as int] == strs(row@),
                forall|t: int| 0 <= t < j ==> widths@[t] == max_nat(grown[t] as nat, row@[t]@.len()),
                forall|t: int| j <= t < widths@.len() ==> widths@[t] == grown[t],
            decreases row.len() - j,
        {
            let n = char_count(&row[j]);
            if n > widths[j] {
                widths.set(j, n);
            }
            j = j + 1;
        }
        proof {
            assert forall|t: int| 0 <= t < widths@.len() implies widths@[t] == width_upto(
                rv,
                k as int + 1,
                t,
            ) by {
                if t < old_w.len() {
                    assert(grown[t] == old_w[t]);
                    assert(old_w[t] == width_upto(rv, k as int, t));
                } else {
                    assert(grown[t] == 0);
                    assert(width_upto(rv, k as int, t) == 0);
                }
                if t < row@.len() {
                    assert(rv[k as int][t] == row@[t]@);
                    assert(widths@[t] == max_nat(grown[t] as nat, row@[t]@.len()));
                } else {
                    assert(widths@[t] == grown[t]);
                }
            }
            assert forall|t: int| widths@.len() <= t implies #[trigger] width_upto(rv, k as int + 1, t) == 0 by {
                assert(width_upto(rv, k as int, t) == 0);
                assert(t >= rv[k as int].len());
            }
        }
        k = k + 1;
    }
    widths
}

/// `n` copies of `c`.
fn repeat_char(c: char, n: usize) -> (r: Vec<char>)
    ensures
        r@ == Seq::new(n as nat, |i: int| c),
{
    let mut r: Vec<char> = Vec::new();
    let mut i: usize = 0;
    while i < n
        invariant
            i <= n,
            r@ =~= Seq::new(i as nat, |t: int| c),
        decreases n - i,
    {
        r.push(c);
        i = i + 1;
    }
    r
}

/// Pads the cells of a table so that its columns line up; the second row
/// keeps its separator shape.
pub fn align_table_block(block: &mut Vec<String>)
    ensures
        strs(final(block)@) == aligned_block(strs(old(block)@)),
{
    let ghost orig = strs(block@);
    let mut parsed: Vec<Vec<String>> = Vec::new();
    let mut k: usize = 0;
    while k < block.len()
        invariant
            k <= block.len(),
            orig == strs(block@),
            parsed@.len() == k,
            forall|t: int| 0 <= t < k ==> strs(#[trigger] parsed@[t]@) == cells_of(orig[t]),
        decreases block.len() - k,
    {
        let cells = parse_table_cells(block[k].as_str());
        assert(orig[k as int] == block@[k as int]@);
        parsed.push(cells);
        k = k + 1;
    }
    let ghost rows = orig.map_values(|l: Seq<char>| cells_of(l));
    assert(parsed@.map_values(|r: Vec<String>| strs(r@)) =~= rows);
    let widths = column_widths(&parsed);
    assert(widths@.len() == table_widths(orig).len());
    let mut out: Vec<String> = Vec::new();
    let mut i: usize = 0;
    while i < block.len()
        invariant
            i <= block.len(),
            orig == strs(block@),
            parsed@.len() == block@.len(),
            forall|t: int| 0 <= t < parsed@.len() ==> strs(#[trigger] parsed@[t]@) == cells_of(orig[t]),
            widths@.len() == table_widths(orig).len(),
            forall|j: int| 0 <= j < widths@.len() ==> widths@[j] as nat == table_widths(orig)[j],
            strs(out@) == aligned_block(orig).take(i as int),
        decreases block.len() - i,
    {
        let line = chars_of(block[i].as_str());
        assert(orig[i as int] == block@[i as int]@);
        let is_sep = i == 1 && is_table_separator_row(block[i].as_str());
        let cells = &parsed[i];
        let ind = lead_len(&line, CharSet::Whitespace);
        proof {
            crate::text::lemma_lead_bound(line@, CharSet::Whitespace);
        }
        let mut rebuilt = slice_chars(&line, 0, ind);
        rebuilt.push('|');
        let mut j: usize = 0;
        while j < widths.len()
            invariant
                j <= widths@.len(),
                widths@.len() == table_widths(orig).len(),
                forall|t: int| 0 <= t < widths@.len() ==> widths@[t] as nat == table_widths(orig)[t],
                strs(cells@) == cells_of(orig[i as int]),
                rebuilt@ == indent_of(orig[i as int]) + seq!['|'] + row_cols(
                    cells_of(orig[i as int]),
                    table_widths(orig),
                    j as int,
                    is_sep,
                ),
            decreases widths.len() - j,
        {
            let width = widths[j];
            rebuilt.push(' ');
            let ghost cv = cells_of(orig[i as int]);
            if is_sep {
                let part = if j < cells.len() {
                    assert(cv[j as int] == cells@[j as int]@);
                    chars_of(table_separator_cell(cells[j].as_str(), width).as_str())
                } else {
                    repeat_char('-', if width > 3 { width } else { 3 })
                };
                push_all(&mut rebuilt, &part);
            } else {
                let c = if j < cells.len() {
                    assert(cv[j as int] == cells@[j as int]@);
                    chars_of(cells[j].as_str())
                } else {
                    Vec::new()
                };
                let pad = if width > c.len() {
                    width - c.len()
                } else {
                    0
                };
                push_all(&mut rebuilt, &c);
                let sp = repeat_char(' ', pad);
                push_all(&mut rebuilt, &sp);
                proof {
                    let tw = table_widths(orig)[j as int];
                    assert(c@ + sp@ =~= cell_text(cv, j as int, tw, false)) by {
                        if j < cells.len() {
                            assert(c@ == cv[j as int]);
                        } else {
                            assert(c@ =~= Seq::<char>::empty());
                        }
                        assert(sp@ =~= spaces(if tw > c@.len() { (tw - c@.len()) as nat } else { 0 }));
                    }
                }
            }
            rebuilt.push(' ');
            rebuilt.push('|');
            proof {
                assert(rebuilt@ =~= indent_of(orig[i as int]) + seq!['|'] + row_cols(
                    cells_of(orig[i as int]),
                    table_widths(orig),
                    j as int + 1,
                    is_sep,
                ));
            }
            j = j + 1;
        }
        let s = string_of(&rebuilt);
        proof {
            assert(is_sep == (i == 1 && separator_row(orig[i as int])));
            assert(s@ == aligned_row(orig, i as int));
            assert(aligned_block(orig)[i as int] == aligned_row(orig, i as int));
            assert(strs(out@.push(s)) =~= strs(out@).push(s@));
            assert(aligned_block(orig).take(i as int + 1) =~= aligned_block(orig).take(i as int).push(
                aligned_row(orig, i as int),
            ));
        }
        out.push(s);
        i = i + 1;
    }
    assert(aligned_block(orig).take(block@.len() as int) =~= aligned_block(orig));
    *block = out;
}

/// The first line at or after `j` that is no table row, or the number of
/// lines.
pub open spec fn block_end(ls: Seq<Seq<char>>, j: int) -> int
    decreases ls.len() - j,
{
    if j < 0 || j >= ls.len() {
        ls.len() as int
    } else if table_row(ls[j]) {
        block_end(ls, j + 1)
    } else {
        j
    }
}

/// The lines from `i` on with each table aligned: a table is a row followed
/// by a separator row and then by every further row.
pub open spec fn aligned_from(ls: Seq<Seq<char>>, i: int) -> Seq<Seq<char>>
    decreases ls.len() - i,
{
    if i < 0 || i + 1 >= ls.len() {
        ls.skip(if i < 0 { 0 } else { i })
    } else if table_row(ls[i]) && separator_row(ls[i + 1]) {
        let e = block_end(ls, i + 2);
        proof {
            lemma_block_end(ls, i + 2);
        }
        aligned_block(ls.subrange(i, e)) + aligned_from(ls, e)
    } else {
        seq![ls[i]] + aligned_from(ls, i + 1)
    }
}

/// A table's rows run from where they start to no further than the last
/// line.
pub proof fn lemma_block_end(ls: Seq<Seq<char>>, j: int)
    requires
        0 <= j,
    ensures
        j <= block_end(ls, j) <= ls.len() || (j > ls.len() && block_end(ls, j) == ls.len()),
    decreases ls.len() - j,
{
    if j < ls.len() && table_row(ls[j]) {
        lemma_block_end(ls, j + 1);
    }
}

/// The lines of a note with every markdown table aligned.
pub fn align_markdown_table_lines(lines: &Vec<String>) -> (r: Vec<String>)
    ensures
        strs(r@) == aligned_from(strs(lines@), 0),
{
    let ghost ls = strs(lines@);
    let n = lines.len();
    let mut out: Vec<String> = Vec::new();
    let mut i: usize = 0;
    while n > 0 && i < n - 1
        invariant
            ls == strs(lines@),
            n == lines@.len(),
            i <= n,
            strs(out@) + aligned_from(ls, i as int) == aligned_from(ls, 0),
        decreases n - i,
    {
        assert(ls[i as int] == lines@[i as int]@);
        assert(ls[i + 1] == lines@[i + 1]@);
        if is_table_row(lines[i].as_str()) && is_table_separator_row(lines[i + 1].as_str()) {
            let mut e = i + 2;
            while e < n && is_table_row(lines[e].as_str())
                invariant
                    ls == strs(lines@),
                    n == lines@.len(),
                    i + 2 <= e <= n,
                    block_end(ls, e as int) == block_end(ls, i + 2),
                decreases n - e,
            {
                assert(ls[e as int] == lines@[e as int]@);
                e = e + 1;
            }
            proof {
                if e < n {
                    assert(ls[e as int] == lines@[e as int]@);
                }
            }
            let mut block: Vec<String> = Vec::new();
            let mut t = i;
            while t < e
                invariant
                    ls == strs(lines@),
                    n == lines@.len(),
                    i <= t <= e <= n,
                    strs(block@) == ls.subrange(i as int, t as int),
                decreases e - t,
            {
                let l = lines[t].clone();
                proof {
                    assert(ls[t as int] == lines@[t as int]@);
                    assert(strs(block@.push(l)) =~= strs(block@).push(l@));
                    assert(ls.subrange(i as int, t as int + 1) =~= ls.subrange(i as int, t as int).push(
                        ls[t as int],
                    ));
                }
                block.push(l);
                t = t + 1;
            }
            align_table_block(&mut block);
            let ghost before = strs(out@);
            let mut k: usize = 0;
            while k < block.len()
                invariant
                    k <= block.len(),
                    strs(out@) == before + strs(block@).take(k as int),
                decreases block.len() - k,
            {
                let l = block[k].clone();
                proof {
                    assert(strs(out@.push(l)) =~= strs(out@).push(l@));
                    assert(strs(block@)[k as int] == block@[k as int]@);
                    assert(strs(block@).take(k as int + 1) =~= strs(block@).take(k as int).push(
                        strs(block@)[k as int],
                    ));
                }
                out.push(l);
                k = k + 1;
            }
            proof {
                assert(strs(block@).take(block@.len() as int) =~= strs(block@));
                assert(before + strs(block@) + aligned_from(ls, e as int) =~= before + (strs(block@)
                    + aligned_from(ls, e as int)));
            }
            i = e;
        } else {
            let l = lines[i].clone();
            proof {
                assert(strs(out@.push(l)) =~= strs(out@).push(l@));
                assert(strs(out@).push(ls[i as int]) + aligned_from(ls, i + 1) =~= strs(out@) + (seq![
                    ls[i as int],
                ] + aligned_from(ls, i + 1)));
            }
            out.push(l);
            i = i + 1;
        }
    }
    let ghost before = strs(out@);
    let mut k = i;
    while k < n
        invariant
            i <= k <= n,
            n == lines@.len(),
            ls == strs(lines@),
            strs(out@) == before + ls.subrange(i as int, k as int),
        decreases n - k,
    {
        let l = lines[k].clone();
        proof {
            assert(ls[k as int] == lines@[k as int]@);
            assert(strs(out@.push(l)) =~= strs(out@).push(l@));
            assert(ls.subrange(i as int, k as int + 1) =~= ls.subrange(i as int, k as int).push(
                ls[k as int],
            ));
        }
        out.push(l);
        k = k + 1;
    }
    proof {
        assert(ls.subrange(i as int, n as int) =~= ls.skip(i as int));
    }
    out
}

} // verus!
