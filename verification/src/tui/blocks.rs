//! Blocks of a note as the browser treats them: fenced code blocks, and the
//! `title:` entry of the front matter.
use vstd::prelude::*;
use crate::text::{
    chars_of, crlf_to_lf, crlf_to_lf_exec, join, join_with, lines, lines_of, push_all, starts_with,
    starts_with_exec, string_of, trim_start, trim_start_set, trim_whitespace, trim_ws, views,
    CharSet,
};
use crate::frontmatter::{dashes, dashes_chars, frontmatter_chars, frontmatter_of, newline, newline_chars};
use crate::index::strs;

verus! {

broadcast use vstd::string::group_string_axioms;

/// A line that opens or closes a fenced code block: after its indentation
/// it starts with three backticks.
pub open spec fn fence_line(line: Seq<char>) -> bool {
    starts_with(trim_start(line, CharSet::Whitespace), seq!['`', '`', '`'])
}

pub fn is_fence_line(line: &str) -> (b: bool)
    ensures
        b == fence_line(line@),
{
    let t = trim_start_set(&chars_of(line), CharSet::Whitespace);
    let mut f: Vec<char> = Vec::new();
    f.push('`');
    f.push('`');
    f.push('`');
    assert(f@ =~= seq!['`', '`', '`']);
    starts_with_exec(&t, &f)
}

/// How many fence lines come before line `i`.
pub open spec fn fences_before(ls: Seq<Seq<char>>, i: int) -> nat
    decreases i,
{
    if i <= 0 {
        0
    } else if fence_line(ls[i - 1]) {
        fences_before(ls, i - 1) + 1
    } else {
        fences_before(ls, i - 1)
    }
}

/// Line `i` belongs to a fenced code block: it is a fence, or an odd number
/// of fences comes before it.
pub open spec fn in_code_block(ls: Seq<Seq<char>>, i: int) -> bool {
    fence_line(ls[i]) || fences_before(ls, i) % 2 == 1
}

pub fn fenced_code_block_rows(lines: &Vec<String>) -> (r: Vec<bool>)
    ensures
        r@.len() == lines@.len(),
        forall|i: int| 0 <= i < r@.len() ==> r@[i] == in_code_block(strs(lines@), i),
{
    let ghost ls = strs(lines@);
    let mut rows: Vec<bool> = Vec::new();
    let mut in_block = false;
    let mut i: usize = 0;
    while i < lines.len()
        invariant
            i <= lines@.len(),
            ls == strs(lines@),
            rows@.len() == i,
            in_block == (fences_before(ls, i as int) % 2 == 1),
            forall|t: int| 0 <= t < i ==> rows@[t] == in_code_block(ls, t),
        decreases lines.len() - i,
    {
        assert(ls[i as int] == lines@[i as int]@);
        let fence = is_fence_line(lines[i].as_str());
        if fence {
            rows.push(true);
            in_block = !in_block;
        } else {
            rows.push(in_block);
        }
        i = i + 1;
    }
    rows
}

// ---------------------------------------------------------------------------
// title:
// ---------------------------------------------------------------------------

/// A title with each `"` escaped by a backslash.
pub open spec fn escape_quotes(s: Seq<char>) -> Seq<char>
    decreases s.len(),
{
    if s.len() == 0 {
        s
    } else if s.last() == '"' {
        escape_quotes(s.drop_last()) + seq!['\\', '"']
    } else {
        escape_quotes(s.drop_last()).push(s.last())
    }
}

pub open spec fn title_line(title: Seq<char>) -> Seq<char> {
    seq!['t', 'i', 't', 'l', 'e', ':', ' ', '"'] + escape_quotes(title) + seq!['"']
}

pub open spec fn is_title_line(l: Seq<char>) -> bool {
    starts_with(trim_ws(l), seq!['t', 'i', 't', 'l', 'e', ':'])
}

pub open spec fn drop_title_lines(ls: Seq<Seq<char>>) -> Seq<Seq<char>>
    decreases ls.len(),
{
    if ls.len() == 0 {
        ls
    } else if is_title_line(ls.last()) {
        drop_title_lines(ls.drop_last())
    } else {
        drop_title_lines(ls.drop_last()).push(ls.last())
    }
}

/// A note with its `title:` set: the front matter's `title:` lines give way
/// to one at its top, or a front matter with only that line comes first.
pub open spec fn with_title(content: Seq<char>, title: Seq<char>) -> Seq<char> {
    let normalized = crlf_to_lf(content);
    match frontmatter_of(normalized) {
        Some((fm, body)) => {
            let ls = seq![title_line(title)] + drop_title_lines(lines(fm));
            dashes() + newline() + join(ls, newline()) + newline() + dashes() + newline() + body
        },
        None => dashes() + newline() + title_line(title) + newline() + dashes() + newline()
            + normalized,
    }
}

/// `s` with each `"` escaped by a backslash.
pub(crate) fn escape_quotes_exec(s: &Vec<char>) -> (r: Vec<char>)
    ensures
        r@ == escape_quotes(s@),
{
    let mut esc: Vec<char> = Vec::new();
    let mut i: usize = 0;
    while i < s.len()
        invariant
            i <= s.len(),
            esc@ == escape_quotes(s@.take(i as int)),
        decreases s.len() - i,
    {
        proof {
            assert(s@.take(i as int + 1).drop_last() =~= s@.take(i as int));
        }
        if s[i] == '"' {
            esc.push('\\');
            esc.push('"');
            assert(esc@ =~= escape_quotes(s@.take(i as int + 1)));
        } else {
            esc.push(s[i]);
        }
        i = i + 1;
    }
    assert(s@.take(s@.len() as int) =~= s@);
    esc
}

fn title_line_chars(title: &Vec<char>) -> (r: Vec<char>)
    ensures
        r@ == title_line(title@),
{
    let esc = escape_quotes_exec(title);
    let mut r: Vec<char> = Vec::new();
    r.push('t');
    r.push('i');
    r.push('t');
    r.push('l');
    r.push('e');
    r.push(':');
    r.push(' ');
    r.push('"');
    push_all(&mut r, &esc);
    r.push('"');
    assert(r@ =~= title_line(title@));
    r
}

pub fn write_title_to_markdown(content: &str, title: &str) -> (r: String)
    ensures
        r@ == with_title(content@, title@),
{
    let normalized = crlf_to_lf_exec(&chars_of(content));
    let tl = title_line_chars(&chars_of(title));
    match frontmatter_chars(&normalized) {
        Some((fm, body)) => {
            let fls = lines_of(&fm);
            let mut kept: Vec<Vec<char>> = Vec::new();
            kept.push(tl);
            let mut key: Vec<char> = Vec::new();
            key.push('t');
            key.push('i');
            key.push('t');
            key.push('l');
            key.push('e');
            key.push(':');
            assert(key@ =~= seq!['t', 'i', 't', 'l', 'e', ':']);
            let ghost tlv = title_line(title@);
            let mut i: usize = 0;
            while i < fls.len()
                invariant
                    i <= fls.len(),
                    key@ == seq!['t', 'i', 't', 'l', 'e', ':'],
                    views(kept@) == seq![tlv] + drop_title_lines(views(fls@).take(i as int)),
                decreases fls.len() - i,
            {
                proof {
                    let lv = views(fls@);
                    assert(lv.take(i as int + 1).drop_last() =~= lv.take(i as int));
                    assert(lv.take(i as int + 1).last() == fls@[i as int]@);
                }
                let t = trim_whitespace(&fls[i]);
                if !starts_with_exec(&t, &key) {
                    let l = fls[i].clone();
                    proof {
                        assert(views(kept@.push(l)) =~= views(kept@).push(l@));
                        assert(l@ == fls@[i as int]@);
                    }
                    kept.push(l);
                }
                i = i + 1;
            }
            assert(views(fls@).take(fls@.len() as int) =~= views(fls@));
            let nl = newline_chars();
            let mut out = dashes_chars();
            out.push('\n');
            let joined = join_with(&kept, &nl);
            push_all(&mut out, &joined);
            out.push('\n');
            out.push('-');
            out.push('-');
            out.push('-');
            out.push('\n');
            push_all(&mut out, &body);
            assert(out@ =~= dashes() + newline() + join(views(kept@), newline()) + newline()
                + dashes() + newline() + body@);
            string_of(&out)
        },
        None => {
            let mut out = dashes_chars();
            out.push('\n');
            push_all(&mut out, &tl);
            out.push('\n');
            out.push('-');
            out.push('-');
            out.push('-');
            out.push('\n');
            push_all(&mut out, &normalized);
            assert(out@ =~= dashes() + newline() + title_line(title@) + newline() + dashes()
                + newline() + normalized@);
            string_of(&out)
        },
    }
}

} // verus!
