//! Continuing markdown lists: when a line is broken inside a list item, the
//! new line starts with the item's marker.
use vstd::prelude::*;
use crate::text::{
    chars_of, decimal, decimal_chars, is_digit, lead, lead_len, push_all, slice_chars, string_of,
    trim_ws, trim_whitespace, CharSet,
};
use crate::editor::address::{digits_value, parse_digits};

verus! {

broadcast use vstd::string::group_string_axioms;

pub open spec fn indent_chars() -> CharSet {
    CharSet::Pair(' ', '\t')
}

/// `- `, `* ` or `+ ` at the start of `t`.
pub open spec fn bullet_at(t: Seq<char>) -> bool {
    t.len() >= 2 && (t[0] == '-' || t[0] == '*' || t[0] == '+') && t[1] == ' '
}

/// `[ ] `, `[x] ` or `[X] ` at the start of `b`.
pub open spec fn checkbox_at(b: Seq<char>) -> bool {
    b.len() >= 4 && b[0] == '[' && (b[1] == ' ' || b[1] == 'x' || b[1] == 'X') && b[2] == ']'
        && b[3] == ' '
}

pub open spec fn blank(s: Seq<char>) -> bool {
    trim_ws(s).len() == 0
}

/// The number a list item's digits denote, or 1 when it does not fit in
/// `usize`.
pub open spec fn item_number(d: Seq<char>) -> nat {
    if digits_value(d) <= usize::MAX {
        digits_value(d)
    } else {
        1
    }
}

/// `1. ` or `1) ` at the start of `t`, with `n` digits.
pub open spec fn numbered_at(t: Seq<char>, n: int) -> bool {
    n > 0 && n + 1 < t.len() && (t[n] == '.' || t[n] == ')') && t[n + 1] == ' '
}

/// The prefix that the line after a break at `col` of `line` starts with: the
/// indentation and the marker of the list item that the text left of the
/// break begins (an unticked box for a task item, the next number for a
/// numbered one), or nothing when that text is no list item or the item is
/// empty.
pub open spec fn continuation(line: Seq<char>, col: int) -> Seq<char> {
    let left = line.take(if col < line.len() { col } else { line.len() as int });
    let k = lead(left, indent_chars()) as int;
    let indent = left.take(k);
    let t = left.skip(k);
    if bullet_at(t) {
        let body = t.skip(2);
        if checkbox_at(body) {
            if blank(body.skip(4)) {
                Seq::<char>::empty()
            } else {
                indent + t.take(2) + seq!['[', ' ', ']', ' ']
            }
        } else if blank(body) {
            Seq::<char>::empty()
        } else {
            indent + t.take(2)
        }
    } else {
        let n = lead(t, CharSet::AsciiDigit) as int;
        if numbered_at(t, n) {
            if blank(t.skip(n + 2)) {
                Seq::<char>::empty()
            } else {
                indent + decimal(item_number(t.take(n)) + 1) + seq![t[n], ' ']
            }
        } else {
            Seq::<char>::empty()
        }
    }
}

/// A numbered item's number has a successor in `usize` (the browser adds one
/// to it with no check).
pub open spec fn number_fits(line: Seq<char>, col: int) -> bool {
    let left = line.take(if col < line.len() { col } else { line.len() as int });
    let k = lead(left, indent_chars()) as int;
    let t = left.skip(k);
    let n = lead(t, CharSet::AsciiDigit) as int;
    !bullet_at(t) && numbered_at(t, n) && !blank(t.skip(n + 2)) ==> item_number(t.take(n))
        < usize::MAX
}

pub fn list_continuation_prefix(line: &str, col: usize) -> (r: String)
    requires
        number_fits(line@, col as int),
    ensures
        r@ == continuation(line@, col as int),
{
    let chars = chars_of(line);
    let end = if col < chars.len() {
        col
    } else {
        chars.len()
    };
    let left = slice_chars(&chars, 0, end);
    assert(left@ =~= line@.take(end as int));
    let k = lead_len(&left, CharSet::Pair(' ', '\t'));
    proof {
        crate::text::lemma_lead_bound(left@, CharSet::Pair(' ', '\t'));
    }
    let indent = slice_chars(&left, 0, k);
    let t = slice_chars(&left, k, left.len());
    assert(t@ =~= left@.skip(k as int));
    if t.len() >= 2 && (t[0] == '-' || t[0] == '*' || t[0] == '+') && t[1] == ' ' {
        let body = slice_chars(&t, 2, t.len());
        let mut out = indent.clone();
        out.push(t[0]);
        out.push(' ');
        assert(out@ =~= indent@ + t@.take(2));
        if body.len() >= 4 && body[0] == '[' && (body[1] == ' ' || body[1] == 'x' || body[1] == 'X')
            && body[2] == ']' && body[3] == ' ' {
            let after = slice_chars(&body, 4, body.len());
            assert(after@ =~= body@.skip(4));
            if trim_whitespace(&after).len() == 0 {
                return String::new();
            }
            out.push('[');
            out.push(' ');
            out.push(']');
            out.push(' ');
            return string_of(&out);
        }
        assert(body@ =~= t@.skip(2));
        if trim_whitespace(&body).len() == 0 {
            return String::new();
        }
        return string_of(&out);
    }
    let n = lead_len(&t, CharSet::AsciiDigit);
    proof {
        crate::text::lemma_lead_bound(t@, CharSet::AsciiDigit);
    }
    if n > 0 && t.len() >= 2 && n < t.len() - 1 && (t[n] == '.' || t[n] == ')') && t[n + 1] == ' ' {
        let rest = slice_chars(&t, n + 2, t.len());
        assert(rest@ =~= t@.skip(n + 2));
        if trim_whitespace(&rest).len() == 0 {
            return String::new();
        }
        let number = match parse_digits(&t, n) {
            Some(v) => v,
            None => 1,
        };
        assert(!bullet_at(t@));
        assert(numbered_at(t@, n as int));
        assert(number as nat == item_number(t@.take(n as int)));
        assert(item_number(t@.take(n as int)) < usize::MAX);
        let mut out = indent.clone();
        let digits = decimal_chars(number + 1);
        push_all(&mut out, &digits);
        out.push(t[n]);
        out.push(' ');
        return string_of(&out);
    }
    String::new()
}

proof fn lemma_decimal_digits(n: nat)
    ensures
        decimal(n).len() >= 1,
        forall|i: int| 0 <= i < decimal(n).len() ==> is_digit(#[trigger] decimal(n)[i]),
    decreases n,
{
    if n >= 10 {
        lemma_decimal_digits(n / 10);
        let d = decimal(n / 10);
        assert forall|i: int| 0 <= i < decimal(n).len() implies is_digit(#[trigger] decimal(n)[i]) by {
            if i < d.len() {
                assert(decimal(n)[i] == d[i]);
            }
        }
    }
}

/// A line that starts with a continuation prefix, broken right after it,
/// continues to nothing: the prefix is an item with no text.
pub proof fn lemma_continuation_again(line: Seq<char>, col: int, rest: Seq<char>)
    ensures
        continuation(continuation(line, col) + rest, continuation(line, col).len() as int)
            == Seq::<char>::empty(),
        number_fits(continuation(line, col) + rest, continuation(line, col).len() as int),
{
    let cont = continuation(line, col);
    let s = cont + rest;
    let left2 = s.take(cont.len() as int);
    assert(left2 =~= cont);
    let left = line.take(if col < line.len() { col } else { line.len() as int });
    let k = lead(left, indent_chars()) as int;
    crate::text::lemma_lead_bound(left, indent_chars());
    let indent = left.take(k);
    let t = left.skip(k);
    let n = lead(t, CharSet::AsciiDigit) as int;
    if cont.len() > 0 {
        // The prefix is `indent` and then a marker, which starts with no
        // indentation character.
        let m = cont.skip(k);
        assert(cont =~= indent + m);
        assert(m.len() > 0);
        assert(!crate::text::set_has(indent_chars(), m[0])) by {
            if bullet_at(t) {
                assert(m[0] == t[0]);
            } else {
                lemma_decimal_digits(item_number(t.take(n)) + 1);
                assert(m[0] == decimal(item_number(t.take(n)) + 1)[0]);
            }
        }
        assert forall|j: int| 0 <= j < k implies crate::text::set_has(indent_chars(), #[trigger] cont[j]) by {
            assert(cont[j] == left[j]);
        }
        crate::text::lemma_lead_exact(cont, indent_chars(), k);
        assert(cont.skip(k) =~= m);
        if bullet_at(t) {
            let body = t.skip(2);
            assert(bullet_at(m));
            if checkbox_at(body) {
                assert(m =~= t.take(2) + seq!['[', ' ', ']', ' ']);
                assert(m.skip(2) =~= seq!['[', ' ', ']', ' ']);
                assert(checkbox_at(m.skip(2)));
                assert(m.skip(2).skip(4) =~= Seq::<char>::empty());
                crate::text::lemma_lead_exact(Seq::<char>::empty(), CharSet::Whitespace, 0);
            } else {
                assert(m =~= t.take(2));
                assert(m.skip(2) =~= Seq::<char>::empty());
                assert(!checkbox_at(m.skip(2)));
                crate::text::lemma_lead_exact(Seq::<char>::empty(), CharSet::Whitespace, 0);
            }
        } else {
            let x = item_number(t.take(n)) + 1;
            let dd = decimal(x);
            lemma_decimal_digits(x);
            assert(m =~= dd + seq![t[n], ' ']);
            assert(!bullet_at(m)) by {
                assert(is_digit(dd[0]));
                assert(m[0] == dd[0]);
            }
            assert forall|j: int| 0 <= j < dd.len() implies crate::text::set_has(
                CharSet::AsciiDigit,
                #[trigger] m[j],
            ) by {
                assert(m[j] == dd[j]);
                assert(is_digit(dd[j]));
            }
            assert(m[dd.len() as int] == t[n]);
            crate::text::lemma_lead_exact(m, CharSet::AsciiDigit, dd.len() as int);
            assert(m.skip(dd.len() as int + 2) =~= Seq::<char>::empty());
            crate::text::lemma_lead_exact(Seq::<char>::empty(), CharSet::Whitespace, 0);
        }
    } else {
        assert(left2 =~= Seq::<char>::empty());
        crate::text::lemma_lead_exact(Seq::<char>::empty(), indent_chars(), 0);
        crate::text::lemma_lead_exact(Seq::<char>::empty(), CharSet::AsciiDigit, 0);
    }
}

} // verus!
