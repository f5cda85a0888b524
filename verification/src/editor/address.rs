use vstd::prelude::*;
use crate::editor::error::EditorError;
use crate::text::{chars_of, is_ascii_digit, is_digit, lead, lead_len, lemma_lead_bound, string_of, CharSet};

verus! {

broadcast use vstd::string::group_string_axioms;

/// One line address: `.`, `$`, or a line number.
#[derive(Debug, Clone, Copy, PartialEq, Eq)]
pub enum Addr {
    Current,
    Last,
    Absolute(usize),
}

/// `start,end`; a single address is a range from it to itself.
#[derive(Debug, Clone, Copy, PartialEq, Eq)]
pub struct AddressRange {
    pub start: Addr,
    pub end: Addr,
}

impl AddressRange {
    pub fn single(addr: Addr) -> (r: Self)
        ensures
            r == (AddressRange { start: addr, end: addr }),
    {
        Self { start: addr, end: addr }
    }
}

/// The number a run of decimal digits denotes.
pub open spec fn digits_value(d: Seq<char>) -> nat
    decreases d.len(),
{
    if d.len() == 0 {
        0
    } else {
        digits_value(d.drop_last()) * 10 + ((d.last() as u32) - ('0' as u32)) as nat
    }
}

/// The address at the start of `s` and how many characters it takes:
/// `Err(())` when a line number does not fit in `usize`.
pub open spec fn addr_at(s: Seq<char>) -> Result<(Option<Addr>, nat), ()> {
    if s.len() == 0 {
        Ok((None, 0))
    } else if s[0] == '.' {
        Ok((Some(Addr::Current), 1))
    } else if s[0] == '$' {
        Ok((Some(Addr::Last), 1))
    } else if is_digit(s[0]) {
        let n = lead(s, CharSet::AsciiDigit);
        if digits_value(s.take(n as int)) <= usize::MAX {
            Ok((Some(Addr::Absolute(digits_value(s.take(n as int)) as usize)), n))
        } else {
            Err(())
        }
    } else {
        Ok((None, 0))
    }
}

/// The address range at the start of `s` (`%`, `a`, or `a,b`) and how many
/// characters it takes. An error carries the text it reports: all of `s`
/// for a first number too large or a `,` with no second address, the text
/// after the `,` for a second number too large.
pub open spec fn range_at(s: Seq<char>) -> Result<Option<(AddressRange, nat)>, Seq<char>> {
    if s.len() == 0 {
        Ok(None)
    } else if s[0] == '%' {
        Ok(Some((AddressRange { start: Addr::Absolute(1), end: Addr::Last }, 1)))
    } else {
        match addr_at(s) {
            Err(_) => Err(s),
            Ok((None, _)) => Ok(None),
            Ok((Some(first), n)) => {
                let rest = s.skip(n as int);
                if rest.len() > 0 && rest[0] == ',' {
                    match addr_at(rest.skip(1)) {
                        Err(_) => Err(rest.skip(1)),
                        Ok((None, _)) => Err(s),
                        Ok((Some(second), m)) => Ok(
                            Some((AddressRange { start: first, end: second }, n + 1 + m)),
                        ),
                    }
                } else {
                    Ok(Some((AddressRange { start: first, end: first }, n)))
                }
            },
        }
    }
}

pub(crate) fn parse_digits(s: &Vec<char>, n: usize) -> (r: Option<usize>)
    requires
        n <= s.len(),
        forall|j: int| 0 <= j < n ==> is_digit(#[trigger] s@[j]),
    ensures
        match r {
            Some(v) => v as nat == digits_value(s@.take(n as int)),
            None => digits_value(s@.take(n as int)) > usize::MAX,
        },
{
    let mut v: usize = 0;
    let mut i: usize = 0;
    while i < n
        invariant
            i <= n <= s.len(),
            forall|j: int| 0 <= j < n ==> is_digit(#[trigger] s@[j]),
            v as nat == digits_value(s@.take(i as int)),
        decreases n - i,
    {
        proof {
            assert(s@.take(i as int + 1).drop_last() =~= s@.take(i as int));
            assert(s@.take(i as int + 1).last() == s@[i as int]);
            assert(is_digit(s@[i as int]));
        }
        let d = (s[i] as u32 - '0' as u32) as usize;
        match v.checked_mul(10) {
            Some(t) => match t.checked_add(d) {
                Some(u) => {
                    v = u;
                },
                None => {
                    proof {
                        lemma_digits_grow(s@, i as int + 1, n as int);
                    }
                    return None;
                },
            },
            None => {
                proof {
                    lemma_digits_grow(s@, i as int + 1, n as int);
                }
                return None;
            },
        }
        i = i + 1;
    }
    Some(v)
}

/// More digits never make a smaller number.
pub proof fn lemma_digits_grow(s: Seq<char>, i: int, n: int)
    requires
        0 <= i <= n <= s.len(),
        forall|j: int| 0 <= j < n ==> is_digit(#[trigger] s[j]),
    ensures
        digits_value(s.take(i)) <= digits_value(s.take(n)),
    decreases n - i,
{
    if i < n {
        lemma_digits_grow(s, i, n - 1);
        assert(s.take(n).drop_last() =~= s.take(n - 1));
        assert(is_digit(s[n - 1]));
    }
}

pub open spec fn addr_result_view(r: Result<(Option<Addr>, usize), EditorError>) -> Result<
    (Option<Addr>, nat),
    (),
> {
    match r {
        Ok((a, n)) => Ok((a, n as nat)),
        Err(_) => Err(()),
    }
}

fn parse_addr(s: &Vec<char>, from: usize) -> (r: Result<(Option<Addr>, usize), EditorError>)
    requires
        from <= s.len(),
    ensures
        addr_result_view(r) == addr_at(s@.skip(from as int)),
        r matches Err(e) ==> e matches EditorError::InvalidAddress(m) && m@ == s@.skip(from as int),
        r matches Ok((_, n)) ==> from + n <= s.len(),
{
    let ghost t = s@.skip(from as int);
    if from == s.len() {
        return Ok((None, 0));
    }
    assert(t[0] == s@[from as int]);
    let ch = s[from];
    if ch == '.' {
        return Ok((Some(Addr::Current), 1));
    }
    if ch == '$' {
        return Ok((Some(Addr::Last), 1));
    }
    if is_ascii_digit(ch) {
        let rest = crate::text::slice_chars(s, from, s.len());
        assert(rest@ =~= t);
        let n = lead_len(&rest, CharSet::AsciiDigit);
        proof {
            lemma_lead_bound(t, CharSet::AsciiDigit);
        }
        match parse_digits(&rest, n) {
            Some(v) => {
                return Ok((Some(Addr::Absolute(v)), n));
            },
            None => {
                return Err(EditorError::InvalidAddress(string_of(&rest)));
            },
        }
    }
    Ok((None, 0))
}

pub open spec fn range_result_view(r: Result<Option<(AddressRange, usize)>, EditorError>) -> Result<
    Option<(AddressRange, nat)>,
    Seq<char>,
> {
    match r {
        Ok(Some((a, n))) => Ok(Some((a, n as nat))),
        Ok(None) => Ok(None),
        Err(EditorError::InvalidAddress(m)) => Err(m@),
        Err(_) => Err(Seq::<char>::empty()),
    }
}

pub fn parse_range_chars(s: &Vec<char>) -> (r: Result<
    Option<(AddressRange, usize)>,
    EditorError,
>)
    ensures
        range_result_view(r) == range_at(s@),
        r matches Err(e) ==> e is InvalidAddress,
        r matches Ok(Some((_, n))) ==> n <= s.len(),
{
    if s.len() == 0 {
        return Ok(None);
    }
    if s[0] == '%' {
        return Ok(Some((AddressRange { start: Addr::Absolute(1), end: Addr::Last }, 1)));
    }
    assert(s@.skip(0) =~= s@);
    let (first, first_len) = parse_addr(s, 0)?;
    let first = match first {
        Some(a) => a,
        None => {
            return Ok(None);
        },
    };
    let ghost rest = s@.skip(first_len as int);
    if first_len < s.len() && s[first_len] == ',' {
        assert(rest[0] == s@[first_len as int]);
        assert(rest.skip(1) =~= s@.skip(first_len + 1));
        let (second, second_len) = parse_addr(s, first_len + 1)?;
        match second {
            Some(b) => Ok(Some((AddressRange { start: first, end: b }, first_len + 1 + second_len))),
            None => Err(EditorError::InvalidAddress(string_of(s))),
        }
    } else {
        proof {
            if rest.len() > 0 {
                assert(rest[0] == s@[first_len as int]);
            }
        }
        Ok(Some((AddressRange::single(first), first_len)))
    }
}

/// Parses the address range at the start of `input` and returns it with the
/// number of characters it takes.
pub fn parse_address_range(input: &str) -> (r: Result<Option<(AddressRange, usize)>, EditorError>)
    ensures
        range_result_view(r) == range_at(input@),
        r matches Err(e) ==> e is InvalidAddress,
{
    parse_range_chars(&chars_of(input))
}

} // verus!
