//! Character classes of the browser's editor, and lines of a note.
use vstd::prelude::*;
use crate::text::{chars_of, is_whitespace, is_ws, string_of};
use crate::index::strs;
use crate::editor::machine::{split_content, split_lines as content_lines};

verus! {

broadcast use vstd::string::group_string_axioms;

/// What `char::is_alphanumeric` says of a character (the Unicode
/// `Alphabetic` and `Numeric` properties).
pub uninterp spec fn alphanumeric(c: char) -> bool;

/// `char::is_alphanumeric`; its result is named `alphanumeric`.
#[verifier::external_body]
fn is_alphanumeric(c: char) -> (b: bool)
    ensures
        b == alphanumeric(c),
{
    c.is_alphanumeric()
}

/// The classes by which word motions tell words apart.
#[derive(Debug, Clone, Copy, PartialEq, Eq, Structural)]
pub enum CharClass {
    Word,
    Symbol,
    Whitespace,
}

pub open spec fn word_char(c: char) -> bool {
    alphanumeric(c) || c == '_'
}

pub open spec fn class_of(c: char) -> CharClass {
    if is_ws(c) {
        CharClass::Whitespace
    } else if word_char(c) {
        CharClass::Word
    } else {
        CharClass::Symbol
    }
}

pub fn char_class(ch: char) -> (r: CharClass)
    ensures
        r == class_of(ch),
{
    if is_whitespace(ch) {
        CharClass::Whitespace
    } else if is_alphanumeric(ch) || ch == '_' {
        CharClass::Word
    } else {
        CharClass::Symbol
    }
}

pub fn is_word_char(ch: char) -> (b: bool)
    ensures
        b == word_char(ch),
{
    is_alphanumeric(ch) || ch == '_'
}

/// Index of the first character that is not whitespace, or 0 when there is
/// none.
pub open spec fn first_non_space(line: Seq<char>) -> int {
    if exists|i: int| 0 <= i < line.len() && !is_ws(line[i]) {
        choose|i: int| 0 <= i < line.len() && !is_ws(line[i]) && forall|j: int| 0 <= j < i ==> is_ws(line[j])
    } else {
        0
    }
}

pub fn first_non_space_char_idx(line: &str) -> (r: usize)
    ensures
        r == first_non_space(line@),
{
    let cs = chars_of(line);
    let mut i: usize = 0;
    while i < cs.len()
        invariant
            i <= cs.len(),
            cs@ == line@,
            forall|j: int| 0 <= j < i ==> is_ws(#[trigger] cs@[j]),
        decreases cs.len() - i,
    {
        if !is_whitespace(cs[i]) {
            proof {
                let w = choose|k: int| 0 <= k < line@.len() && !is_ws(line@[k]) && forall|j: int| 0 <= j < k ==> is_ws(line@[j]);
                assert(0 <= i < line@.len() && !is_ws(line@[i as int]) && forall|j: int| 0 <= j < i ==> is_ws(line@[j]));
                if w < i {
                    assert(is_ws(cs@[w]));
                } else if w > i {
                    assert(is_ws(line@[i as int]));
                }
            }
            return i;
        }
        i = i + 1;
    }
    0
}

/// A note's text as the browser's buffer lines: split at newlines, with no
/// line after a final newline.
pub fn split_lines(content: &str) -> (r: Vec<String>)
    ensures
        strs(r@) == content_lines(content@),
{
    split_content(&chars_of(content))
}

// ---------------------------------------------------------------------------
// Byte offsets in UTF-8 text
// ---------------------------------------------------------------------------

/// The number of bytes UTF-8 takes for a character.
pub open spec fn utf8_len(c: char) -> nat {
    if (c as u32) < 0x80 {
        1
    } else if (c as u32) < 0x800 {
        2
    } else if (c as u32) < 0x10000 {
        3
    } else {
        4
    }
}

/// The number of bytes UTF-8 takes for a text.
pub open spec fn byte_len(s: Seq<char>) -> nat
    decreases s.len(),
{
    if s.len() == 0 {
        0
    } else {
        byte_len(s.drop_last()) + utf8_len(s.last())
    }
}

fn char_width(c: char) -> (r: usize)
    ensures
        r == utf8_len(c),
{
    let v = c as u32;
    if v < 0x80 {
        1
    } else if v < 0x800 {
        2
    } else if v < 0x10000 {
        3
    } else {
        4
    }
}

proof fn lemma_byte_len_mono(s: Seq<char>, j: int, k: int)
    requires
        0 <= j <= k <= s.len(),
    ensures
        byte_len(s.take(j)) + (k - j) <= byte_len(s.take(k)),
    decreases k - j,
{
    if j < k {
        lemma_byte_len_mono(s, j, k - 1);
        assert(s.take(k).drop_last() =~= s.take(k - 1));
    }
}

/// The byte offset of character `k`, or the text's length in bytes when it
/// has no character `k`.
pub open spec fn byte_index(s: Seq<char>, k: int) -> nat {
    if 0 <= k < s.len() {
        byte_len(s.take(k))
    } else {
        byte_len(s)
    }
}

pub fn char_to_byte_idx(s: &str, char_idx: usize) -> (r: usize)
    requires
        byte_len(s@) <= usize::MAX,
    ensures
        r == byte_index(s@, char_idx as int),
{
    let cs = chars_of(s);
    let mut b: usize = 0;
    let mut k: usize = 0;
    while k < cs.len()
        invariant
            k <= cs.len(),
            cs@ == s@,
            byte_len(s@) <= usize::MAX,
            b == byte_len(s@.take(k as int)),
            k <= char_idx || char_idx >= cs.len(),
        decreases cs.len() - k,
    {
        if k == char_idx {
            return b;
        }
        proof {
            assert(s@.take(k as int + 1).drop_last() =~= s@.take(k as int));
            lemma_byte_len_mono(s@, k as int + 1, s@.len() as int);
            assert(s@.take(s@.len() as int) =~= s@);
        }
        b = b + char_width(cs[k]);
        k = k + 1;
    }
    assert(s@.take(s@.len() as int) =~= s@);
    b
}

/// The first character boundary after byte `i`: the byte offset of the first
/// character from `k` on that starts after `i`, or the text's length.
pub open spec fn start_after(s: Seq<char>, i: int, k: int) -> nat
    decreases s.len() - k,
{
    if k < 0 || k >= s.len() {
        byte_len(s)
    } else if byte_len(s.take(k)) > i {
        byte_len(s.take(k))
    } else {
        start_after(s, i, k + 1)
    }
}

pub open spec fn next_boundary(s: Seq<char>, i: int) -> nat {
    if i >= byte_len(s) {
        byte_len(s)
    } else {
        start_after(s, i, 0)
    }
}

pub fn next_char_boundary(text: &str, i: usize) -> (r: usize)
    requires
        byte_len(text@) <= usize::MAX,
    ensures
        r == next_boundary(text@, i as int),
{
    let cs = chars_of(text);
    let mut b: usize = 0;
    let mut k: usize = 0;
    while k < cs.len()
        invariant
            k <= cs.len(),
            cs@ == text@,
            byte_len(text@) <= usize::MAX,
            b == byte_len(text@.take(k as int)),
            start_after(text@, i as int, k as int) == start_after(text@, i as int, 0),
        decreases cs.len() - k,
    {
        if b > i {
            proof {
                lemma_byte_len_mono(text@, k as int, text@.len() as int);
                assert(text@.take(text@.len() as int) =~= text@);
            }
            return b;
        }
        proof {
            assert(text@.take(k as int + 1).drop_last() =~= text@.take(k as int));
            lemma_byte_len_mono(text@, k as int + 1, text@.len() as int);
            assert(text@.take(text@.len() as int) =~= text@);
        }
        b = b + char_width(cs[k]);
        k = k + 1;
    }
    assert(text@.take(text@.len() as int) =~= text@);
    b
}

/// The text from byte `marker_end` on starts with a space or a tab.
pub open spec fn separator_at(s: Seq<char>, marker_end: int) -> bool {
    exists|k: int| 0 <= k < s.len() && byte_len(s.take(k)) == marker_end && (s[k] == ' ' || s[k]
        == '\t')
}

/// Byte `marker_end` is past the end or starts a character.
pub open spec fn at_boundary(s: Seq<char>, marker_end: int) -> bool {
    marker_end >= byte_len(s) || exists|k: int| 0 <= k <= s.len() && byte_len(s.take(k)) == marker_end
}

pub fn has_list_separator(s: &str, marker_end: usize) -> (b: bool)
    requires
        byte_len(s@) <= usize::MAX,
        at_boundary(s@, marker_end as int),
    ensures
        b == (marker_end < byte_len(s@) && separator_at(s@, marker_end as int)),
{
    let cs = chars_of(s);
    let mut b: usize = 0;
    let mut k: usize = 0;
    while k < cs.len()
        invariant
            k <= cs.len(),
            cs@ == s@,
            byte_len(s@) <= usize::MAX,
            b == byte_len(s@.take(k as int)),
            forall|j: int| 0 <= j < k ==> byte_len(s@.take(j)) != marker_end,
        decreases cs.len() - k,
    {
        if b == marker_end {
            proof {
                lemma_byte_len_mono(s@, k as int, s@.len() as int);
                assert(s@.take(s@.len() as int) =~= s@);
                if cs@[k as int] == ' ' || cs@[k as int] == '\t' {
                    assert(separator_at(s@, marker_end as int));
                } else {
                    assert forall|j: int| 0 <= j < s@.len() && byte_len(s@.take(j)) == marker_end implies !(s@[j] == ' ' || s@[j] == '\t') by {
                        if j < k {
                        } else if j > k {
                            lemma_byte_len_mono(s@, k as int + 1, j);
                            assert(s@.take(k as int + 1).drop_last() =~= s@.take(k as int));
                        }
                    }
                }
            }
            return cs[k] == ' ' || cs[k] == '\t';
        }
        proof {
            assert(s@.take(k as int + 1).drop_last() =~= s@.take(k as int));
            lemma_byte_len_mono(s@, k as int + 1, s@.len() as int);
            assert(s@.take(s@.len() as int) =~= s@);
        }
        b = b + char_width(cs[k]);
        k = k + 1;
    }
    proof {
        assert(s@.take(s@.len() as int) =~= s@);
        if marker_end < byte_len(s@) {
            let k0 = choose|k0: int| 0 <= k0 <= s@.len() && byte_len(s@.take(k0)) == marker_end;
            assert(k0 < s@.len());
        }
    }
    false
}

/// `>` markers at the start of a line, each with one optional space after
/// it: how many, and where the text after them starts.
pub open spec fn quote_prefix(s: Seq<char>, i: int, depth: nat) -> (nat, int)
    decreases s.len() - i,
{
    if 0 <= i < s.len() && s[i] == '>' {
        let j = i + 1;
        let j2 = if j < s.len() && s[j] == ' ' {
            j + 1
        } else {
            j
        };
        quote_prefix(s, j2, depth + 1)
    } else {
        (depth, i)
    }
}

pub open spec fn blockquote_prefix(s: Seq<char>) -> Option<(nat, int)> {
    let (d, i) = quote_prefix(s, 0, 0);
    if d == 0 {
        None
    } else {
        Some((d, i))
    }
}

pub fn parse_blockquote_prefix(text: &str) -> (r: Option<(usize, usize)>)
    ensures
        match r {
            Some((d, i)) => blockquote_prefix(text@) == Some((d as nat, i as int)),
            None => blockquote_prefix(text@) is None,
        },
{
    let cs = chars_of(text);
    let mut depth: usize = 0;
    let mut i: usize = 0;
    while i < cs.len() && cs[i] == '>'
        invariant
            i <= cs.len(),
            cs@ == text@,
            depth <= i,
            quote_prefix(text@, i as int, depth as nat) == quote_prefix(text@, 0, 0),
        decreases cs.len() - i,
    {
        depth = depth + 1;
        i = i + 1;
        if i < cs.len() && cs[i] == ' ' {
            i = i + 1;
        }
    }
    if depth == 0 {
        None
    } else {
        Some((depth, i))
    }
}

/// `text.chars().skip(start).take(end - start)`, the count saturating at 0.
pub open spec fn char_slice(s: Seq<char>, start: int, end: int) -> Seq<char> {
    let from = if start < s.len() { start } else { s.len() as int };
    let n = if end > start { end - start } else { 0 };
    let to = if from + n < s.len() { from + n } else { s.len() as int };
    s.subrange(from, to)
}

pub fn slice_chars(text: &str, start: usize, end: usize) -> (r: String)
    ensures
        r@ == char_slice(text@, start as int, end as int),
{
    let cs = chars_of(text);
    let from = if start < cs.len() {
        start
    } else {
        cs.len()
    };
    let n = if end > start {
        end - start
    } else {
        0
    };
    let to = if n < cs.len() - from {
        from + n
    } else {
        cs.len()
    };
    string_of(&crate::text::slice_chars(&cs, from, to))
}

/// How many characters start before byte `j`.
pub open spec fn starts_before(s: Seq<char>, j: int, k: int) -> nat
    decreases k,
{
    if k <= 0 {
        0
    } else if byte_len(s.take(k - 1)) < j {
        starts_before(s, j, k - 1) + 1
    } else {
        starts_before(s, j, k - 1)
    }
}

proof fn lemma_starts_all(s: Seq<char>, j: int, m: int)
    requires
        0 <= m <= s.len(),
        m > 0 ==> byte_len(s.take(m - 1)) < j,
    ensures
        starts_before(s, j, m) == m,
    decreases m,
{
    assert(starts_before(s, j, 0) == 0);
    if m > 1 {
        lemma_byte_len_mono(s, m - 2, m - 1);
        lemma_starts_all(s, j, m - 1);
    }
}

proof fn lemma_starts_none(s: Seq<char>, j: int, k: int, m: int)
    requires
        0 <= k <= m <= s.len(),
        k < s.len() ==> byte_len(s.take(k)) >= j,
        k == s.len() ==> m == k,
    ensures
        starts_before(s, j, m) == starts_before(s, j, k),
    decreases m - k,
{
    if m > k {
        lemma_starts_none(s, j, k, m - 1);
        lemma_byte_len_mono(s, k, m - 1);
    }
}

/// How many characters of `s` its first `b` bytes hold, when `b` ends a
/// character.
pub open spec fn indent_chars(s: Seq<char>, b: int) -> int {
    choose|k: int| 0 <= k <= s.len() && byte_len(s.take(k)) == b
}

/// `b` bytes of `s` end a character.
pub open spec fn on_boundary(s: Seq<char>, b: int) -> bool {
    exists|k: int| 0 <= k <= s.len() && byte_len(s.take(k)) == b
}

pub proof fn lemma_byte_len_take_strict(s: Seq<char>, j: int, k: int)
    requires
        0 <= j < k <= s.len(),
    ensures
        byte_len(s.take(j)) < byte_len(s.take(k)),
    decreases k - j,
{
    assert(s.take(k).drop_last() =~= s.take(k - 1));
    if j < k - 1 {
        lemma_byte_len_take_strict(s, j, k - 1);
    }
}

/// The index of the character that starts at byte `b` (the number of
/// characters when `b` is the text's length).
pub fn char_index_of_byte(s: &str, b: usize) -> (k: usize)
    requires
        on_boundary(s@, b as int),
        byte_len(s@) <= usize::MAX,
    ensures
        k == indent_chars(s@, b as int),
{
    let cs = chars_of(s);
    let ghost k0 = indent_chars(s@, b as int);
    let mut k: usize = 0;
    while k < cs.len() && char_to_byte_idx(s, k) < b
        invariant
            k <= cs@.len(),
            cs@ == s@,
            byte_len(s@) <= usize::MAX,
            on_boundary(s@, b as int),
            0 <= k0 <= s@.len(),
            byte_len(s@.take(k0)) == b,
            k <= k0,
        decreases cs.len() - k,
    {
        proof {
            if k + 1 > k0 {
                assert(k == k0);
                assert(byte_index(s@, k as int) == byte_len(s@.take(k as int))) by {
                    if k as int == s@.len() {
                        assert(s@.take(k as int) =~= s@);
                    }
                }
            }
        }
        k = k + 1;
    }
    proof {
        if k < k0 {
            assert(byte_index(s@, k as int) == byte_len(s@.take(k as int)));
            lemma_byte_len_take_strict(s@, k as int, k0);
            assert(k < cs@.len());
        }
    }
    k
}

/// The bytes before character `k` end a character, and the character that
/// starts there is `k`.
pub proof fn lemma_boundary_of_char(s: Seq<char>, k: int)
    requires
        0 <= k <= s.len(),
    ensures
        on_boundary(s, byte_len(s.take(k)) as int),
        indent_chars(s, byte_len(s.take(k)) as int) == k,
{
    let b = byte_len(s.take(k)) as int;
    assert(byte_len(s.take(k)) == b);
    let j = indent_chars(s, b);
    if j < k {
        lemma_byte_len_take_strict(s, j, k);
    } else if k < j {
        lemma_byte_len_take_strict(s, k, j);
    }
}

/// For each byte offset of a text (and its length), how many characters
/// start before it: the character index of each boundary, and one past the
/// index of a character for the offsets inside it.
pub fn build_byte_to_char_map(text: &str) -> (map: Vec<usize>)
    requires
        byte_len(text@) < usize::MAX,
    ensures
        map@.len() == byte_len(text@) + 1,
        forall|j: int| 0 <= j < map@.len() ==> map@[j] == starts_before(text@, j, text@.len() as int),
{
    let ghost s = text@;
    let cs = chars_of(text);
    let total = char_to_byte_idx(text, cs.len());
    let mut map: Vec<usize> = Vec::new();
    while map.len() <= total
        invariant
            map@.len() <= total + 1,
            total < usize::MAX,
            forall|j: int| 0 <= j < map@.len() ==> map@[j] == 0,
        decreases total + 1 - map.len(),
    {
        map.push(0);
    }
    assert(starts_before(s, 0, s.len() as int) == 0) by {
        if s.len() > 0 {
            lemma_starts_none(s, 0, 0, s.len() as int);
            assert(s.take(0) =~= Seq::<char>::empty());
        }
    }
    let mut b: usize = 0;
    let mut k: usize = 0;
    while k < cs.len()
        invariant
            k <= cs.len(),
            cs@ == s,
            s == text@,
            total == byte_len(s),
            total < usize::MAX,
            map@.len() == total + 1,
            b == byte_len(s.take(k as int)),
            forall|j: int| 0 <= j <= b ==> map@[j] == starts_before(s, j, s.len() as int),
        decreases cs.len() - k,
    {
        proof {
            assert(s.take(k as int + 1).drop_last() =~= s.take(k as int));
            lemma_byte_len_mono(s, k as int + 1, s.len() as int);
            assert(s.take(s.len() as int) =~= s);
            lemma_starts_none(s, b as int, k as int, s.len() as int);
            if k > 0 {
                lemma_byte_len_mono(s, k - 1, k as int);
            }
            lemma_starts_all(s, b as int, k as int);
        }
        map.set(b, k);
        let w = char_width(cs[k]);
        let mut t = b + 1;
        while t <= b + w
            invariant
                b + 1 <= t <= b + w + 1,
                b + w == byte_len(s.take(k as int + 1)),
                k < cs.len(),
                cs@ == s,
                total < usize::MAX,
                b == byte_len(s.take(k as int)),
                map@.len() == total + 1,
                total == byte_len(s),
                b + w <= total,
                forall|j: int| 0 <= j <= b ==> map@[j] == starts_before(s, j, s.len() as int),
                forall|j: int| b < j < t ==> map@[j] == starts_before(s, j, s.len() as int),
            decreases b + w + 1 - t,
        {
            proof {
                if k + 1 < s.len() {
                    lemma_starts_none(s, t as int, k as int + 1, s.len() as int);
                } else {
                    assert(s.len() == k + 1);
                }
                lemma_starts_all(s, t as int, k as int + 1);
            }
            map.set(t, k + 1);
            t = t + 1;
        }
        b = b + w;
        k = k + 1;
    }
    proof {
        assert(s.take(s.len() as int) =~= s);
    }
    map
}

} // verus!
