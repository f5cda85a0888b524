//! How a line of the note is coloured: the style each character gets from
//! emphasis markers, `[[links]]`, list markers and task boxes, and the runs
//! of characters that share a style.
//!
//! A style is a foreground and background colour, each maybe unset, and the
//! text modifiers it adds and removes; patching one style with another works
//! as the terminal library's styles do.
use vstd::prelude::*;
use crate::text::{chars_of, is_digit, match_from, find_exec, lemma_match_from_bound, starts_with, string_of};
use crate::tui::chars::{blockquote_prefix, parse_blockquote_prefix};

verus! {

broadcast use vstd::string::group_string_axioms;

/// A colour.
#[derive(Clone, Copy, Debug, PartialEq, Eq, Structural)]
pub enum Hue {
    Black,
    DarkGray,
    Gray,
    White,
    Green,
    Yellow,
    Cyan,
    Magenta,
    Blue,
    LightBlue,
}

/// A set of text modifiers.
#[derive(Clone, Copy, Debug, PartialEq, Eq, Structural)]
pub struct Mods {
    pub bold: bool,
    pub dim: bool,
    pub italic: bool,
    pub underlined: bool,
    pub crossed_out: bool,
}

/// A style: colours, and the modifiers it adds and the ones it removes.
#[derive(Clone, Copy, Debug, PartialEq, Eq, Structural)]
pub struct Look {
    pub fg: Option<Hue>,
    pub bg: Option<Hue>,
    pub add: Mods,
    pub sub: Mods,
}

pub open spec fn no_mods() -> Mods {
    Mods { bold: false, dim: false, italic: false, underlined: false, crossed_out: false }
}

pub open spec fn mods_union(a: Mods, b: Mods) -> Mods {
    Mods {
        bold: a.bold || b.bold,
        dim: a.dim || b.dim,
        italic: a.italic || b.italic,
        underlined: a.underlined || b.underlined,
        crossed_out: a.crossed_out || b.crossed_out,
    }
}

pub open spec fn mods_minus(a: Mods, b: Mods) -> Mods {
    Mods {
        bold: a.bold && !b.bold,
        dim: a.dim && !b.dim,
        italic: a.italic && !b.italic,
        underlined: a.underlined && !b.underlined,
        crossed_out: a.crossed_out && !b.crossed_out,
    }
}

/// The style that sets nothing.
pub open spec fn plain() -> Look {
    Look { fg: None, bg: None, add: no_mods(), sub: no_mods() }
}

pub open spec fn with_fg(l: Look, c: Hue) -> Look {
    Look { fg: Some(c), ..l }
}

pub open spec fn with_bg(l: Look, c: Hue) -> Look {
    Look { bg: Some(c), ..l }
}

/// `l` adding modifiers `m` (and no longer removing them).
pub open spec fn with_mods(l: Look, m: Mods) -> Look {
    Look { add: mods_union(l.add, m), sub: mods_minus(l.sub, m), ..l }
}

/// `l` patched with `o`: `o`'s colours where it sets them, and `o`'s
/// modifiers added and removed on top of `l`'s.
pub open spec fn patched(l: Look, o: Look) -> Look {
    Look {
        fg: if o.fg is Some {
            o.fg
        } else {
            l.fg
        },
        bg: if o.bg is Some {
            o.bg
        } else {
            l.bg
        },
        add: mods_union(mods_minus(l.add, o.sub), o.add),
        sub: mods_union(mods_minus(l.sub, o.add), o.sub),
    }
}

pub open spec fn bold() -> Mods {
    Mods { bold: true, ..no_mods() }
}

pub open spec fn dim() -> Mods {
    Mods { dim: true, ..no_mods() }
}

pub open spec fn underlined() -> Mods {
    Mods { underlined: true, ..no_mods() }
}

fn mods(bold: bool, dim: bool, underlined: bool) -> (r: Mods)
    ensures
        r == (Mods { bold, dim, italic: false, underlined, crossed_out: false }),
{
    Mods { bold, dim, italic: false, underlined, crossed_out: false }
}

impl Mods {
    fn union(self, o: Mods) -> (r: Mods)
        ensures
            r == mods_union(self, o),
    {
        Mods {
            bold: self.bold || o.bold,
            dim: self.dim || o.dim,
            italic: self.italic || o.italic,
            underlined: self.underlined || o.underlined,
            crossed_out: self.crossed_out || o.crossed_out,
        }
    }

    fn minus(self, o: Mods) -> (r: Mods)
        ensures
            r == mods_minus(self, o),
    {
        Mods {
            bold: self.bold && !o.bold,
            dim: self.dim && !o.dim,
            italic: self.italic && !o.italic,
            underlined: self.underlined && !o.underlined,
            crossed_out: self.crossed_out && !o.crossed_out,
        }
    }
}

impl Look {
    pub fn plain() -> (r: Look)
        ensures
            r == plain(),
    {
        Look { fg: None, bg: None, add: mods(false, false, false), sub: mods(false, false, false) }
    }

    pub fn fg(self, c: Hue) -> (r: Look)
        ensures
            r == with_fg(self, c),
    {
        Look { fg: Some(c), ..self }
    }

    pub fn bg(self, c: Hue) -> (r: Look)
        ensures
            r == with_bg(self, c),
    {
        Look { bg: Some(c), ..self }
    }

    pub fn add_modifier(self, m: Mods) -> (r: Look)
        ensures
            r == with_mods(self, m),
    {
        Look { add: self.add.union(m), sub: self.sub.minus(m), ..self }
    }

    pub fn patch(self, o: Look) -> (r: Look)
        ensures
            r == patched(self, o),
    {
        Look {
            fg: match o.fg {
                Some(c) => Some(c),
                None => self.fg,
            },
            bg: match o.bg {
                Some(c) => Some(c),
                None => self.bg,
            },
            add: self.add.minus(o.sub).union(o.add),
            sub: self.sub.minus(o.add).union(o.sub),
        }
    }
}

/// Patching with the style that sets nothing changes nothing, patching
/// twice with one style is patching once, and a style patched onto the
/// plain style is itself once it removes no modifier.
pub proof fn lemma_patch_laws(l: Look, o: Look)
    ensures
        patched(l, plain()) == l,
        patched(patched(l, o), o) == patched(l, o),
        o.sub == no_mods() ==> patched(plain(), o) == o,
{
}

/// The style of a blockquote `depth` levels deep.
pub open spec fn quote_look(base: Look, depth: nat) -> Look {
    if depth == 1 {
        with_fg(base, Hue::DarkGray)
    } else if depth == 2 {
        with_fg(base, Hue::Gray)
    } else {
        with_mods(with_fg(base, Hue::LightBlue), dim())
    }
}

pub fn blockquote_style_for_depth(base: Look, depth: usize) -> (r: Look)
    ensures
        r == quote_look(base, depth as nat),
{
    if depth == 1 {
        base.fg(Hue::DarkGray)
    } else if depth == 2 {
        base.fg(Hue::Gray)
    } else {
        base.fg(Hue::LightBlue).add_modifier(mods(false, true, false))
    }
}

/// The style of a heading of level `level` (1 to 6).
pub open spec fn heading_look(base: Look, level: u8) -> Look {
    if level <= 1 {
        with_fg(with_mods(base, bold()), Hue::Cyan)
    } else if level == 2 {
        with_mods(base, bold())
    } else if level == 3 {
        with_mods(base, underlined())
    } else {
        with_mods(base, dim())
    }
}

pub fn heading_style_for_level(base: Look, level: u8) -> (r: Look)
    ensures
        r == heading_look(base, level),
{
    if level <= 1 {
        base.add_modifier(mods(true, false, false)).fg(Hue::Cyan)
    } else if level == 2 {
        base.add_modifier(mods(true, false, false))
    } else if level == 3 {
        base.add_modifier(mods(false, false, true))
    } else {
        base.add_modifier(mods(false, true, false))
    }
}

/// The style a line starts from: a blockquote's by its depth, a code
/// fence's (white on dark grey), else `base`; found after the line's
/// leading whitespace.
pub open spec fn line_base(line: Seq<char>, base: Look) -> Look {
    let t = line.skip(crate::text::lead(line, crate::text::CharSet::Whitespace) as int);
    match blockquote_prefix(t) {
        Some((d, _)) => quote_look(base, d),
        None => if starts_with(t, "```"@) {
            with_fg(with_bg(base, Hue::DarkGray), Hue::White)
        } else {
            base
        },
    }
}

pub fn segment_base_style(segment: &str, base: Look) -> (r: Look)
    ensures
        r == line_base(segment@, base),
{
    let cs = chars_of(segment);
    let lead = crate::text::lead_len(&cs, crate::text::CharSet::Whitespace);
    proof {
        crate::text::lemma_lead_bound(segment@, crate::text::CharSet::Whitespace);
    }
    let t = string_of(&crate::text::slice_chars(&cs, lead, cs.len()));
    assert(t@ =~= segment@.skip(lead as int));
    match parse_blockquote_prefix(t.as_str()) {
        Some((d, _)) => blockquote_style_for_depth(base, d),
        None => {
            let fence = chars_of("```");
            if crate::text::starts_with_exec(&chars_of(t.as_str()), &fence) {
                base.bg(Hue::DarkGray).fg(Hue::White)
            } else {
                base
            }
        },
    }
}

// ---------------------------------------------------------------------------
// Styling ranges of characters
// ---------------------------------------------------------------------------

/// The styles `st` with those of characters `s` up to `e` (excluded)
/// patched with `o`.
pub open spec fn patch_range(st: Seq<Look>, s: int, e: int, o: Look) -> Seq<Look> {
    Seq::new(st.len(), |i: int| if s <= i < e { patched(st[i], o) } else { st[i] })
}

fn patch_chars(styles: &mut Vec<Look>, s: usize, e: usize, o: Look)
    ensures
        final(styles)@ == patch_range(old(styles)@, s as int, e as int, o),
{
    let ghost before = styles@;
    let end = if e < styles.len() {
        e
    } else {
        styles.len()
    };
    let mut i = s;
    if i >= end {
        assert(styles@ =~= patch_range(before, s as int, e as int, o));
        return;
    }
    while i < end
        invariant
            s <= i <= end <= styles@.len(),
            end as int == if e < before.len() { e as int } else { before.len() as int },
            styles@.len() == before.len(),
            forall|k: int| 0 <= k < styles@.len() ==> styles@[k] == if s <= k < i {
                patched(before[k], o)
            } else {
                before[k]
            },
        decreases end - i,
    {
        let cur = styles[i];
        styles.set(i, cur.patch(o));
        i = i + 1;
    }
    assert(styles@ =~= patch_range(before, s as int, e as int, o));
}

/// Patching the characters of the text from byte offset `start` to `end`
/// with `style`, through the map from byte offsets to character indices;
/// nothing for an empty range or one that starts past the map.
pub open spec fn byte_range_styled(st: Seq<Look>, map: Seq<usize>, start: int, end: int, style: Look) -> Seq<Look> {
    if start >= end || start >= map.len() {
        st
    } else {
        patch_range(st, map[start] as int, map[if end < map.len() - 1 { end } else { map.len() - 1 }] as int, style)
    }
}

pub fn apply_style_for_byte_range(styles: &mut Vec<Look>, byte_to_char: &Vec<usize>, start: usize, end: usize, style: Look)
    ensures
        final(styles)@ == byte_range_styled(old(styles)@, byte_to_char@, start as int, end as int, style),
{
    if start >= end || start >= byte_to_char.len() {
        return;
    }
    let last = byte_to_char.len() - 1;
    let s = byte_to_char[start];
    let e = byte_to_char[if end < last {
        end
    } else {
        last
    }];
    patch_chars(styles, s, e, style);
}

// ---------------------------------------------------------------------------
// Emphasis markers
// ---------------------------------------------------------------------------

/// How many characters of an emphasis marker start at `k`: a code fence's
/// three, `**`, `__` or `~~`'s two, a backtick's, `*`'s or `_`'s one.
pub open spec fn marker_len(t: Seq<char>, k: int) -> int {
    let r = t.skip(k);
    if starts_with(r, "```"@) {
        3
    } else if starts_with(r, "**"@) || starts_with(r, "__"@) || starts_with(r, "~~"@) {
        2
    } else if starts_with(r, "`"@) || starts_with(r, "*"@) || starts_with(r, "_"@) {
        1
    } else {
        0
    }
}

/// The style of the marker at `k`: bold cyan for `**` and `__`, dim magenta
/// for the others.
pub open spec fn marker_look(t: Seq<char>, k: int, base: Look) -> Look {
    let r = t.skip(k);
    if starts_with(r, "**"@) || starts_with(r, "__"@) {
        with_mods(with_fg(base, Hue::Cyan), bold())
    } else {
        with_mods(with_fg(base, Hue::Magenta), dim())
    }
}

/// The styles once the markers from character `k` on are styled, each
/// marker skipped whole.
pub open spec fn markers_from(t: Seq<char>, st: Seq<Look>, base: Look, k: int) -> Seq<Look>
    decreases t.len() - k,
{
    if k < 0 || k >= t.len() {
        st
    } else if marker_len(t, k) > 0 {
        proof {
            reveal_strlit("```");
            reveal_strlit("**");
            reveal_strlit("__");
            reveal_strlit("~~");
            reveal_strlit("`");
            reveal_strlit("*");
            reveal_strlit("_");
            assert(t.skip(k).len() == t.len() - k);
        }
        markers_from(t, patch_range(st, k, k + marker_len(t, k), marker_look(t, k, base)), base, k + marker_len(t, k))
    } else {
        markers_from(t, st, base, k + 1)
    }
}

fn starts_at(t: &Vec<char>, k: usize, p: &str) -> (b: bool)
    requires
        k <= t@.len(),
    ensures
        b == starts_with(t@.skip(k as int), p@),
{
    let pc = chars_of(p);
    let n = t.len();
    if pc.len() > n - k {
        return false;
    }
    let mut j: usize = 0;
    while j < pc.len()
        invariant
            j <= pc@.len(),
            n == t@.len(),
            k + pc@.len() <= t@.len(),
            pc@ == p@,
            forall|m: int| 0 <= m < j ==> t@[k + m] == pc@[m],
        decreases pc.len() - j,
    {
        if t[k + j] != pc[j] {
            assert(t@.skip(k as int).take(pc@.len() as int)[j as int] != pc@[j as int]);
            return false;
        }
        j = j + 1;
    }
    assert(t@.skip(k as int).take(pc@.len() as int) =~= pc@);
    true
}

/// Styling the emphasis markers of a line's characters.
pub fn highlight_markers(text: &Vec<char>, styles: &mut Vec<Look>, base: Look)
    requires
        old(styles)@.len() == text@.len(),
    ensures
        final(styles)@ == markers_from(text@, old(styles)@, base, 0),
        final(styles)@.len() == old(styles)@.len(),
{
    let ghost st0 = styles@;
    let marker = base.fg(Hue::Magenta).add_modifier(mods(false, true, false));
    let bold_marker = base.fg(Hue::Cyan).add_modifier(mods(true, false, false));
    let mut k: usize = 0;
    while k < text.len()
        invariant
            k <= text@.len(),
            styles@.len() == text@.len(),
            marker == with_mods(with_fg(base, Hue::Magenta), dim()),
            bold_marker == with_mods(with_fg(base, Hue::Cyan), bold()),
            markers_from(text@, st0, base, 0) == markers_from(text@, styles@, base, k as int),
        decreases text.len() - k,
    {
        let len: usize = if starts_at(text, k, "```") {
            3
        } else if starts_at(text, k, "**") || starts_at(text, k, "__") || starts_at(text, k, "~~") {
            2
        } else if starts_at(text, k, "`") || starts_at(text, k, "*") || starts_at(text, k, "_") {
            1
        } else {
            0
        };
        assert(len as int == marker_len(text@, k as int));
        if len > 0 {
            let style = if starts_at(text, k, "**") || starts_at(text, k, "__") {
                bold_marker
            } else {
                marker
            };
            proof {
                reveal_strlit("```");
                reveal_strlit("**");
                reveal_strlit("__");
                reveal_strlit("~~");
                reveal_strlit("`");
                reveal_strlit("*");
                reveal_strlit("_");
            }
            assert(k + len <= text@.len());
            patch_chars(styles, k, k + len, style);
            k = k + len;
        } else {
            k = k + 1;
        }
    }
}

// ---------------------------------------------------------------------------
// Links
// ---------------------------------------------------------------------------

/// The styles once each `[[...]]` from character `k` on is styled as a link
/// (green, underlined), brackets included; a `[[` that nothing closes is
/// left as it is.
pub open spec fn links_from(t: Seq<char>, st: Seq<Look>, base: Look, k: int) -> Seq<Look>
    decreases t.len() - k,
{
    if k < 0 || k >= t.len() {
        st
    } else if starts_with(t.skip(k), seq!['[', '[']) && match_from(t.skip(k + 2), seq![']', ']'], 0) is Some {
        let e = match_from(t.skip(k + 2), seq![']', ']'], 0).unwrap();
        proof {
            lemma_match_from_bound(t.skip(k + 2), seq![']', ']'], 0, e);
        }
        links_from(
            t,
            patch_range(st, k, k + e + 4, with_mods(with_fg(base, Hue::Green), underlined())),
            base,
            k + e + 4,
        )
    } else {
        links_from(t, st, base, k + 1)
    }
}

fn pair(c: char) -> (r: Vec<char>)
    ensures
        r@ == seq![c, c],
{
    let mut r: Vec<char> = Vec::new();
    r.push(c);
    r.push(c);
    assert(r@ =~= seq![c, c]);
    r
}

/// Styling the `[[links]]` of a line's characters.
pub fn highlight_wikilinks(text: &Vec<char>, styles: &mut Vec<Look>, base: Look)
    requires
        old(styles)@.len() == text@.len(),
    ensures
        final(styles)@ == links_from(text@, old(styles)@, base, 0),
        final(styles)@.len() == old(styles)@.len(),
{
    let ghost st0 = styles@;
    let link = base.fg(Hue::Green).add_modifier(mods(false, false, true));
    let open = pair('[');
    let close = pair(']');
    let mut k: usize = 0;
    while k < text.len()
        invariant
            k <= text@.len(),
            styles@.len() == text@.len(),
            open@ == seq!['[', '['],
            close@ == seq![']', ']'],
            link == with_mods(with_fg(base, Hue::Green), underlined()),
            links_from(text@, st0, base, 0) == links_from(text@, styles@, base, k as int),
        decreases text.len() - k,
    {
        let n = text.len();
        let opens = n - k >= 2 && text[k] == '[' && text[k + 1] == '[';
        proof {
            let r = text@.skip(k as int);
            if starts_with(r, seq!['[', '[']) {
                assert(r.take(2)[0] == '[' && r.take(2)[1] == '[');
            }
            if opens {
                assert(r.take(2) =~= seq!['[', '[']);
            }
        }
        if opens {
            let rest = crate::text::slice_chars(text, k + 2, n);
            assert(rest@ =~= text@.skip(k + 2));
            match find_exec(&rest, &close, 0) {
                Some(e) => {
                    proof {
                        lemma_match_from_bound(rest@, close@, 0, e as int);
                    }
                    patch_chars(styles, k, k + e + 4, link);
                    k = k + e + 4;
                },
                None => {
                    k = k + 1;
                },
            }
        } else {
            k = k + 1;
        }
    }
}

// ---------------------------------------------------------------------------
// List markers
// ---------------------------------------------------------------------------

/// How many spaces and tabs a line starts with.
pub open spec fn lead_blanks(t: Seq<char>) -> nat
    decreases t.len(),
{
    if t.len() > 0 && (t[0] == ' ' || t[0] == '\t') {
        1 + lead_blanks(t.drop_first())
    } else {
        0
    }
}

/// The width of the first `n` characters of a run of spaces and tabs: one
/// for a space, four for a tab.
pub open spec fn blank_width(t: Seq<char>, n: int) -> int
    decreases n,
{
    if n <= 0 || n > t.len() {
        0
    } else {
        blank_width(t, n - 1) + if t[n - 1] == '\t' { 4int } else { 1int }
    }
}

/// How many decimal digits `r` starts with.
pub open spec fn lead_digits(r: Seq<char>) -> nat
    decreases r.len(),
{
    if r.len() > 0 && is_digit(r[0]) {
        1 + lead_digits(r.drop_first())
    } else {
        0
    }
}

/// Whether a space or a tab follows the first `m` characters of `r`.
pub open spec fn separated(r: Seq<char>, m: int) -> bool {
    m < r.len() && (r[m] == ' ' || r[m] == '\t')
}

/// The list marker `r` starts with: its length and whether it is numbered;
/// length zero for none. A bullet is `-`, `*` or `+`; a number is digits
/// then `.` or `)`; either is followed by a space or a tab.
pub open spec fn list_marker(r: Seq<char>) -> (int, bool) {
    if r.len() > 0 && (r[0] == '-' || r[0] == '*' || r[0] == '+') && separated(r, 1) {
        (1, false)
    } else if r.len() > 0 && is_digit(r[0]) {
        let d = lead_digits(r) as int;
        if d > 0 && d < r.len() && (r[d] == '.' || r[d] == ')') && separated(r, d + 1) {
            (d + 1, true)
        } else {
            (0, false)
        }
    } else {
        (0, false)
    }
}

/// The styles of a line's list marker: indentation of two or more columns
/// dimmed, the marker bold cyan, what follows the marker and its separator
/// dimmed for a numbered item, and a task box after it yellow and dim when
/// open, green and bold when done.
pub open spec fn list_styled(t: Seq<char>, st: Seq<Look>, base: Look) -> Seq<Look> {
    let w = lead_blanks(t) as int;
    let st1 = if w > 0 && blank_width(t, w) / 2 > 0 {
        patch_range(st, 0, w, with_mods(base, dim()))
    } else {
        st
    };
    let r = t.skip(w);
    let (ml, numbered) = list_marker(r);
    if r.len() == 0 || ml == 0 {
        st1
    } else {
        let me = w + ml;
        let se = if me < t.len() {
            me + 1
        } else {
            me
        };
        let st2 = patch_range(st1, w, me, with_mods(with_fg(base, Hue::Cyan), bold()));
        let st3 = patch_range(st2, se, t.len() as int, if numbered {
            with_mods(base, dim())
        } else {
            base
        });
        let after = t.skip(se);
        if starts_with(after, seq!['[', ' ', ']']) {
            patch_range(st3, se, se + 3, with_mods(with_fg(base, Hue::Yellow), dim()))
        } else if starts_with(after, seq!['[', 'x', ']']) || starts_with(after, seq!['[', 'X', ']']) {
            patch_range(st3, se, se + 3, with_mods(with_fg(base, Hue::Green), bold()))
        } else {
            st3
        }
    }
}

fn is_box(t: &Vec<char>, at: usize, mid: char) -> (b: bool)
    requires
        at <= t@.len(),
    ensures
        b == starts_with(t@.skip(at as int), seq!['[', mid, ']']),
{
    let n = t.len();
    let r = n - at >= 3 && t[at] == '[' && t[at + 1] == mid && t[at + 2] == ']';
    proof {
        let s = t@.skip(at as int);
        if r {
            assert(s.take(3) =~= seq!['[', mid, ']']);
        }
        if starts_with(s, seq!['[', mid, ']']) {
            assert(s.take(3)[0] == '[' && s.take(3)[1] == mid && s.take(3)[2] == ']');
        }
    }
    r
}

fn blank_prefix(text: &Vec<char>) -> (r: (usize, usize))
    requires
        text@.len() <= usize::MAX / 8,
    ensures
        r.0 == lead_blanks(text@),
        r.1 as int == blank_width(text@, r.0 as int),
        r.0 <= text@.len(),
{
    let n = text.len();
    let mut w: usize = 0;
    let mut width: usize = 0;
    assert(text@.skip(0) =~= text@);
    while w < n && (text[w] == ' ' || text[w] == '\t')
        invariant
            w <= n == text@.len(),
            width as int == blank_width(text@, w as int),
            width <= 4 * w,
            text@.len() <= usize::MAX / 8,
            lead_blanks(text@) == w + lead_blanks(text@.skip(w as int)),
        decreases n - w,
    {
        proof {
            assert(text@.skip(w as int).drop_first() =~= text@.skip(w as int + 1));
        }
        width = width + if text[w] == '\t' {
            4
        } else {
            1
        };
        w = w + 1;
    }
    proof {
        if w < n {
            assert(text@.skip(w as int)[0] == text@[w as int]);
        }
        assert(lead_blanks(text@.skip(w as int)) == 0);
    }
    (w, width)
}

fn marker_at(text: &Vec<char>, w: usize) -> (r: (usize, bool))
    requires
        w < text@.len(),
    ensures
        (r.0 as int, r.1) == list_marker(text@.skip(w as int)),
        r.0 as int <= text@.len() - w,
{
    let ghost r = text@.skip(w as int);
    let n = text.len();
    let first = text[w];
    assert(r[0] == first);
    if (first == '-' || first == '*' || first == '+') && n - w > 1 && (text[w + 1] == ' ' || text[w + 1] == '\t') {
        assert(r[1] == text@[w + 1]);
        return (1, false);
    }
    proof {
        if n - w > 1 {
            assert(r[1] == text@[w + 1]);
        }
    }
    if !crate::text::is_ascii_digit(first) {
        return (0, false);
    }
    let mut d: usize = w;
    assert(text@.skip(w as int) == r);
    while d < n && crate::text::is_ascii_digit(text[d])
        invariant
            w <= d <= n == text@.len(),
            r == text@.skip(w as int),
            lead_digits(r) == (d - w) + lead_digits(text@.skip(d as int)),
        decreases n - d,
    {
        proof {
            assert(text@.skip(d as int).drop_first() =~= text@.skip(d as int + 1));
        }
        d = d + 1;
    }
    proof {
        if d < n {
            assert(text@.skip(d as int)[0] == text@[d as int]);
        }
        assert(lead_digits(text@.skip(d as int)) == 0);
        let k = d - w;
        if 0 < k && k < r.len() {
            assert(r[k] == text@[d as int]);
        }
        if 0 < k && k + 1 < r.len() {
            assert(r[k + 1] == text@[d + 1]);
        }
    }
    if d > w && d < n && (text[d] == '.' || text[d] == ')') && n - d > 1 && (text[d + 1] == ' ' || text[d + 1] == '\t') {
        (d - w + 1, true)
    } else {
        (0, false)
    }
}

/// Styling a line's list marker and task box.
#[verifier::rlimit(30)]
pub fn highlight_list_prefix(text: &Vec<char>, styles: &mut Vec<Look>, base: Look)
    requires
        old(styles)@.len() == text@.len(),
        text@.len() <= usize::MAX / 8,
    ensures
        final(styles)@ == list_styled(text@, old(styles)@, base),
        final(styles)@.len() == old(styles)@.len(),
{
    let n = text.len();
    let (w, width) = blank_prefix(text);
    if w > 0 && width / 2 > 0 {
        patch_chars(styles, 0, w, base.add_modifier(mods(false, true, false)));
    }
    if w == n {
        return;
    }
    let (ml, numbered) = marker_at(text, w);
    if ml == 0 {
        return;
    }
    let me = w + ml;
    let se = if me < n {
        me + 1
    } else {
        me
    };
    patch_chars(styles, w, me, base.fg(Hue::Cyan).add_modifier(mods(true, false, false)));
    let content = if numbered {
        base.add_modifier(mods(false, true, false))
    } else {
        base
    };
    patch_chars(styles, se, n, content);
    if is_box(text, se, ' ') {
        patch_chars(styles, se, se + 3, base.fg(Hue::Yellow).add_modifier(mods(false, true, false)));
    } else if is_box(text, se, 'x') || is_box(text, se, 'X') {
        patch_chars(styles, se, se + 3, base.fg(Hue::Green).add_modifier(mods(true, false, false)));
    }
}

// ---------------------------------------------------------------------------
// Runs of one style
// ---------------------------------------------------------------------------

/// The characters grouped into runs of one style, in order; an empty line
/// is one empty run in the plain style.
pub open spec fn style_runs(cs: Seq<char>, st: Seq<Look>) -> Seq<(Seq<char>, Look)>
    decreases cs.len(),
{
    if cs.len() == 0 {
        seq![(Seq::<char>::empty(), plain())]
    } else if cs.len() == 1 {
        seq![(seq![cs[0]], st[0])]
    } else {
        let prev = style_runs(cs.drop_last(), st);
        let last = prev.last();
        if st[cs.len() - 1] == last.1 {
            prev.update(prev.len() - 1, (last.0.push(cs.last()), last.1))
        } else {
            prev.push((seq![cs.last()], st[cs.len() - 1]))
        }
    }
}

pub open spec fn runs_view(v: Seq<(String, Look)>) -> Seq<(Seq<char>, Look)> {
    v.map_values(|p: (String, Look)| (p.0@, p.1))
}

proof fn lemma_runs_nonempty(cs: Seq<char>, st: Seq<Look>)
    ensures
        style_runs(cs, st).len() >= 1,
    decreases cs.len(),
{
    if cs.len() > 1 {
        lemma_runs_nonempty(cs.drop_last(), st);
    }
}

/// Groups a line's characters into runs of one style.
pub fn spans_from_chars_with_styles(chars: &Vec<char>, styles: &Vec<Look>) -> (r: Vec<(String, Look)>)
    requires
        styles@.len() >= chars@.len(),
    ensures
        runs_view(r@) == style_runs(chars@, styles@),
{
    let mut out: Vec<(String, Look)> = Vec::new();
    if chars.len() == 0 {
        out.push((String::new(), Look::plain()));
        assert(runs_view(out@) =~= style_runs(chars@, styles@));
        return out;
    }
    let mut current = styles[0];
    let mut buf: Vec<char> = Vec::new();
    buf.push(chars[0]);
    let mut idx: usize = 1;
    assert(chars@.take(1) =~= seq![chars@[0]]);
    while idx < chars.len()
        invariant
            1 <= idx <= chars@.len(),
            styles@.len() >= chars@.len(),
            runs_view(out@).push((buf@, current)) == style_runs(chars@.take(idx as int), styles@),
        decreases chars.len() - idx,
    {
        proof {
            lemma_runs_nonempty(chars@.take(idx as int), styles@);
            assert(chars@.take(idx as int + 1).drop_last() =~= chars@.take(idx as int));
            assert(chars@.take(idx as int + 1).last() == chars@[idx as int]);
        }
        if styles[idx] == current {
            let ghost before = runs_view(out@).push((buf@, current));
            buf.push(chars[idx]);
            proof {
                assert(runs_view(out@).push((buf@, current)) =~= before.update(
                    before.len() - 1,
                    (before.last().0.push(chars@[idx as int]), before.last().1),
                ));
            }
        } else {
            let done = (string_of(&buf), current);
            proof {
                assert(runs_view(out@.push(done)) =~= runs_view(out@).push((buf@, current)));
            }
            out.push(done);
            current = styles[idx];
            buf = Vec::new();
            buf.push(chars[idx]);
            proof {
                assert(buf@ =~= seq![chars@[idx as int]]);
            }
        }
        idx = idx + 1;
    }
    let last = (string_of(&buf), current);
    proof {
        assert(runs_view(out@.push(last)) =~= runs_view(out@).push((buf@, current)));
        assert(chars@.take(chars@.len() as int) =~= chars@);
    }
    out.push(last);
    out
}

} // verus!
