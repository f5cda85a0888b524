//! What the browser's screen shows, decided before anything is drawn: the
//! rows of the preview with their gutters, the footer line and the style of
//! a row of the notes tree.
use vstd::prelude::*;
use crate::text::{chars_of, decimal, decimal_chars, eq_chars, find_char, starts_with, starts_with_exec, string_of, trim_whitespace, trim_ws};
use crate::tui::panes::FocusPane;
use crate::tui::keys::NewNoteField;
use crate::tui::search::{hit_view, hits_view, HitView, GlobalSearchResult};
use crate::tui::markdown::{dim, plain, with_fg, with_mods, Hue, Look, Mods};
use crate::index::strs;
use crate::tui::fold::{
    heading_level, hidden, level_at, preview_heading_is_collapsed, preview_heading_level, preview_is_row_hidden,
    preview_visible_row_for_source_row, visible_row_for,
};
use crate::tui::blocks::{fenced_code_block_rows, in_code_block};
use crate::tui::visual::{row_span, visual_selection_for_row};

verus! {

broadcast use vstd::string::group_string_axioms;

/// `format!("{:>w$}", ..)`: the text right-aligned in `w` columns.
pub open spec fn right_aligned(s: Seq<char>, w: nat) -> Seq<char> {
    if s.len() < w {
        Seq::new((w - s.len()) as nat, |i: int| ' ') + s
    } else {
        s
    }
}

/// The gutter of a preview row: its distance in rows from the cursor's row,
/// right-aligned in four columns, and a blank.
pub open spec fn gutter_text(row: int, cursor: int) -> Seq<char> {
    let d = if row >= cursor {
        row - cursor
    } else {
        cursor - row
    };
    right_aligned(decimal(d as nat), 4).push(' ')
}

pub fn relative_gutter(row: usize, cursor: usize) -> (r: String)
    ensures
        r@ == gutter_text(row as int, cursor as int),
{
    let d = if row >= cursor {
        row - cursor
    } else {
        cursor - row
    };
    let digits = decimal_chars(d);
    let pad: usize = if digits.len() < 4 {
        4 - digits.len()
    } else {
        0
    };
    let mut out: Vec<char> = Vec::new();
    let mut i: usize = 0;
    while i < pad
        invariant
            i <= pad,
            out@ =~= Seq::new(i as nat, |k: int| ' '),
        decreases pad - i,
    {
        out.push(' ');
        i = i + 1;
    }
    let mut j: usize = 0;
    while j < digits.len()
        invariant
            j <= digits@.len(),
            out@ =~= Seq::new(pad as nat, |k: int| ' ') + digits@.take(j as int),
        decreases digits.len() - j,
    {
        out.push(digits[j]);
        j = j + 1;
    }
    assert(digits@.take(digits@.len() as int) =~= digits@);
    out.push(' ');
    proof {
        if digits@.len() >= 4 {
            assert(Seq::new(pad as nat, |k: int| ' ') + digits@ =~= digits@);
        }
    }
    string_of(&out)
}

/// A row of the preview: the line it shows, its gutter, whether it is a
/// heading (and then whether that heading is collapsed), whether it lies in
/// a fenced code block, and the columns the visual selection covers on it.
pub struct PreviewRow {
    pub source: usize,
    pub gutter: String,
    pub heading: Option<bool>,
    pub code: bool,
    pub selection: Option<(usize, usize)>,
}

pub open spec fn preview_row_view(r: PreviewRow) -> (int, Seq<char>, Option<bool>, bool, Option<(usize, usize)>) {
    (r.source as int, r.gutter@, r.heading, r.code, r.selection)
}

pub open spec fn preview_rows_view(rs: Seq<PreviewRow>) -> Seq<(int, Seq<char>, Option<bool>, bool, Option<(usize, usize)>)> {
    rs.map_values(|r: PreviewRow| preview_row_view(r))
}

/// The row of the preview for line `idx`, the cursor showing on row
/// `cursor`.
pub open spec fn preview_row(
    ls: Seq<Seq<char>>,
    collapsed: Seq<usize>,
    bounds: Option<((usize, usize), (usize, usize))>,
    cursor: int,
    idx: int,
) -> (int, Seq<char>, Option<bool>, bool, Option<(usize, usize)>) {
    (
        idx,
        gutter_text(idx, cursor),
        if heading_level(ls[idx]) is Some {
            Some(collapsed.contains(idx as usize))
        } else {
            None
        },
        in_code_block(ls, idx),
        row_span(bounds, idx as usize, ls[idx].len() as usize),
    )
}

/// The rows of the preview for the lines `idx..end` that no collapsed
/// heading hides.
pub open spec fn preview_plan(
    ls: Seq<Seq<char>>,
    collapsed: Seq<usize>,
    bounds: Option<((usize, usize), (usize, usize))>,
    cursor: int,
    idx: int,
    end: int,
) -> Seq<(int, Seq<char>, Option<bool>, bool, Option<(usize, usize)>)>
    decreases end - idx,
{
    if idx >= end || idx < 0 {
        Seq::empty()
    } else if hidden(ls, collapsed, idx) {
        preview_plan(ls, collapsed, bounds, cursor, idx + 1, end)
    } else {
        seq![preview_row(ls, collapsed, bounds, cursor, idx)] + preview_plan(
            ls,
            collapsed,
            bounds,
            cursor,
            idx + 1,
            end,
        )
    }
}

/// The rows the preview shows, `height` lines from `scroll` on: the lines
/// there that no collapsed heading hides, each with its distance from the
/// row the cursor shows on. An empty buffer shows none.
pub fn preview_rows(
    lines: &Vec<String>,
    collapsed: &Vec<usize>,
    bounds: Option<((usize, usize), (usize, usize))>,
    cursor_row: usize,
    scroll: usize,
    height: usize,
) -> (r: Vec<PreviewRow>)
    requires
        scroll + height <= usize::MAX,
    ensures
        preview_rows_view(r@) == preview_plan(
            strs(lines@),
            collapsed@,
            bounds,
            visible_row_for(strs(lines@), collapsed@, cursor_row as int),
            scroll as int,
            if scroll + height < lines@.len() { scroll + height } else { lines@.len() as int },
        ),
{
    let ghost ls = strs(lines@);
    let cursor = preview_visible_row_for_source_row(lines, collapsed, cursor_row);
    let end = if scroll + height < lines.len() {
        scroll + height
    } else {
        lines.len()
    };
    let code_rows = fenced_code_block_rows(lines);
    let mut out: Vec<PreviewRow> = Vec::new();
    let mut idx = scroll;
    while idx < end
        invariant
            scroll <= idx,
            end <= lines@.len(),
            ls == strs(lines@),
            code_rows@.len() == lines@.len(),
            forall|i: int| 0 <= i < code_rows@.len() ==> code_rows@[i] == in_code_block(ls, i),
            preview_rows_view(out@) + preview_plan(ls, collapsed@, bounds, cursor as int, idx as int, end as int)
                == preview_plan(ls, collapsed@, bounds, cursor as int, scroll as int, end as int),
        decreases end - idx,
    {
        let ghost before = out@;
        if preview_is_row_hidden(lines, collapsed, idx) {
            idx = idx + 1;
        } else {
            assert(ls[idx as int] == lines@[idx as int]@);
            let heading = match preview_heading_level(lines, idx) {
                Some(_) => Some(preview_heading_is_collapsed(collapsed, idx)),
                None => None,
            };
            let len = lines[idx].as_str().unicode_len();
            let row = PreviewRow {
                source: idx,
                gutter: relative_gutter(idx, cursor),
                heading,
                code: code_rows[idx],
                selection: visual_selection_for_row(bounds, idx, len),
            };
            out.push(row);
            proof {
                assert(preview_row_view(row) == preview_row(ls, collapsed@, bounds, cursor as int, idx as int));
                assert(preview_rows_view(out@) =~= preview_rows_view(before).push(preview_row_view(row)));
                let rest = preview_plan(ls, collapsed@, bounds, cursor as int, idx + 1, end as int);
                assert(preview_rows_view(out@) + rest =~= preview_rows_view(before) + (seq![
                    preview_row(ls, collapsed@, bounds, cursor as int, idx as int),
                ] + rest));
            }
            idx = idx + 1;
        }
    }
    assert(preview_rows_view(out@) + Seq::empty() =~= preview_rows_view(out@));
    out
}

/// The name the footer gives the focused pane.
pub open spec fn focus_name(f: FocusPane) -> Seq<char> {
    match f {
        FocusPane::Notes => "NOTES"@,
        FocusPane::Preview => "PREVIEW"@,
        FocusPane::Links => "LINKS"@,
    }
}

fn focus_name_str(f: FocusPane) -> (r: &'static str)
    ensures
        r@ == focus_name(f),
{
    match f {
        FocusPane::Notes => "NOTES",
        FocusPane::Preview => "PREVIEW",
        FocusPane::Links => "LINKS",
    }
}

/// A status worth showing in the footer: the result of an action, not a
/// prompt that a pending key or a mode leaves.
pub open spec fn is_action_result(st: Seq<char>) -> bool {
    &&& st.len() > 0
    &&& !starts_with(st, "-- "@)
    &&& !starts_with(st, "leader:"@)
    &&& !starts_with(st, "d pending"@)
    &&& !starts_with(st, "y pending"@)
    &&& st != "new note"@
}

/// The footer: the focused pane, the mode, where help is, and the status
/// (trimmed) when it is the result of an action.
pub open spec fn footer(focus: FocusPane, mode: Seq<char>, status: Seq<char>) -> Seq<char> {
    let base = " Focus: "@ + focus_name(focus) + " | Mode: "@ + mode + " | Help: ? "@;
    let st = trim_ws(status);
    if is_action_result(st) {
        base + " "@ + st
    } else {
        base
    }
}

pub fn footer_text(focus: FocusPane, mode: &str, status: &str) -> (r: String)
    ensures
        r@ == footer(focus, mode@, status@),
{
    let mut base = String::from_str(" Focus: ");
    base.append(focus_name_str(focus));
    base.append(" | Mode: ");
    base.append(mode);
    base.append(" | Help: ? ");
    let st = trim_whitespace(&chars_of(status));
    let action = st.len() > 0 && !starts_with_exec(&st, &chars_of("-- ")) && !starts_with_exec(
        &st,
        &chars_of("leader:"),
    ) && !starts_with_exec(&st, &chars_of("d pending")) && !starts_with_exec(&st, &chars_of("y pending"))
        && !eq_chars(&st, &chars_of("new note"));
    if action {
        base.append(" ");
        base.append(string_of(&st).as_str());
    }
    base
}

/// The style of a row of the notes pane, read off its label: the parent
/// row dim, directories blue, notes marked cut yellow, the open note
/// green, notes in the visual selection magenta.
pub open spec fn tree_row_look(label: Seq<char>) -> Look {
    if label == ".."@ {
        with_mods(plain(), dim())
    } else if label.contains('/') {
        with_fg(plain(), Hue::Blue)
    } else if starts_with(label, "x "@) {
        with_fg(plain(), Hue::Yellow)
    } else if starts_with(label, "* "@) {
        with_fg(plain(), Hue::Green)
    } else if starts_with(label, "> "@) {
        with_fg(plain(), Hue::Magenta)
    } else {
        plain()
    }
}

pub fn notes_row_look(label: &str) -> (r: Look)
    ensures
        r == tree_row_look(label@),
{
    let l = chars_of(label);
    if eq_chars(&l, &chars_of("..")) {
        Look::plain().add_modifier(Mods { bold: false, dim: true, italic: false, underlined: false, crossed_out: false })
    } else if find_char(&l, '/').is_some() {
        Look::plain().fg(Hue::Blue)
    } else if starts_with_exec(&l, &chars_of("x ")) {
        Look::plain().fg(Hue::Yellow)
    } else if starts_with_exec(&l, &chars_of("* ")) {
        Look::plain().fg(Hue::Green)
    } else if starts_with_exec(&l, &chars_of("> ")) {
        Look::plain().fg(Hue::Magenta)
    } else {
        Look::plain()
    }
}

/// How many hits the global search popup lists.
pub const SHOWN_HITS: usize = 8;

/// A line of the global search popup: the selection mark, the kind of hit
/// and its colour, and the path.
#[derive(Debug, Clone, PartialEq, Eq)]
pub struct HitRow {
    pub marker: char,
    pub kind: &'static str,
    pub hue: Hue,
    pub path: String,
}

pub open spec fn hit_row_view(r: HitRow) -> (char, Seq<char>, Hue, Seq<char>) {
    (r.marker, r.kind@, r.hue, r.path@)
}

/// The line for hit `h` at place `k`, hit `selected` being selected:
/// directories blue, notes found by a tag yellow, other notes green.
pub open spec fn hit_line(h: HitView, k: int, selected: int) -> (char, Seq<char>, Hue, Seq<char>) {
    let m = if k == selected {
        '>'
    } else {
        ' '
    };
    match h {
        HitView::Dir(p) => (m, "DIR "@, Hue::Blue, p),
        HitView::Note(p, by_tag) => if by_tag {
            (m, "TAG "@, Hue::Yellow, p)
        } else {
            (m, "NOTE"@, Hue::Green, p)
        },
    }
}

/// The lines of the popup for the first hits.
pub fn search_hit_rows(hits: &Vec<GlobalSearchResult>, selected: usize) -> (r: Vec<HitRow>)
    ensures
        r@.len() == if hits@.len() < SHOWN_HITS { hits@.len() as int } else { SHOWN_HITS as int },
        forall|k: int| 0 <= k < r@.len() ==> hit_row_view(#[trigger] r@[k]) == hit_line(
            hits_view(hits@)[k],
            k,
            selected as int,
        ),
{
    let n = if hits.len() < SHOWN_HITS {
        hits.len()
    } else {
        SHOWN_HITS
    };
    let mut out: Vec<HitRow> = Vec::new();
    let mut k: usize = 0;
    while k < n
        invariant
            k <= n <= hits@.len(),
            out@.len() == k,
            forall|j: int| 0 <= j < k ==> hit_row_view(#[trigger] out@[j]) == hit_line(
                hits_view(hits@)[j],
                j,
                selected as int,
            ),
        decreases n - k,
    {
        assert(hits_view(hits@)[k as int] == hit_view(hits@[k as int]));
        let marker = if k == selected {
            '>'
        } else {
            ' '
        };
        let row = match &hits[k] {
            GlobalSearchResult::Dir(p) => HitRow { marker, kind: "DIR ", hue: Hue::Blue, path: p.clone() },
            GlobalSearchResult::Note { path, matched_by_tag } => if *matched_by_tag {
                HitRow { marker, kind: "TAG ", hue: Hue::Yellow, path: path.clone() }
            } else {
                HitRow { marker, kind: "NOTE", hue: Hue::Green, path: path.clone() }
            },
        };
        out.push(row);
        k = k + 1;
    }
    out
}

/// The labels of the new-note popup's fields, the one being typed into
/// marked with an arrow.
pub fn new_note_labels(field: NewNoteField) -> (r: (&'static str, &'static str, &'static str))
    ensures
        r.0@ == if field == NewNoteField::Dir { "Folder: <-"@ } else { "Folder:"@ },
        r.1@ == if field == NewNoteField::Name { "Name: <-"@ } else { "Name:"@ },
        r.2@ == if field == NewNoteField::Tags {
            "Tags (comma/space separated): <-"@
        } else {
            "Tags (comma/space separated):"@
        },
{
    let dir = match field {
        NewNoteField::Dir => "Folder: <-",
        _ => "Folder:",
    };
    let name = match field {
        NewNoteField::Name => "Name: <-",
        _ => "Name:",
    };
    let tags = match field {
        NewNoteField::Tags => "Tags (comma/space separated): <-",
        _ => "Tags (comma/space separated):",
    };
    (dir, name, tags)
}

/// The status line the browser starts with: a reminder of the main keys.
pub open spec fn initial_status_text() -> Seq<char> {
    "tab/shift+tab: pane, h/j/k/l: move, i/a/o: insert, : for commands, ctrl+s: save"@
}

/// The status line the browser starts with.
pub fn initial_status() -> (r: String)
    ensures
        r@ == initial_status_text(),
{
    String::from_str("tab/shift+tab: pane, h/j/k/l: move, i/a/o: insert, : for commands, ctrl+s: save")
}

} // verus!
