//! Where things go on the terminal: the panes side by side, popups centred
//! over the preview, and the cell the text cursor is put on.
//!
//! Cells are counted in `u16`, as the terminal library counts them.
use vstd::prelude::*;
use crate::text::chars_of;
use crate::index::strs;
use crate::tui::fold::{level_at, preview_heading_level, preview_screen_row_for_source_row, preview_visible_row_for_source_row, screen_row, visible_row_for};
use crate::tui::keys::NewNoteField;
use crate::tui::panes::FocusPane;

verus! {

broadcast use vstd::string::group_string_axioms;

/// A rectangle of cells: its top-left corner and its size.
#[derive(Clone, Copy, Debug, PartialEq, Eq, Structural)]
pub struct Area {
    pub x: u16,
    pub y: u16,
    pub width: u16,
    pub height: u16,
}

/// `a - b`, or 0 when `b` is larger (`saturating_sub`).
pub open spec fn monus(a: int, b: int) -> int {
    if a > b {
        a - b
    } else {
        0
    }
}

pub open spec fn min_of(a: int, b: int) -> int {
    if a < b {
        a
    } else {
        b
    }
}

/// A rectangle at `(x, y)`, its size cut down so that it ends within the
/// `u16` range (as the terminal library's `Rect::new` does).
pub open spec fn area_at(x: u16, y: u16, width: u16, height: u16) -> Area {
    Area {
        x,
        y,
        width: min_of(width as int, u16::MAX - x) as u16,
        height: min_of(height as int, u16::MAX - y) as u16,
    }
}

impl Area {
    pub fn new(x: u16, y: u16, width: u16, height: u16) -> (r: Area)
        ensures
            r == area_at(x, y, width, height),
    {
        let max_width = u16::MAX - x;
        let max_height = u16::MAX - y;
        let width = if width > max_width {
            max_width
        } else {
            width
        };
        let height = if height > max_height {
            max_height
        } else {
            height
        };
        Area { x, y, width, height }
    }
}

/// How wide a centred popup is: `percent` of the area's width, at least 20
/// cells, at most the area's width.
pub open spec fn popup_width(area: Area, percent: u16) -> int {
    let w = ((area.width * percent) / 100) as u16;
    min_of(if w > 20 { w as int } else { 20 }, area.width as int)
}

pub open spec fn popup_height(area: Area, height: u16) -> int {
    min_of(height as int, area.height as int)
}

pub open spec fn centered_x(area: Area, percent: u16) -> int {
    area.x + (area.width - popup_width(area, percent)) / 2
}

pub open spec fn centered_y(area: Area, height: u16) -> int {
    area.y + (area.height - popup_height(area, height)) / 2
}

/// A popup `percent` of the area wide and `height` cells high, centred in
/// the area.
pub open spec fn centered(area: Area, percent: u16, height: u16) -> Area {
    area_at(
        centered_x(area, percent) as u16,
        centered_y(area, height) as u16,
        popup_width(area, percent) as u16,
        popup_height(area, height) as u16,
    )
}

pub fn centered_rect(area: Area, width_percent: u16, height: u16) -> (r: Area)
    requires
        centered_x(area, width_percent) <= u16::MAX,
        centered_y(area, height) <= u16::MAX,
    ensures
        r == centered(area, width_percent, height),
{
    let a = area.width as u32;
    let b = width_percent as u32;
    assert(a * b <= 65535 * 65535) by (nonlinear_arith)
        requires
            a <= 65535,
            b <= 65535,
    ;
    #[verifier::truncate]
    let width = ((a * b) / 100) as u16;
    let wide = if width > 20 {
        width
    } else {
        20
    };
    let popup_w = if wide < area.width {
        wide
    } else {
        area.width
    };
    let popup_h = if height < area.height {
        height
    } else {
        area.height
    };
    let x = area.x + (area.width - popup_w) / 2;
    let y = area.y + (area.height - popup_h) / 2;
    Area::new(x, y, popup_w, popup_h)
}

/// The centred popup moved `y_offset` rows up (not above row 0) or down
/// (not past the bottom of the area).
pub open spec fn centered_offset(area: Area, percent: u16, height: u16, y_offset: i16) -> Area {
    let p = centered(area, percent, height);
    if y_offset < 0 {
        Area { y: monus(p.y as int, -y_offset) as u16, ..p }
    } else if y_offset > 0 {
        let max_y = area.y + monus(area.height as int, p.height as int);
        Area { y: min_of(p.y + y_offset, max_y) as u16, ..p }
    } else {
        p
    }
}

pub fn centered_rect_with_offset(area: Area, width_percent: u16, height: u16, y_offset: i16) -> (r: Area)
    requires
        centered_x(area, width_percent) <= u16::MAX,
        centered_y(area, height) <= u16::MAX,
        y_offset > i16::MIN,
        y_offset > 0 ==> centered(area, width_percent, height).y + y_offset <= u16::MAX,
        y_offset > 0 ==> area.y + monus(area.height as int, centered(area, width_percent, height).height as int)
            <= u16::MAX,
    ensures
        r == centered_offset(area, width_percent, height, y_offset),
{
    let mut popup = centered_rect(area, width_percent, height);
    if y_offset < 0 {
        let shift = (-y_offset) as u16;
        popup.y = popup.y.saturating_sub(shift);
    } else if y_offset > 0 {
        let shift = y_offset as u16;
        let max_y = area.y + area.height.saturating_sub(popup.height);
        let moved = popup.y + shift;
        popup.y = if moved < max_y {
            moved
        } else {
            max_y
        };
    }
    popup
}

/// The cell after `width` characters of a one-line prompt framed in `area`
/// (the text starts two cells in), kept inside the frame.
pub open spec fn prompt_spot(area: Area, width: int) -> (int, int) {
    (min_of(area.x + 2 + width, area.x + monus(area.width as int, 2)), area.y + 1)
}

/// The width the terminal is told a text takes: its length in characters,
/// cut to `u16`.
pub open spec fn cells(s: Seq<char>) -> int {
    (s.len() as u16) as int
}

fn cells_exec(s: &str) -> (r: u16)
    ensures
        r as int == cells(s@),
{
    let n = chars_of(s).len();
    #[verifier::truncate]
    (n as u16)
}

fn prompt_cursor(area: Area, input: &str) -> (r: (u16, u16))
    requires
        area.x + 2 + cells(input@) <= u16::MAX,
        area.x + monus(area.width as int, 2) <= u16::MAX,
        area.y + 1 <= u16::MAX,
    ensures
        (r.0 as int, r.1 as int) == prompt_spot(area, cells(input@)),
{
    let w = cells_exec(input);
    let max_x = area.x + area.width.saturating_sub(2);
    let want = area.x + 2 + w;
    let x = if want < max_x {
        want
    } else {
        max_x
    };
    (x, area.y + 1)
}

/// Where the cursor goes in the `:` prompt.
pub fn place_command_cursor(area: Area, command_input: &str) -> (r: (u16, u16))
    requires
        area.x + 2 + cells(command_input@) <= u16::MAX,
        area.x + monus(area.width as int, 2) <= u16::MAX,
        area.y + 1 <= u16::MAX,
    ensures
        (r.0 as int, r.1 as int) == prompt_spot(area, cells(command_input@)),
{
    prompt_cursor(area, command_input)
}

/// Where the cursor goes in the `/` prompt.
pub fn place_search_cursor(area: Area, search_input: &str) -> (r: (u16, u16))
    requires
        area.x + 2 + cells(search_input@) <= u16::MAX,
        area.x + monus(area.width as int, 2) <= u16::MAX,
        area.y + 1 <= u16::MAX,
    ensures
        (r.0 as int, r.1 as int) == prompt_spot(area, cells(search_input@)),
{
    prompt_cursor(area, search_input)
}

/// The cell after `width` characters typed into a popup field that starts
/// `indent` cells in and sits `row` rows down, kept inside the popup.
pub open spec fn field_spot(p: Area, indent: int, width: int, row: int) -> (int, int) {
    (min_of(p.x + indent + width, p.x + monus(p.width as int, 2)), p.y + row)
}

/// The popup's field fits the `u16` range: nothing the cursor's cell is
/// computed from overflows.
pub open spec fn field_fits(p: Area, indent: int, width: int, row: int) -> bool {
    &&& p.x + indent + width <= u16::MAX
    &&& p.x + monus(p.width as int, 2) <= u16::MAX
    &&& p.y + row <= u16::MAX
}

fn field_cursor(p: Area, indent: u16, input: &str, row: u16) -> (r: (u16, u16))
    requires
        field_fits(p, indent as int, cells(input@), row as int),
    ensures
        (r.0 as int, r.1 as int) == field_spot(p, indent as int, cells(input@), row as int),
{
    let w = cells_exec(input);
    let max_x = p.x + p.width.saturating_sub(2);
    let want = p.x + indent + w;
    let x = if want < max_x {
        want
    } else {
        max_x
    };
    (x, p.y + row)
}

/// The popups lie over the preview: each centred, and lifted by a row or
/// two; this says that centring one in `area` stays within the `u16`
/// range.
pub open spec fn popup_fits(area: Area, percent: u16, height: u16) -> bool {
    &&& centered_x(area, percent) <= u16::MAX
    &&& centered_y(area, height) <= u16::MAX
}

/// Where the cursor goes in the new-note popup: in the field being typed
/// into (the directory, the name or the tags).
pub fn place_new_note_cursor(area: Area, field: NewNoteField, dir: &str, name: &str, tags: &str) -> (r: (u16, u16))
    requires
        popup_fits(area, 74, 11),
        field_fits(
            centered_offset(area, 74, 11, -2i16),
            1,
            cells(
                match field {
                    NewNoteField::Dir => dir@,
                    NewNoteField::Name => name@,
                    NewNoteField::Tags => tags@,
                },
            ),
            match field {
                NewNoteField::Dir => 2,
                NewNoteField::Name => 5,
                NewNoteField::Tags => 7,
            },
        ),
    ensures
        (r.0 as int, r.1 as int) == field_spot(
            centered_offset(area, 74, 11, -2i16),
            1,
            cells(
                match field {
                    NewNoteField::Dir => dir@,
                    NewNoteField::Name => name@,
                    NewNoteField::Tags => tags@,
                },
            ),
            match field {
                NewNoteField::Dir => 2,
                NewNoteField::Name => 5,
                NewNoteField::Tags => 7,
            },
        ),
{
    let popup = centered_rect_with_offset(area, 74, 11, -2);
    match field {
        NewNoteField::Dir => field_cursor(popup, 1, dir, 2),
        NewNoteField::Name => field_cursor(popup, 1, name, 5),
        NewNoteField::Tags => field_cursor(popup, 1, tags, 7),
    }
}

/// Where the cursor goes in the global search popup: after the query, past
/// its `Query: ` label.
pub fn place_global_search_cursor(area: Area, input: &str) -> (r: (u16, u16))
    requires
        popup_fits(area, 72, 14),
        field_fits(centered_offset(area, 72, 14, -1i16), 8, cells(input@), 1),
    ensures
        (r.0 as int, r.1 as int) == field_spot(centered_offset(area, 72, 14, -1i16), 8, cells(input@), 1),
{
    let popup = centered_rect_with_offset(area, 72, 14, -1);
    field_cursor(popup, 8, input, 1)
}

/// Where the cursor goes in the new-directory popup.
pub fn place_new_dir_cursor(area: Area, input: &str) -> (r: (u16, u16))
    requires
        popup_fits(area, 62, 6),
        field_fits(centered_offset(area, 62, 6, -1i16), 1, cells(input@), 2),
    ensures
        (r.0 as int, r.1 as int) == field_spot(centered_offset(area, 62, 6, -1i16), 1, cells(input@), 2),
{
    let popup = centered_rect_with_offset(area, 62, 6, -1);
    field_cursor(popup, 1, input, 2)
}

/// Where the cursor goes in the rename popup.
pub fn place_rename_cursor(area: Area, input: &str) -> (r: (u16, u16))
    requires
        popup_fits(area, 62, 7),
        field_fits(centered_offset(area, 62, 7, -1i16), 1, cells(input@), 4),
    ensures
        (r.0 as int, r.1 as int) == field_spot(centered_offset(area, 62, 7, -1i16), 1, cells(input@), 4),
{
    let popup = centered_rect_with_offset(area, 62, 7, -1);
    field_cursor(popup, 1, input, 4)
}

/// The columns the preview keeps left of the text for its gutter.
pub const GUTTER_WIDTH: u16 = 5;

/// The row of the preview, counted from the top of its frame, on which the
/// cursor's line shows, with that line; none when the frame has no inside
/// or the line is scrolled out of it.
pub open spec fn editor_reach(area: Area, ls: Seq<Seq<char>>, collapsed: Seq<usize>, scroll: u16, cursor_row: int) -> Option<(int, int)> {
    let inner_w = monus(area.width as int, 2);
    let inner_h = monus(area.height as int, 2);
    let row = visible_row_for(ls, collapsed, cursor_row);
    if inner_w == 0 || inner_h == 0 || row < scroll {
        None
    } else {
        let vr = (screen_row(ls, collapsed, scroll as int, row) as u16) as int;
        if vr >= inner_h {
            None
        } else {
            Some((row, vr))
        }
    }
}

/// The column of the cursor within the text: shifted past the fold marker
/// on a heading.
pub open spec fn editor_col(ls: Seq<Seq<char>>, row: int, cursor_col: usize) -> int {
    (cursor_col as u16) as int + if level_at(ls, row) is Some {
        2int
    } else {
        0int
    }
}

/// The cell the cursor is put on in the preview: inside the frame, past
/// the gutter, and no further right than the frame's last column.
pub open spec fn editor_spot(area: Area, ls: Seq<Seq<char>>, collapsed: Seq<usize>, scroll: u16, cursor_row: int, cursor_col: usize) -> Option<(int, int)> {
    match editor_reach(area, ls, collapsed, scroll, cursor_row) {
        None => None,
        Some((row, vr)) => {
            let max_col = monus(monus(monus(area.width as int, 2), 1), GUTTER_WIDTH as int);
            Some((area.x + 1 + GUTTER_WIDTH + min_of(editor_col(ls, row, cursor_col), max_col), area.y + 1 + vr))
        },
    }
}

/// Nothing the cursor's cell is computed from overflows `u16`.
pub open spec fn editor_spot_fits(area: Area, ls: Seq<Seq<char>>, collapsed: Seq<usize>, scroll: u16, cursor_row: int, cursor_col: usize) -> bool {
    match editor_reach(area, ls, collapsed, scroll, cursor_row) {
        None => true,
        Some((row, vr)) => editor_col(ls, row, cursor_col) <= u16::MAX && match editor_spot(
            area,
            ls,
            collapsed,
            scroll,
            cursor_row,
            cursor_col,
        ) {
            Some((x, y)) => x <= u16::MAX && y <= u16::MAX,
            None => true,
        },
    }
}

pub fn place_editor_cursor(
    area: Area,
    lines: &Vec<String>,
    collapsed: &Vec<usize>,
    scroll: u16,
    cursor_row: usize,
    cursor_col: usize,
) -> (r: Option<(u16, u16)>)
    requires
        editor_spot_fits(area, strs(lines@), collapsed@, scroll, cursor_row as int, cursor_col),
    ensures
        match r {
            Some((x, y)) => editor_spot(area, strs(lines@), collapsed@, scroll, cursor_row as int, cursor_col)
                == Some((x as int, y as int)),
            None => editor_spot(area, strs(lines@), collapsed@, scroll, cursor_row as int, cursor_col) is None,
        },
{
    let inner_width = area.width.saturating_sub(2);
    let inner_height = area.height.saturating_sub(2);
    let row = preview_visible_row_for_source_row(lines, collapsed, cursor_row);
    if inner_width == 0 || inner_height == 0 {
        return None;
    }
    if row < scroll as usize {
        return None;
    }
    let screen = preview_screen_row_for_source_row(lines, collapsed, scroll as usize, row);
    #[verifier::truncate]
    let visual_row = screen as u16;
    if visual_row >= inner_height {
        return None;
    }
    #[verifier::truncate]
    let base_col = cursor_col as u16;
    let col = base_col + match preview_heading_level(lines, row) {
        Some(_) => 2,
        None => 0,
    };
    let max_col = inner_width.saturating_sub(1).saturating_sub(GUTTER_WIDTH);
    let visual_col = if col < max_col {
        col
    } else {
        max_col
    };
    Some((area.x + 1 + GUTTER_WIDTH + visual_col, area.y + 1 + visual_row))
}

/// The panes side by side, left to right, with the share of the width, in
/// percent, each takes.
pub open spec fn pane_shares(show_notes: bool, show_links: bool) -> Seq<(FocusPane, u16)> {
    if show_notes && show_links {
        seq![(FocusPane::Notes, 20u16), (FocusPane::Preview, 60u16), (FocusPane::Links, 20u16)]
    } else if show_notes {
        seq![(FocusPane::Notes, 20u16), (FocusPane::Preview, 80u16)]
    } else if show_links {
        seq![(FocusPane::Preview, 80u16), (FocusPane::Links, 20u16)]
    } else {
        seq![(FocusPane::Preview, 100u16)]
    }
}

pub fn pane_columns(show_notes: bool, show_links: bool) -> (r: Vec<(FocusPane, u16)>)
    ensures
        r@ == pane_shares(show_notes, show_links),
{
    let mut v: Vec<(FocusPane, u16)> = Vec::new();
    if show_notes && show_links {
        v.push((FocusPane::Notes, 20));
        v.push((FocusPane::Preview, 60));
        v.push((FocusPane::Links, 20));
    } else if show_notes {
        v.push((FocusPane::Notes, 20));
        v.push((FocusPane::Preview, 80));
    } else if show_links {
        v.push((FocusPane::Preview, 80));
        v.push((FocusPane::Links, 20));
    } else {
        v.push((FocusPane::Preview, 100));
    }
    assert(v@ =~= pane_shares(show_notes, show_links));
    v
}

/// The popups over the preview.
#[derive(Clone, Copy, Debug, PartialEq, Eq, Structural)]
pub enum Popup {
    NewNote,
    GlobalSearch,
    NewDir,
    Rename,
    DeleteDirConfirm,
    Help,
}

/// Which popups are open.
#[derive(Clone, Copy, Debug, PartialEq, Eq, Structural)]
pub struct OpenPopups {
    pub new_note: bool,
    pub global_search: bool,
    pub new_dir: bool,
    pub rename: bool,
    pub delete_dir_confirm: bool,
    pub help: bool,
}

/// The open popups in the order they are drawn, each over the ones before.
pub open spec fn popup_order(o: OpenPopups) -> Seq<Popup> {
    (if o.new_note { seq![Popup::NewNote] } else { Seq::empty() })
        + (if o.global_search { seq![Popup::GlobalSearch] } else { Seq::empty() })
        + (if o.new_dir { seq![Popup::NewDir] } else { Seq::empty() })
        + (if o.rename { seq![Popup::Rename] } else { Seq::empty() })
        + (if o.delete_dir_confirm { seq![Popup::DeleteDirConfirm] } else { Seq::empty() })
        + (if o.help { seq![Popup::Help] } else { Seq::empty() })
}

pub fn popups_to_draw(o: OpenPopups) -> (r: Vec<Popup>)
    ensures
        r@ == popup_order(o),
{
    let mut v: Vec<Popup> = Vec::new();
    if o.new_note {
        v.push(Popup::NewNote);
    }
    if o.global_search {
        v.push(Popup::GlobalSearch);
    }
    if o.new_dir {
        v.push(Popup::NewDir);
    }
    if o.rename {
        v.push(Popup::Rename);
    }
    if o.delete_dir_confirm {
        v.push(Popup::DeleteDirConfirm);
    }
    if o.help {
        v.push(Popup::Help);
    }
    assert(v@ =~= popup_order(o));
    v
}

/// Where the text cursor is shown.
#[derive(Clone, Copy, Debug, PartialEq, Eq, Structural)]
pub enum CursorPlace {
    /// In the popup, which takes the keys.
    InPopup(Popup),
    /// In the `/` prompt.
    SearchPrompt,
    /// In the `:` prompt.
    CommandPrompt,
    /// In the preview.
    Editor,
    /// Nowhere: a confirmation or the help is up, or the notes or links
    /// pane has the focus.
    Hidden,
}

/// The first open popup that takes typing has the cursor; the delete
/// confirmation and the help show none; then an open prompt; then the
/// preview when it has the focus.
pub open spec fn cursor_placed(o: OpenPopups, command_mode: bool, search_mode: bool, focus: FocusPane) -> CursorPlace {
    if o.new_note {
        CursorPlace::InPopup(Popup::NewNote)
    } else if o.global_search {
        CursorPlace::InPopup(Popup::GlobalSearch)
    } else if o.new_dir {
        CursorPlace::InPopup(Popup::NewDir)
    } else if o.rename {
        CursorPlace::InPopup(Popup::Rename)
    } else if o.delete_dir_confirm || o.help {
        CursorPlace::Hidden
    } else if command_mode || search_mode {
        if search_mode {
            CursorPlace::SearchPrompt
        } else {
            CursorPlace::CommandPrompt
        }
    } else if focus == FocusPane::Preview {
        CursorPlace::Editor
    } else {
        CursorPlace::Hidden
    }
}

pub fn cursor_place(o: OpenPopups, command_mode: bool, search_mode: bool, focus: FocusPane) -> (r: CursorPlace)
    ensures
        r == cursor_placed(o, command_mode, search_mode, focus),
{
    if o.new_note {
        CursorPlace::InPopup(Popup::NewNote)
    } else if o.global_search {
        CursorPlace::InPopup(Popup::GlobalSearch)
    } else if o.new_dir {
        CursorPlace::InPopup(Popup::NewDir)
    } else if o.rename {
        CursorPlace::InPopup(Popup::Rename)
    } else if o.delete_dir_confirm || o.help {
        CursorPlace::Hidden
    } else if command_mode || search_mode {
        if search_mode {
            CursorPlace::SearchPrompt
        } else {
            CursorPlace::CommandPrompt
        }
    } else if focus == FocusPane::Preview {
        CursorPlace::Editor
    } else {
        CursorPlace::Hidden
    }
}

/// The help popup's window on its lines: from the line scrolled to (no
/// further than leaves the last lines showing), as many as fit inside the
/// popup's frame.
pub open spec fn help_window(total: int, popup_height: int, scroll: int) -> (int, int) {
    let view = monus(popup_height, 2);
    let max_scroll = monus(total, view);
    let start = min_of(scroll, max_scroll);
    (start, min_of(view, total - start))
}

pub fn help_lines_shown(total: usize, popup_height: u16, scroll: usize) -> (r: (usize, usize))
    ensures
        (r.0 as int, r.1 as int) == help_window(total as int, popup_height as int, scroll as int),
{
    let view = popup_height.saturating_sub(2) as usize;
    let max_scroll = total.saturating_sub(view);
    let start = if scroll < max_scroll {
        scroll
    } else {
        max_scroll
    };
    let count = if view < total - start {
        view
    } else {
        total - start
    };
    (start, count)
}

/// A centred popup lies within the area it is centred in, when that area
/// ends within the `u16` range (as every area the terminal gives does).
pub proof fn lemma_centered_inside(area: Area, percent: u16, height: u16)
    requires
        area.x + area.width <= u16::MAX,
        area.y + area.height <= u16::MAX,
    ensures
        ({
            let p = centered(area, percent, height);
            &&& area.x <= p.x
            &&& p.x + p.width <= area.x + area.width
            &&& area.y <= p.y
            &&& p.y + p.height <= area.y + area.height
            &&& p.width as int == popup_width(area, percent)
            &&& p.height as int == popup_height(area, height)
        }),
{
}

/// The cursor put in the preview lies inside the preview's frame, past the
/// gutter, when the frame is at least eight cells wide.
pub proof fn lemma_editor_spot_inside(
    area: Area,
    ls: Seq<Seq<char>>,
    collapsed: Seq<usize>,
    scroll: u16,
    cursor_row: int,
    cursor_col: usize,
)
    requires
        area.width >= 8,
    ensures
        editor_spot(area, ls, collapsed, scroll, cursor_row, cursor_col) matches Some((x, y)) ==> {
            &&& area.x + 1 + GUTTER_WIDTH <= x <= area.x + area.width - 2
            &&& area.y + 1 <= y <= area.y + area.height - 2
        },
{
}

} // verus!
