//! The browser's panes and modes: which panes show, where the focus goes,
//! what the status line and the cursor say of the mode, counts typed before
//! a motion, and keeping the cursor on screen.
use vstd::prelude::*;
use crate::text::{chars_of, decimal, decimal_chars, string_of};

verus! {

broadcast use vstd::string::group_string_axioms;

/// The pane that takes the keys.
#[derive(Clone, Copy, Debug, PartialEq, Eq, Structural)]
pub enum FocusPane {
    Links,
    Preview,
    Notes,
}

/// The mode of the note buffer.
#[derive(Clone, Copy, Debug, PartialEq, Eq, Structural)]
pub enum EditorMode {
    Normal,
    Insert,
    Visual,
}

/// The panes that show, left to right: the notes pane when shown, the note
/// itself always, the links pane when shown.
pub open spec fn panes_shown(show_notes: bool, show_links: bool) -> Seq<FocusPane> {
    (if show_notes {
        seq![FocusPane::Notes]
    } else {
        Seq::<FocusPane>::empty()
    }) + seq![FocusPane::Preview] + (if show_links {
        seq![FocusPane::Links]
    } else {
        Seq::<FocusPane>::empty()
    })
}

pub fn visible_panes(show_notes: bool, show_links: bool) -> (r: Vec<FocusPane>)
    ensures
        r@ == panes_shown(show_notes, show_links),
{
    let mut panes: Vec<FocusPane> = Vec::new();
    if show_notes {
        panes.push(FocusPane::Notes);
    }
    panes.push(FocusPane::Preview);
    if show_links {
        panes.push(FocusPane::Links);
    }
    assert(panes@ =~= panes_shown(show_notes, show_links));
    panes
}

/// The place of the first `f` in `panes`, or -1.
pub open spec fn pane_pos(panes: Seq<FocusPane>, f: FocusPane) -> int
    decreases panes.len(),
{
    if panes.len() == 0 {
        -1
    } else if panes[0] == f {
        0
    } else {
        let r = pane_pos(panes.drop_first(), f);
        if r < 0 {
            -1
        } else {
            r + 1
        }
    }
}

/// The pane the focus moves to from `focus`, forward or back among
/// `panes`, round at the ends; from a pane that does not show, as from the
/// first.
pub open spec fn cycled(panes: Seq<FocusPane>, focus: FocusPane, forward: bool) -> FocusPane {
    if panes.len() == 0 {
        FocusPane::Preview
    } else {
        let cur = if pane_pos(panes, focus) < 0 {
            0
        } else {
            pane_pos(panes, focus)
        };
        let next = if forward {
            (cur + 1) % (panes.len() as int)
        } else if cur == 0 {
            panes.len() - 1
        } else {
            cur - 1
        };
        panes[next]
    }
}

proof fn lemma_pane_pos_bound(panes: Seq<FocusPane>, f: FocusPane)
    ensures
        -1 <= pane_pos(panes, f) < panes.len(),
        pane_pos(panes, f) >= 0 ==> panes[pane_pos(panes, f)] == f,
        pane_pos(panes, f) < 0 ==> !panes.contains(f),
    decreases panes.len(),
{
    if panes.len() > 0 && panes[0] != f {
        lemma_pane_pos_bound(panes.drop_first(), f);
        if pane_pos(panes, f) < 0 && panes.contains(f) {
            let k = choose|k: int| 0 <= k < panes.len() && panes[k] == f;
            assert(panes.drop_first()[k - 1] == f);
        }
    }
}

fn position_of(panes: &Vec<FocusPane>, f: FocusPane) -> (r: Option<usize>)
    ensures
        match r {
            Some(i) => pane_pos(panes@, f) == i as int,
            None => pane_pos(panes@, f) == -1,
        },
{
    let mut i: usize = 0;
    assert(panes@.skip(0) =~= panes@);
    while i < panes.len()
        invariant
            i <= panes@.len(),
            pane_pos(panes@, f) == if pane_pos(panes@.skip(i as int), f) < 0 {
                -1
            } else {
                pane_pos(panes@.skip(i as int), f) + i
            },
        decreases panes.len() - i,
    {
        assert(panes@.skip(i as int)[0] == panes@[i as int]);
        if panes[i] == f {
            return Some(i);
        }
        assert(panes@.skip(i as int).drop_first() =~= panes@.skip(i as int + 1));
        i = i + 1;
    }
    None
}

/// Moving the focus to the next (or previous) pane that shows.
pub fn cycle_focus(focus: FocusPane, show_notes: bool, show_links: bool, forward: bool) -> (r: FocusPane)
    ensures
        r == cycled(panes_shown(show_notes, show_links), focus, forward),
{
    let panes = visible_panes(show_notes, show_links);
    if panes.len() == 0 {
        return FocusPane::Preview;
    }
    proof {
        lemma_pane_pos_bound(panes@, focus);
    }
    let current = match position_of(&panes, focus) {
        Some(i) => i,
        None => 0,
    };
    let n = panes.len();
    let next = if forward {
        (current + 1) % n
    } else if current == 0 {
        n - 1
    } else {
        current - 1
    };
    panes[next]
}

proof fn lemma_pane_pos_at(panes: Seq<FocusPane>, f: FocusPane, i: int)
    requires
        0 <= i < panes.len(),
        panes[i] == f,
        panes.no_duplicates(),
    ensures
        pane_pos(panes, f) == i,
    decreases panes.len(),
{
    if i > 0 {
        assert(panes[0] != f);
        let t = panes.drop_first();
        assert(t[i - 1] == f);
        assert(t.no_duplicates()) by {
            assert forall|a: int, b: int| 0 <= a < t.len() && 0 <= b < t.len() && a != b implies t[a] != t[b] by {
                assert(t[a] == panes[a + 1] && t[b] == panes[b + 1]);
            }
        }
        lemma_pane_pos_at(t, f, i - 1);
    }
}

proof fn lemma_panes_distinct(show_notes: bool, show_links: bool)
    ensures
        panes_shown(show_notes, show_links).no_duplicates(),
        1 <= panes_shown(show_notes, show_links).len() <= 3,
{
    let ps = panes_shown(show_notes, show_links);
    if show_notes && show_links {
        assert(ps =~= seq![FocusPane::Notes, FocusPane::Preview, FocusPane::Links]);
    } else if show_notes {
        assert(ps =~= seq![FocusPane::Notes, FocusPane::Preview]);
    } else if show_links {
        assert(ps =~= seq![FocusPane::Preview, FocusPane::Links]);
    } else {
        assert(ps =~= seq![FocusPane::Preview]);
    }
}

/// Moving the focus forward and then back returns to the pane it was on,
/// when that pane shows; and so does moving back and then forward.
pub proof fn lemma_cycle_round_trip(focus: FocusPane, show_notes: bool, show_links: bool)
    requires
        panes_shown(show_notes, show_links).contains(focus),
    ensures
        cycled(panes_shown(show_notes, show_links), cycled(panes_shown(show_notes, show_links), focus, true), false) == focus,
        cycled(panes_shown(show_notes, show_links), cycled(panes_shown(show_notes, show_links), focus, false), true) == focus,
{
    let ps = panes_shown(show_notes, show_links);
    lemma_panes_distinct(show_notes, show_links);
    let n = ps.len() as int;
    let i = choose|i: int| 0 <= i < ps.len() && ps[i] == focus;
    lemma_pane_pos_at(ps, focus, i);
    let fwd = if i + 1 == n { 0 } else { i + 1 };
    assert((i + 1) % n == fwd) by (nonlinear_arith)
        requires
            0 <= i < n,
            fwd == if i + 1 == n { 0 } else { i + 1 },
    ;
    lemma_pane_pos_at(ps, ps[fwd], fwd);
    let back = if i == 0 { n - 1 } else { i - 1 };
    lemma_pane_pos_at(ps, ps[back], back);
    assert((back + 1) % n == i) by (nonlinear_arith)
        requires
            0 <= i < n,
            back == if i == 0 { n - 1 } else { i - 1 },
    ;
}

/// The focus once the panes that show are known: a pane that does not show
/// gives it to the note.
pub open spec fn focus_kept(focus: FocusPane, show_notes: bool, show_links: bool) -> FocusPane {
    if (focus == FocusPane::Notes && !show_notes) || (focus == FocusPane::Links && !show_links) {
        FocusPane::Preview
    } else {
        focus
    }
}

pub fn ensure_focus_visible(focus: FocusPane, show_notes: bool, show_links: bool) -> (r: FocusPane)
    ensures
        r == focus_kept(focus, show_notes, show_links),
{
    if (focus == FocusPane::Notes && !show_notes) || (focus == FocusPane::Links && !show_links) {
        FocusPane::Preview
    } else {
        focus
    }
}

/// Showing or hiding the notes pane: shown, it takes the focus; hidden, the
/// focus it had goes to the note. Gives whether it shows, the focus, and the
/// status line.
pub fn toggle_notes_panel(show_notes: bool, show_links: bool, focus: FocusPane) -> (r: (bool, FocusPane, &'static str))
    ensures
        r.0 == !show_notes,
        r.1 == focus_kept(
            if !show_notes {
                FocusPane::Notes
            } else if focus == FocusPane::Notes {
                FocusPane::Preview
            } else {
                focus
            },
            !show_notes,
            show_links,
        ),
        r.2@ == if !show_notes {
            "notes pane shown"@
        } else {
            "notes pane hidden"@
        },
{
    let shown = !show_notes;
    let (f, status) = if shown {
        (FocusPane::Notes, "notes pane shown")
    } else if focus == FocusPane::Notes {
        (FocusPane::Preview, "notes pane hidden")
    } else {
        (focus, "notes pane hidden")
    };
    (shown, ensure_focus_visible(f, shown, show_links), status)
}

/// Showing or hiding the links pane, as for the notes pane.
pub fn toggle_links_panel(show_notes: bool, show_links: bool, focus: FocusPane) -> (r: (bool, FocusPane, &'static str))
    ensures
        r.0 == !show_links,
        r.1 == focus_kept(
            if !show_links {
                FocusPane::Links
            } else if focus == FocusPane::Links {
                FocusPane::Preview
            } else {
                focus
            },
            show_notes,
            !show_links,
        ),
        r.2@ == if !show_links {
            "links pane shown"@
        } else {
            "links pane hidden"@
        },
{
    let shown = !show_links;
    let (f, status) = if shown {
        (FocusPane::Links, "links pane shown")
    } else if focus == FocusPane::Links {
        (FocusPane::Preview, "links pane hidden")
    } else {
        (focus, "links pane hidden")
    };
    (shown, ensure_focus_visible(f, show_notes, shown), status)
}

/// The mode the status line shows.
pub open spec fn mode_label(focus: FocusPane, notes_visual: bool, mode: EditorMode) -> Seq<char> {
    if focus == FocusPane::Notes && notes_visual {
        "NOTES-VISUAL"@
    } else {
        match mode {
            EditorMode::Normal => "NORMAL"@,
            EditorMode::Insert => "INSERT"@,
            EditorMode::Visual => "VISUAL"@,
        }
    }
}

pub fn editor_mode_label(focus: FocusPane, notes_visual: bool, mode: EditorMode) -> (r: &'static str)
    ensures
        r@ == mode_label(focus, notes_visual, mode),
{
    if focus == FocusPane::Notes && notes_visual {
        return "NOTES-VISUAL";
    }
    match mode {
        EditorMode::Normal => "NORMAL",
        EditorMode::Insert => "INSERT",
        EditorMode::Visual => "VISUAL",
    }
}

/// The shape of the cursor: a bar while a line is typed (a command, a
/// search, a popup's field) or in insert mode, an underscore in a visual
/// mode, else a block.
pub open spec fn cursor_style(typing: bool, focus: FocusPane, notes_visual: bool, mode: EditorMode) -> Seq<char> {
    if typing {
        "bar"@
    } else if focus == FocusPane::Notes && notes_visual {
        "underscore"@
    } else {
        match mode {
            EditorMode::Insert => "bar"@,
            EditorMode::Visual => "underscore"@,
            EditorMode::Normal => "block"@,
        }
    }
}

pub fn cursor_style_name(
    command_mode: bool,
    search_mode: bool,
    new_note_popup: bool,
    global_search_popup: bool,
    new_dir_popup: bool,
    focus: FocusPane,
    notes_visual: bool,
    mode: EditorMode,
) -> (r: &'static str)
    ensures
        r@ == cursor_style(
            command_mode || search_mode || new_note_popup || global_search_popup || new_dir_popup,
            focus,
            notes_visual,
            mode,
        ),
{
    if command_mode || search_mode || new_note_popup || global_search_popup || new_dir_popup {
        return "bar";
    }
    if focus == FocusPane::Notes && notes_visual {
        return "underscore";
    }
    match mode {
        EditorMode::Insert => "bar",
        EditorMode::Visual => "underscore",
        EditorMode::Normal => "block",
    }
}

// ---------------------------------------------------------------------------
// Counts before a motion
// ---------------------------------------------------------------------------

/// The count after digit `digit` is typed, read as a 32-bit number; none
/// when it is still zero (a leading `0` is a motion, not a count).
pub open spec fn count_after(count: Option<usize>, digit: u8) -> Option<usize> {
    let prev = match count {
        Some(c) => c as u32,
        None => 0u32,
    };
    let value = prev * 10 + digit;
    if value == 0 {
        None
    } else {
        Some(value as usize)
    }
}

pub fn push_motion_digit(count: Option<usize>, digit: u8) -> (r: Option<usize>)
    requires
        (match count {
            Some(c) => c as u32,
            None => 0u32,
        }) * 10 + digit <= u32::MAX,
    ensures
        r == count_after(count, digit),
{
    let prev: u32 = match count {
        Some(c) => c as u32,
        None => 0,
    };
    let value: u32 = prev * 10 + digit as u32;
    if value == 0 {
        None
    } else {
        Some(value as usize)
    }
}

/// What the status line says of a count.
pub fn count_status(count: usize) -> (r: String)
    ensures
        r@ == "count: "@ + decimal(count as nat),
{
    let mut s = String::from_str("count: ");
    let d = string_of(&decimal_chars(count));
    s.append(d.as_str());
    s
}

/// How many times a motion runs: the count typed, at least once.
pub fn take_motion_count(count: Option<usize>) -> (r: usize)
    ensures
        r == match count {
            Some(c) => if c == 0 {
                1
            } else {
                c
            },
            None => 1,
        },
{
    match count {
        Some(c) => if c == 0 {
            1
        } else {
            c
        },
        None => 1,
    }
}

// ---------------------------------------------------------------------------
// Keeping the cursor on screen
// ---------------------------------------------------------------------------

/// The first line on screen once the cursor's line (`cursor`, counted in
/// shown lines) is on a screen of `height` lines that started at `scroll`.
pub open spec fn scrolled_to(cursor: usize, scroll: u16, height: usize) -> u16 {
    if height == 0 {
        scroll
    } else if cursor < scroll {
        cursor as u16
    } else if cursor > scroll + height - 1 {
        (cursor - (height - 1)) as u16
    } else {
        scroll
    }
}

pub fn ensure_cursor_visible(cursor: usize, scroll: u16, height: usize) -> (r: u16)
    requires
        scroll + height <= usize::MAX,
    ensures
        r == scrolled_to(cursor, scroll, height),
{
    if height == 0 {
        return scroll;
    }
    let top = scroll as usize;
    let bottom = top + (height - 1);
    if cursor < top {
        #[verifier::truncate]
        (cursor as u16)
    } else if cursor > bottom {
        #[verifier::truncate]
        ((cursor - (height - 1)) as u16)
    } else {
        scroll
    }
}

/// `j` / `k` in the notes or links pane: the selection one row down (not
/// past the last of `len` rows) or up (not above the first).
pub fn list_moved(selected: usize, len: usize, down: bool) -> (r: usize)
    ensures
        r == if down {
            if selected + 1 < len {
                selected + 1
            } else {
                selected as int
            }
        } else if selected > 0 {
            selected - 1
        } else {
            0
        },
{
    if down {
        if selected < len && selected + 1 < len {
            selected + 1
        } else {
            selected
        }
    } else {
        selected.saturating_sub(1)
    }
}

} // verus!
