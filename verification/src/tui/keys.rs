//! What a key press means to the browser: the decisions of its key
//! handlers, from the state they read and the key to the state they leave
//! and the action the browser then carries out.
use vstd::prelude::*;
use crate::text::is_digit;
use crate::tui::panes::{count_after, push_motion_digit, take_motion_count, EditorMode, FocusPane};

verus! {

/// The key of a key press.
#[derive(Clone, Copy, Debug, PartialEq, Eq)]
pub enum Key {
    Char(char),
    Esc,
    Enter,
    Backspace,
    Delete,
    Left,
    Right,
    Up,
    Down,
    Tab,
    BackTab,
    PageUp,
    PageDown,
    Home,
    Other,
}

/// A key press: the key, and whether Control, Alt or Shift was held.
#[derive(Clone, Copy, Debug, PartialEq, Eq)]
pub struct KeyPress {
    pub code: Key,
    pub ctrl: bool,
    pub alt: bool,
    pub shift: bool,
}

/// A cursor motion.
#[derive(Clone, Copy, Debug, PartialEq, Eq)]
pub enum Motion {
    Left,
    Right,
    Down,
    Up,
    WordBackward,
    WordForward,
    WordEnd,
}

/// The value of a decimal digit.
pub open spec fn digit_value(c: char) -> u8 {
    (c as int - '0' as int) as u8
}

fn digit_of(c: char) -> (d: u8)
    requires
        is_digit(c),
    ensures
        d == digit_value(c),
{
    if c == '0' {
        0
    } else if c == '1' {
        1
    } else if c == '2' {
        2
    } else if c == '3' {
        3
    } else if c == '4' {
        4
    } else if c == '5' {
        5
    } else if c == '6' {
        6
    } else if c == '7' {
        7
    } else if c == '8' {
        8
    } else {
        9
    }
}

/// The count a motion runs with: the count typed, at least once.
pub open spec fn taken(count: Option<usize>) -> usize {
    match count {
        Some(c) => if c == 0 {
            1
        } else {
            c
        },
        None => 1,
    }
}

/// Whether typing digit `c` keeps the count within 32 bits.
pub open spec fn digit_fits(count: Option<usize>, c: char) -> bool {
    is_digit(c) ==> (match count {
        Some(n) => n as u32,
        None => 0u32,
    }) * 10 + digit_value(c) <= u32::MAX
}

// ---------------------------------------------------------------------------
// Normal mode in the note
// ---------------------------------------------------------------------------

/// What a key does in normal mode in the note.
#[derive(Clone, Copy, Debug, PartialEq, Eq)]
pub enum NormalAction {
    /// `db`, `dw`, `de`: delete what the motion passes over, `count` times
    /// moved; the end is kept out unless `inclusive`.
    DeleteMotion(Motion, usize, bool),
    /// A digit that made the count this.
    CountDigit(usize),
    /// `0`: to the start of the line.
    LineStart,
    /// Esc: drop what was typed ahead and the selection.
    Escape,
    /// `:`: open the command line.
    Command,
    /// A motion, run this many times.
    Move(Motion, usize),
    /// `n` (forward) or `N`: find the last search again.
    SearchNext(bool),
    /// `$`: to the end of the line.
    LineEnd,
    /// `i`.
    Insert,
    /// `v`.
    Visual,
    /// `V`.
    VisualLine,
    /// `u`.
    Undo,
    /// `p`.
    Paste,
    /// `z`: fold or unfold the heading's section.
    ToggleFold,
    /// `a`: insert after the cursor's character.
    Append,
    /// `A`: insert at the end of the line.
    AppendEnd,
    /// `I`: insert before the line's first non-blank.
    InsertAtIndent,
    /// `o`: open a line below.
    OpenBelow,
    /// `O`: open a line above.
    OpenAbove,
    /// `x`: delete the character under the cursor.
    DeleteChar,
    /// `dd`: delete this many lines.
    DeleteLines(usize),
    /// `d`: wait for a motion.
    PendDelete,
    /// `yy`: yank this many lines.
    YankLines(usize),
    /// `y`: wait for a second `y`.
    PendYank,
    /// Not a key of the note's normal mode.
    Unhandled,
}

/// A decision: the action, and the operator and count left pending.
#[derive(Clone, Copy, Debug, PartialEq, Eq)]
pub struct NormalStep {
    pub action: NormalAction,
    pub pending_op: Option<char>,
    pub count: Option<usize>,
}

pub open spec fn step(action: NormalAction, pending_op: Option<char>, count: Option<usize>) -> NormalStep {
    NormalStep { action, pending_op, count }
}

/// The motion of a motion key, if it is one.
pub open spec fn motion_key(code: Key) -> Option<Motion> {
    match code {
        Key::Char('h') | Key::Left => Some(Motion::Left),
        Key::Char('l') | Key::Right => Some(Motion::Right),
        Key::Char('j') | Key::Down => Some(Motion::Down),
        Key::Char('k') | Key::Up => Some(Motion::Up),
        Key::Char('b') => Some(Motion::WordBackward),
        Key::Char('e') => Some(Motion::WordEnd),
        Key::Char('w') => Some(Motion::WordForward),
        _ => None,
    }
}

/// A digit typed as a count: the count it makes, or `0` to the line's start
/// when no count was typed; none for other keys.
pub open spec fn digit_step(pending: Option<char>, count: Option<usize>, code: Key) -> Option<NormalStep> {
    match code {
        Key::Char(c) => if is_digit(c) {
            match count_after(count, digit_value(c)) {
                Some(n) => Some(step(NormalAction::CountDigit(n), None, Some(n))),
                None => if digit_value(c) == 0 && count is None {
                    Some(step(NormalAction::LineStart, pending, count))
                } else {
                    None
                },
            }
        } else {
            None
        },
        _ => None,
    }
}

/// The decision of normal mode in the note for a key, given the operator
/// pending (`d` or `y`) and the count typed so far.
pub open spec fn normal_step(pending: Option<char>, count: Option<usize>, key: KeyPress) -> NormalStep {
    let code = key.code;
    if pending == Some('d') && (code == Key::Char('b') || code == Key::Char('w') || code == Key::Char('e')) {
        step(NormalAction::DeleteMotion(motion_key(code).unwrap(), taken(count), code == Key::Char('e')), None, None)
    } else if digit_step(pending, count, code) is Some {
        digit_step(pending, count, code).unwrap()
    } else if motion_key(code) is Some {
        step(NormalAction::Move(motion_key(code).unwrap(), taken(count)), None, None)
    } else {
        match code {
            Key::Esc => step(NormalAction::Escape, None, None),
            Key::Char(':') => step(NormalAction::Command, None, count),
            Key::Char('n') => step(NormalAction::SearchNext(true), pending, count),
            Key::Char('N') => step(NormalAction::SearchNext(false), pending, count),
            Key::Char('0') => step(NormalAction::LineStart, None, count),
            Key::Char('$') => step(NormalAction::LineEnd, None, count),
            Key::Char('i') => step(NormalAction::Insert, None, count),
            Key::Char('v') => step(NormalAction::Visual, None, count),
            Key::Char('V') => step(NormalAction::VisualLine, None, count),
            Key::Char('u') => step(NormalAction::Undo, None, count),
            Key::Char('p') => step(NormalAction::Paste, None, count),
            Key::Char('z') => step(NormalAction::ToggleFold, pending, count),
            Key::Char('a') => step(NormalAction::Append, None, count),
            Key::Char('A') => step(NormalAction::AppendEnd, None, count),
            Key::Char('I') => step(NormalAction::InsertAtIndent, None, count),
            Key::Char('o') => step(NormalAction::OpenBelow, None, count),
            Key::Char('O') => step(NormalAction::OpenAbove, None, count),
            Key::Char('x') => step(NormalAction::DeleteChar, None, count),
            Key::Char('d') => if pending == Some('d') {
                step(NormalAction::DeleteLines(taken(count)), None, None)
            } else {
                step(NormalAction::PendDelete, Some('d'), count)
            },
            Key::Char('y') => if pending == Some('y') {
                step(NormalAction::YankLines(taken(count)), None, None)
            } else {
                step(NormalAction::PendYank, Some('y'), count)
            },
            _ => step(NormalAction::Unhandled, None, count),
        }
    }
}

fn motion_of(code: Key) -> (r: Option<Motion>)
    ensures
        r == motion_key(code),
{
    match code {
        Key::Char('h') | Key::Left => Some(Motion::Left),
        Key::Char('l') | Key::Right => Some(Motion::Right),
        Key::Char('j') | Key::Down => Some(Motion::Down),
        Key::Char('k') | Key::Up => Some(Motion::Up),
        Key::Char('b') => Some(Motion::WordBackward),
        Key::Char('e') => Some(Motion::WordEnd),
        Key::Char('w') => Some(Motion::WordForward),
        _ => None,
    }
}

fn digit_decision(pending: Option<char>, count: Option<usize>, code: Key) -> (r: Option<NormalStep>)
    requires
        code matches Key::Char(c) ==> digit_fits(count, c),
    ensures
        r == digit_step(pending, count, code),
{
    match code {
        Key::Char(c) => {
            if !crate::text::is_ascii_digit(c) {
                return None;
            }
            let d = digit_of(c);
            match push_motion_digit(count, d) {
                Some(n) => Some(NormalStep { action: NormalAction::CountDigit(n), pending_op: None, count: Some(n) }),
                None => if d == 0 && count.is_none() {
                    Some(NormalStep { action: NormalAction::LineStart, pending_op: pending, count })
                } else {
                    None
                },
            }
        },
        _ => None,
    }
}

fn is_char(code: Key, c: char) -> (b: bool)
    ensures
        b == (code == Key::Char(c)),
{
    match code {
        Key::Char(x) => x == c,
        _ => false,
    }
}

/// Deciding a key in normal mode in the note.
pub fn handle_preview_normal_key(pending: Option<char>, count: Option<usize>, key: KeyPress) -> (r: NormalStep)
    requires
        key.code matches Key::Char(c) ==> digit_fits(count, c),
    ensures
        r == normal_step(pending, count, key),
{
    let code = key.code;
    let pending_d = match pending {
        Some(p) => p == 'd',
        None => false,
    };
    if pending_d && (is_char(code, 'b') || is_char(code, 'w') || is_char(code, 'e')) {
        let m = match motion_of(code) {
            Some(m) => m,
            None => Motion::Left,
        };
        return NormalStep {
            action: NormalAction::DeleteMotion(m, take_motion_count(count), is_char(code, 'e')),
            pending_op: None,
            count: None,
        };
    }
    match digit_decision(pending, count, code) {
        Some(s) => {
            return s;
        },
        None => {},
    }
    match motion_of(code) {
        Some(m) => {
            return NormalStep { action: NormalAction::Move(m, take_motion_count(count)), pending_op: None, count: None };
        },
        None => {},
    }
    let (action, next) = match code {
        Key::Esc => {
            return NormalStep { action: NormalAction::Escape, pending_op: None, count: None };
        },
        Key::Char(':') => (NormalAction::Command, None),
        Key::Char('n') => (NormalAction::SearchNext(true), pending),
        Key::Char('N') => (NormalAction::SearchNext(false), pending),
        Key::Char('0') => (NormalAction::LineStart, None),
        Key::Char('$') => (NormalAction::LineEnd, None),
        Key::Char('i') => (NormalAction::Insert, None),
        Key::Char('v') => (NormalAction::Visual, None),
        Key::Char('V') => (NormalAction::VisualLine, None),
        Key::Char('u') => (NormalAction::Undo, None),
        Key::Char('p') => (NormalAction::Paste, None),
        Key::Char('z') => (NormalAction::ToggleFold, pending),
        Key::Char('a') => (NormalAction::Append, None),
        Key::Char('A') => (NormalAction::AppendEnd, None),
        Key::Char('I') => (NormalAction::InsertAtIndent, None),
        Key::Char('o') => (NormalAction::OpenBelow, None),
        Key::Char('O') => (NormalAction::OpenAbove, None),
        Key::Char('x') => (NormalAction::DeleteChar, None),
        Key::Char('d') => {
            if pending_d {
                return NormalStep {
                    action: NormalAction::DeleteLines(take_motion_count(count)),
                    pending_op: None,
                    count: None,
                };
            }
            (NormalAction::PendDelete, Some('d'))
        },
        Key::Char('y') => {
            let pending_y = match pending {
                Some(p) => p == 'y',
                None => false,
            };
            if pending_y {
                return NormalStep {
                    action: NormalAction::YankLines(take_motion_count(count)),
                    pending_op: None,
                    count: None,
                };
            }
            (NormalAction::PendYank, Some('y'))
        },
        _ => (NormalAction::Unhandled, None),
    };
    NormalStep { action, pending_op: next, count }
}

// ---------------------------------------------------------------------------
// Visual mode in the note
// ---------------------------------------------------------------------------

/// What a key does in visual mode.
#[derive(Clone, Copy, Debug, PartialEq, Eq)]
pub enum VisualAction {
    CountDigit(usize),
    LineStart,
    /// Esc or `v`: back to normal mode.
    Exit,
    /// `V`: select whole lines.
    VisualLine,
    Command,
    Move(Motion, usize),
    LineEnd,
    /// `d` or `x`.
    DeleteSelection,
    /// `y`.
    YankSelection,
    Undo,
    Nothing,
}

#[derive(Clone, Copy, Debug, PartialEq, Eq)]
pub struct VisualStep {
    pub action: VisualAction,
    pub pending_op: Option<char>,
    pub count: Option<usize>,
}

/// The decision of visual mode for a key: as normal mode for digits and
/// for the motions other than `w`.
pub open spec fn visual_step(pending: Option<char>, count: Option<usize>, key: KeyPress) -> VisualStep {
    let code = key.code;
    match digit_step(pending, count, code) {
        Some(ns) => VisualStep {
            action: match ns.action {
                NormalAction::CountDigit(n) => VisualAction::CountDigit(n),
                _ => VisualAction::LineStart,
            },
            pending_op: ns.pending_op,
            count: ns.count,
        },
        None => if motion_key(code) is Some && code != Key::Char('w') {
            VisualStep { action: VisualAction::Move(motion_key(code).unwrap(), taken(count)), pending_op: pending, count: None }
        } else {
            let a = match code {
                Key::Esc | Key::Char('v') => VisualAction::Exit,
                Key::Char('V') => VisualAction::VisualLine,
                Key::Char(':') => VisualAction::Command,
                Key::Char('0') => VisualAction::LineStart,
                Key::Char('$') => VisualAction::LineEnd,
                Key::Char('d') | Key::Char('x') => VisualAction::DeleteSelection,
                Key::Char('y') => VisualAction::YankSelection,
                Key::Char('u') => VisualAction::Undo,
                _ => VisualAction::Nothing,
            };
            VisualStep { action: a, pending_op: pending, count }
        },
    }
}

/// Deciding a key in visual mode.
pub fn handle_visual_mode_key(pending: Option<char>, count: Option<usize>, key: KeyPress) -> (r: VisualStep)
    requires
        key.code matches Key::Char(c) ==> digit_fits(count, c),
    ensures
        r == visual_step(pending, count, key),
{
    let code = key.code;
    match digit_decision(pending, count, code) {
        Some(ns) => {
            let action = match ns.action {
                NormalAction::CountDigit(n) => VisualAction::CountDigit(n),
                _ => VisualAction::LineStart,
            };
            return VisualStep { action, pending_op: ns.pending_op, count: ns.count };
        },
        None => {},
    }
    match motion_of(code) {
        Some(m) => {
            if !is_char(code, 'w') {
                return VisualStep { action: VisualAction::Move(m, take_motion_count(count)), pending_op: pending, count: None };
            }
        },
        None => {},
    }
    let a = match code {
        Key::Esc | Key::Char('v') => VisualAction::Exit,
        Key::Char('V') => VisualAction::VisualLine,
        Key::Char(':') => VisualAction::Command,
        Key::Char('0') => VisualAction::LineStart,
        Key::Char('$') => VisualAction::LineEnd,
        Key::Char('d') | Key::Char('x') => VisualAction::DeleteSelection,
        Key::Char('y') => VisualAction::YankSelection,
        Key::Char('u') => VisualAction::Undo,
        _ => VisualAction::Nothing,
    };
    VisualStep { action: a, pending_op: pending, count }
}

// ---------------------------------------------------------------------------
// Insert mode in the note
// ---------------------------------------------------------------------------

/// What a key does in insert mode.
#[derive(Clone, Copy, Debug, PartialEq, Eq)]
pub enum InsertAction {
    /// Esc: back to normal mode, one character left.
    ExitInsert,
    /// Enter: break the line.
    SplitLine,
    Backspace,
    Delete,
    Move(Motion),
    InsertChar(char),
    Nothing,
}

/// The decision of insert mode: a character typed without Control or Alt
/// goes in; Tab does nothing.
pub open spec fn insert_step(key: KeyPress) -> InsertAction {
    match key.code {
        Key::Esc => InsertAction::ExitInsert,
        Key::Enter => InsertAction::SplitLine,
        Key::Backspace => InsertAction::Backspace,
        Key::Delete => InsertAction::Delete,
        Key::Left => InsertAction::Move(Motion::Left),
        Key::Right => InsertAction::Move(Motion::Right),
        Key::Up => InsertAction::Move(Motion::Up),
        Key::Down => InsertAction::Move(Motion::Down),
        Key::Char(c) => if !key.ctrl && !key.alt {
            InsertAction::InsertChar(c)
        } else {
            InsertAction::Nothing
        },
        _ => InsertAction::Nothing,
    }
}

pub fn handle_insert_mode_key(key: KeyPress) -> (r: InsertAction)
    ensures
        r == insert_step(key),
{
    match key.code {
        Key::Esc => InsertAction::ExitInsert,
        Key::Enter => InsertAction::SplitLine,
        Key::Backspace => InsertAction::Backspace,
        Key::Delete => InsertAction::Delete,
        Key::Left => InsertAction::Move(Motion::Left),
        Key::Right => InsertAction::Move(Motion::Right),
        Key::Up => InsertAction::Move(Motion::Up),
        Key::Down => InsertAction::Move(Motion::Down),
        Key::Char(c) => if !key.ctrl && !key.alt {
            InsertAction::InsertChar(c)
        } else {
            InsertAction::Nothing
        },
        _ => InsertAction::Nothing,
    }
}

// ---------------------------------------------------------------------------
// The leader key
// ---------------------------------------------------------------------------

/// What the leader (space) does.
#[derive(Clone, Copy, Debug, PartialEq, Eq)]
pub enum LeaderAction {
    /// Space, then `e`.
    ToggleNotes,
    /// Space, then `b`.
    ToggleLinks,
    /// Space twice: the second is swallowed.
    Swallow,
    /// Space: wait for the next key.
    Arm,
}

/// The leader's decision: the action when the key is the leader's (none
/// when it is not), and whether a leader is pending after it.
pub open spec fn leader_step(pending: bool, key: KeyPress) -> (Option<LeaderAction>, bool) {
    if key.ctrl || key.alt {
        (None, false)
    } else if pending {
        (
            match key.code {
                Key::Char('e') => Some(LeaderAction::ToggleNotes),
                Key::Char('b') => Some(LeaderAction::ToggleLinks),
                Key::Char(' ') => Some(LeaderAction::Swallow),
                _ => None,
            },
            false,
        )
    } else if key.code == Key::Char(' ') {
        (Some(LeaderAction::Arm), true)
    } else {
        (None, pending)
    }
}

pub fn handle_leader_key(pending: bool, key: KeyPress) -> (r: (Option<LeaderAction>, bool))
    ensures
        r == leader_step(pending, key),
{
    if key.ctrl || key.alt {
        return (None, false);
    }
    if pending {
        let a = match key.code {
            Key::Char('e') => Some(LeaderAction::ToggleNotes),
            Key::Char('b') => Some(LeaderAction::ToggleLinks),
            Key::Char(' ') => Some(LeaderAction::Swallow),
            _ => None,
        };
        return (a, false);
    }
    if is_char(key.code, ' ') {
        (Some(LeaderAction::Arm), true)
    } else {
        (None, pending)
    }
}

// ---------------------------------------------------------------------------
// Keys for the panes
// ---------------------------------------------------------------------------

/// What a key does for the panes once no mode took it.
#[derive(Clone, Copy, Debug, PartialEq, Eq)]
pub enum PaneAction {
    ExitNotesVisual,
    EnterNotesVisual,
    CycleForward,
    CycleBack,
    OpenCommand,
    /// `/`: search in the note (`true`) or in the notes pane.
    OpenSearch(bool),
    ActivateRow,
    OpenLink,
    ExpandDir,
    CollapseDir,
    MoveDown,
    MoveUp,
    PromptDeleteDir,
    DeleteNote,
    CutSelection,
    PasteCut,
    Reload,
    Nothing,
}

pub open spec fn pane_step(focus: FocusPane, notes_visual: bool, selected_is_dir: bool, key: KeyPress) -> PaneAction {
    let notes = focus == FocusPane::Notes;
    match key.code {
        Key::Esc => if notes && notes_visual {
            PaneAction::ExitNotesVisual
        } else {
            PaneAction::Nothing
        },
        Key::Tab => PaneAction::CycleForward,
        Key::BackTab => PaneAction::CycleBack,
        Key::Char(':') => PaneAction::OpenCommand,
        Key::Char('/') => PaneAction::OpenSearch(focus == FocusPane::Preview),
        Key::Enter => match focus {
            FocusPane::Notes => PaneAction::ActivateRow,
            FocusPane::Links => PaneAction::OpenLink,
            FocusPane::Preview => PaneAction::Nothing,
        },
        Key::Right | Key::Char('l') => if notes {
            PaneAction::ExpandDir
        } else {
            PaneAction::Nothing
        },
        Key::Left | Key::Char('h') => if notes {
            PaneAction::CollapseDir
        } else {
            PaneAction::Nothing
        },
        Key::Down | Key::Char('j') => PaneAction::MoveDown,
        Key::Up | Key::Char('k') => PaneAction::MoveUp,
        Key::Char('D') => if !notes {
            PaneAction::Nothing
        } else if selected_is_dir {
            PaneAction::PromptDeleteDir
        } else {
            PaneAction::DeleteNote
        },
        Key::Char('v') => if !notes {
            PaneAction::Nothing
        } else if notes_visual {
            PaneAction::ExitNotesVisual
        } else {
            PaneAction::EnterNotesVisual
        },
        Key::Char('x') => if notes {
            PaneAction::CutSelection
        } else {
            PaneAction::Nothing
        },
        Key::Char('p') => if notes {
            PaneAction::PasteCut
        } else {
            PaneAction::Nothing
        },
        Key::Char('r') => PaneAction::Reload,
        _ => PaneAction::Nothing,
    }
}

pub fn pane_key(focus: FocusPane, notes_visual: bool, selected_is_dir: bool, key: KeyPress) -> (r: PaneAction)
    ensures
        r == pane_step(focus, notes_visual, selected_is_dir, key),
{
    let notes = focus == FocusPane::Notes;
    match key.code {
        Key::Esc => if notes && notes_visual {
            PaneAction::ExitNotesVisual
        } else {
            PaneAction::Nothing
        },
        Key::Tab => PaneAction::CycleForward,
        Key::BackTab => PaneAction::CycleBack,
        Key::Char(':') => PaneAction::OpenCommand,
        Key::Char('/') => PaneAction::OpenSearch(focus == FocusPane::Preview),
        Key::Enter => match focus {
            FocusPane::Notes => PaneAction::ActivateRow,
            FocusPane::Links => PaneAction::OpenLink,
            FocusPane::Preview => PaneAction::Nothing,
        },
        Key::Right | Key::Char('l') => if notes {
            PaneAction::ExpandDir
        } else {
            PaneAction::Nothing
        },
        Key::Left | Key::Char('h') => if notes {
            PaneAction::CollapseDir
        } else {
            PaneAction::Nothing
        },
        Key::Down | Key::Char('j') => PaneAction::MoveDown,
        Key::Up | Key::Char('k') => PaneAction::MoveUp,
        Key::Char('D') => if !notes {
            PaneAction::Nothing
        } else if selected_is_dir {
            PaneAction::PromptDeleteDir
        } else {
            PaneAction::DeleteNote
        },
        Key::Char('v') => if !notes {
            PaneAction::Nothing
        } else if notes_visual {
            PaneAction::ExitNotesVisual
        } else {
            PaneAction::EnterNotesVisual
        },
        Key::Char('x') => if notes {
            PaneAction::CutSelection
        } else {
            PaneAction::Nothing
        },
        Key::Char('p') => if notes {
            PaneAction::PasteCut
        } else {
            PaneAction::Nothing
        },
        Key::Char('r') => PaneAction::Reload,
        _ => PaneAction::Nothing,
    }
}

// ---------------------------------------------------------------------------
// Where a key goes
// ---------------------------------------------------------------------------

/// What the browser's key handling reads of its state.
#[derive(Clone, Copy, Debug, PartialEq, Eq)]
pub struct KeyContext {
    pub new_note_popup: bool,
    pub global_search_popup: bool,
    pub new_dir_popup: bool,
    pub rename_popup: bool,
    pub delete_dir_confirm_popup: bool,
    pub help_popup: bool,
    pub command_mode: bool,
    pub search_mode: bool,
    pub mode: EditorMode,
    pub focus: FocusPane,
    pub pending_leader: bool,
    /// Whether notes are cut and wait to be pasted.
    pub has_cut: bool,
    pub notes_visual: bool,
    /// Whether the notes pane's selected row is a directory's.
    pub selected_is_dir: bool,
    pub pending_op: Option<char>,
    pub count: Option<usize>,
}

/// Where a key goes.
#[derive(Clone, Copy, Debug, PartialEq, Eq)]
pub enum KeyRoute {
    /// To the open popup or input line, in this order of precedence.
    NewNotePopup,
    GlobalSearchPopup,
    NewDirPopup,
    RenamePopup,
    DeleteDirConfirm,
    HelpPopup,
    CommandLine,
    SearchLine,
    Leader(LeaderAction),
    /// Control-S.
    Save,
    /// Control-R.
    OpenRename,
    /// Control-N.
    OpenNewNote,
    /// Control-F.
    OpenGlobalSearch,
    /// Control-D.
    OpenNewDir,
    Insert(InsertAction),
    /// `p` in the note while notes are cut.
    PasteCut,
    /// `?` in normal mode.
    OpenHelp,
    Visual(VisualAction),
    Normal(NormalAction),
    Pane(PaneAction),
}

/// A key's route, and the leader, operator and count left pending.
#[derive(Clone, Copy, Debug, PartialEq, Eq)]
pub struct KeyOutcome {
    pub route: KeyRoute,
    pub pending_leader: bool,
    pub pending_op: Option<char>,
    pub count: Option<usize>,
}

pub open spec fn outcome(route: KeyRoute, pending_leader: bool, pending_op: Option<char>, count: Option<usize>) -> KeyOutcome {
    KeyOutcome { route, pending_leader, pending_op, count }
}

pub open spec fn ctrl_char(key: KeyPress, c: char) -> bool {
    key.ctrl && key.code == Key::Char(c)
}

/// Where a key goes: an open popup or input line takes it; else, in normal
/// mode, the leader; else the Control shortcuts; else the note's insert
/// mode; a paste of cut notes; help; the note's visual or normal mode; and
/// what is left goes to the panes.
pub open spec fn key_outcome(ctx: KeyContext, key: KeyPress) -> KeyOutcome {
    let pl = ctx.pending_leader;
    let po = ctx.pending_op;
    let n = ctx.count;
    if ctx.new_note_popup {
        outcome(KeyRoute::NewNotePopup, pl, po, n)
    } else if ctx.global_search_popup {
        outcome(KeyRoute::GlobalSearchPopup, pl, po, n)
    } else if ctx.new_dir_popup {
        outcome(KeyRoute::NewDirPopup, pl, po, n)
    } else if ctx.rename_popup {
        outcome(KeyRoute::RenamePopup, pl, po, n)
    } else if ctx.delete_dir_confirm_popup {
        outcome(KeyRoute::DeleteDirConfirm, pl, po, n)
    } else if ctx.help_popup {
        outcome(KeyRoute::HelpPopup, pl, po, n)
    } else if ctx.command_mode {
        outcome(KeyRoute::CommandLine, pl, po, n)
    } else if ctx.search_mode {
        outcome(KeyRoute::SearchLine, pl, po, n)
    } else {
        let lead = if ctx.mode == EditorMode::Normal {
            leader_step(pl, key)
        } else {
            (None, pl)
        };
        let pl2 = lead.1;
        if lead.0 is Some {
            outcome(KeyRoute::Leader(lead.0.unwrap()), pl2, po, n)
        } else if ctrl_char(key, 's') {
            outcome(KeyRoute::Save, pl2, po, n)
        } else if ctrl_char(key, 'r') {
            outcome(KeyRoute::OpenRename, pl2, po, n)
        } else if ctrl_char(key, 'n') {
            outcome(KeyRoute::OpenNewNote, pl2, po, n)
        } else if ctrl_char(key, 'f') {
            outcome(KeyRoute::OpenGlobalSearch, pl2, po, n)
        } else if ctrl_char(key, 'D') || ctrl_char(key, 'd') {
            outcome(KeyRoute::OpenNewDir, pl2, po, n)
        } else if ctx.focus == FocusPane::Preview && ctx.mode == EditorMode::Insert {
            outcome(KeyRoute::Insert(insert_step(key)), pl2, po, n)
        } else if ctx.focus == FocusPane::Preview && key.code == Key::Char('p') && ctx.has_cut {
            outcome(KeyRoute::PasteCut, pl2, po, n)
        } else if ctx.mode == EditorMode::Normal && !key.ctrl && !key.alt && key.code == Key::Char('?') {
            outcome(KeyRoute::OpenHelp, false, po, n)
        } else if ctx.focus == FocusPane::Preview && ctx.mode == EditorMode::Visual {
            let vs = visual_step(po, n, key);
            outcome(KeyRoute::Visual(vs.action), pl2, vs.pending_op, vs.count)
        } else {
            let (po3, n3, normal) = if ctx.focus == FocusPane::Preview {
                let ns = normal_step(po, n, key);
                (ns.pending_op, ns.count, if ns.action == NormalAction::Unhandled {
                    None
                } else {
                    Some(ns.action)
                })
            } else {
                (po, n, None)
            };
            match normal {
                Some(a) => outcome(KeyRoute::Normal(a), pl2, po3, n3),
                None => {
                    let pa = pane_step(ctx.focus, ctx.notes_visual, ctx.selected_is_dir, key);
                    outcome(KeyRoute::Pane(pa), if pa == PaneAction::OpenCommand {
                        false
                    } else {
                        pl2
                    }, po3, n3)
                },
            }
        }
    }
}

fn ctrl_is(key: KeyPress, c: char) -> (b: bool)
    ensures
        b == ctrl_char(key, c),
{
    key.ctrl && is_char(key.code, c)
}

/// Deciding where a key goes.
pub fn on_key(ctx: KeyContext, key: KeyPress) -> (r: KeyOutcome)
    requires
        key.code matches Key::Char(c) ==> digit_fits(ctx.count, c),
    ensures
        r == key_outcome(ctx, key),
{
    let pl = ctx.pending_leader;
    let po = ctx.pending_op;
    let n = ctx.count;
    let route = if ctx.new_note_popup {
        Some(KeyRoute::NewNotePopup)
    } else if ctx.global_search_popup {
        Some(KeyRoute::GlobalSearchPopup)
    } else if ctx.new_dir_popup {
        Some(KeyRoute::NewDirPopup)
    } else if ctx.rename_popup {
        Some(KeyRoute::RenamePopup)
    } else if ctx.delete_dir_confirm_popup {
        Some(KeyRoute::DeleteDirConfirm)
    } else if ctx.help_popup {
        Some(KeyRoute::HelpPopup)
    } else if ctx.command_mode {
        Some(KeyRoute::CommandLine)
    } else if ctx.search_mode {
        Some(KeyRoute::SearchLine)
    } else {
        None
    };
    match route {
        Some(rt) => {
            return KeyOutcome { route: rt, pending_leader: pl, pending_op: po, count: n };
        },
        None => {},
    }
    let normal_mode = match ctx.mode {
        EditorMode::Normal => true,
        _ => false,
    };
    let (lead, pl2) = if normal_mode {
        handle_leader_key(pl, key)
    } else {
        (None, pl)
    };
    match lead {
        Some(a) => {
            return KeyOutcome { route: KeyRoute::Leader(a), pending_leader: pl2, pending_op: po, count: n };
        },
        None => {},
    }
    let shortcut = if ctrl_is(key, 's') {
        Some(KeyRoute::Save)
    } else if ctrl_is(key, 'r') {
        Some(KeyRoute::OpenRename)
    } else if ctrl_is(key, 'n') {
        Some(KeyRoute::OpenNewNote)
    } else if ctrl_is(key, 'f') {
        Some(KeyRoute::OpenGlobalSearch)
    } else if ctrl_is(key, 'D') || ctrl_is(key, 'd') {
        Some(KeyRoute::OpenNewDir)
    } else {
        None
    };
    match shortcut {
        Some(rt) => {
            return KeyOutcome { route: rt, pending_leader: pl2, pending_op: po, count: n };
        },
        None => {},
    }
    let preview = match ctx.focus {
        FocusPane::Preview => true,
        _ => false,
    };
    let insert = match ctx.mode {
        EditorMode::Insert => true,
        _ => false,
    };
    let visual = match ctx.mode {
        EditorMode::Visual => true,
        _ => false,
    };
    if preview && insert {
        return KeyOutcome {
            route: KeyRoute::Insert(handle_insert_mode_key(key)),
            pending_leader: pl2,
            pending_op: po,
            count: n,
        };
    }
    if preview && is_char(key.code, 'p') && ctx.has_cut {
        return KeyOutcome { route: KeyRoute::PasteCut, pending_leader: pl2, pending_op: po, count: n };
    }
    if normal_mode && !key.ctrl && !key.alt && is_char(key.code, '?') {
        return KeyOutcome { route: KeyRoute::OpenHelp, pending_leader: false, pending_op: po, count: n };
    }
    if preview && visual {
        let vs = handle_visual_mode_key(po, n, key);
        return KeyOutcome {
            route: KeyRoute::Visual(vs.action),
            pending_leader: pl2,
            pending_op: vs.pending_op,
            count: vs.count,
        };
    }
    let (po3, n3) = if preview {
        let ns = handle_preview_normal_key(po, n, key);
        match ns.action {
            NormalAction::Unhandled => (ns.pending_op, ns.count),
            a => {
                return KeyOutcome {
                    route: KeyRoute::Normal(a),
                    pending_leader: pl2,
                    pending_op: ns.pending_op,
                    count: ns.count,
                };
            },
        }
    } else {
        (po, n)
    };
    let pa = pane_key(ctx.focus, ctx.notes_visual, ctx.selected_is_dir, key);
    let pl3 = match pa {
        PaneAction::OpenCommand => false,
        _ => pl2,
    };
    KeyOutcome { route: KeyRoute::Pane(pa), pending_leader: pl3, pending_op: po3, count: n3 }
}

// ---------------------------------------------------------------------------
// Popups and input lines
// ---------------------------------------------------------------------------

/// What a key does to a line being typed (the command line, a search, a
/// popup's field).
#[derive(Clone, Copy, Debug, PartialEq, Eq)]
pub enum LineEdit {
    Cancel,
    Submit,
    /// Delete the last character.
    Pop,
    /// Type this character.
    Push(char),
    Nothing,
}

/// The decision of a typed line: Esc cancels, Enter submits, Backspace
/// deletes; a character is typed, held Control or Alt stopping it unless
/// `any_char`.
pub open spec fn line_edit(key: KeyPress, any_char: bool) -> LineEdit {
    match key.code {
        Key::Esc => LineEdit::Cancel,
        Key::Enter => LineEdit::Submit,
        Key::Backspace => LineEdit::Pop,
        Key::Char(c) => if any_char || (!key.ctrl && !key.alt) {
            LineEdit::Push(c)
        } else {
            LineEdit::Nothing
        },
        _ => LineEdit::Nothing,
    }
}

/// The command line takes any character; searches and popup fields take
/// characters typed without Control or Alt.
pub fn handle_line_input(key: KeyPress, any_char: bool) -> (r: LineEdit)
    ensures
        r == line_edit(key, any_char),
{
    match key.code {
        Key::Esc => LineEdit::Cancel,
        Key::Enter => LineEdit::Submit,
        Key::Backspace => LineEdit::Pop,
        Key::Char(c) => if any_char || (!key.ctrl && !key.alt) {
            LineEdit::Push(c)
        } else {
            LineEdit::Nothing
        },
        _ => LineEdit::Nothing,
    }
}

/// What a key does in the global search popup.
#[derive(Clone, Copy, Debug, PartialEq, Eq)]
pub enum SearchPopupAction {
    Cancel,
    Apply,
    Pop,
    /// The selection moves to this hit.
    Select(usize),
    Push(char),
    Nothing,
}

/// The decision of the global search popup, with `len` hits and hit
/// `selected` selected: `j` and `k` move the selection rather than being
/// typed.
pub open spec fn search_popup_step(key: KeyPress, selected: usize, len: usize) -> SearchPopupAction {
    match key.code {
        Key::Esc => SearchPopupAction::Cancel,
        Key::Enter => SearchPopupAction::Apply,
        Key::Backspace => SearchPopupAction::Pop,
        Key::Down | Key::Char('j') => SearchPopupAction::Select(if selected + 1 < len { (selected + 1) as usize } else { selected }),
        Key::Up | Key::Char('k') => SearchPopupAction::Select(if selected > 0 { (selected - 1) as usize } else { 0 }),
        Key::Char(c) => if !key.ctrl && !key.alt {
            SearchPopupAction::Push(c)
        } else {
            SearchPopupAction::Nothing
        },
        _ => SearchPopupAction::Nothing,
    }
}

pub fn handle_global_search_input(key: KeyPress, selected: usize, len: usize) -> (r: SearchPopupAction)
    ensures
        r == search_popup_step(key, selected, len),
{
    match key.code {
        Key::Esc => SearchPopupAction::Cancel,
        Key::Enter => SearchPopupAction::Apply,
        Key::Backspace => SearchPopupAction::Pop,
        Key::Down | Key::Char('j') => SearchPopupAction::Select(
            if selected < usize::MAX && selected + 1 < len {
                selected + 1
            } else {
                selected
            },
        ),
        Key::Up | Key::Char('k') => SearchPopupAction::Select(
            if selected > 0 {
                selected - 1
            } else {
                0
            },
        ),
        Key::Char(c) => if !key.ctrl && !key.alt {
            SearchPopupAction::Push(c)
        } else {
            SearchPopupAction::Nothing
        },
        _ => SearchPopupAction::Nothing,
    }
}

/// The help popup's scroll after a key; none when the key closes it.
pub open spec fn help_step(key: KeyPress, scroll: usize) -> Option<usize> {
    let up = |n: int| if scroll >= n { (scroll - n) as usize } else { 0usize };
    let down = |n: int| if scroll + n <= usize::MAX { (scroll + n) as usize } else { usize::MAX };
    match key.code {
        Key::Esc | Key::Char('?') => None,
        Key::Up | Key::Char('k') => Some(up(1)),
        Key::Down | Key::Char('j') => Some(down(1)),
        Key::PageUp => Some(up(8)),
        Key::PageDown => Some(down(8)),
        Key::Home => Some(0),
        _ => Some(scroll),
    }
}

pub fn handle_help_popup_input(key: KeyPress, scroll: usize) -> (r: Option<usize>)
    ensures
        r == help_step(key, scroll),
{
    match key.code {
        Key::Esc | Key::Char('?') => None,
        Key::Up | Key::Char('k') => Some(scroll.saturating_sub(1)),
        Key::Down | Key::Char('j') => Some(scroll.saturating_add(1)),
        Key::PageUp => Some(scroll.saturating_sub(8)),
        Key::PageDown => Some(scroll.saturating_add(8)),
        Key::Home => Some(0),
        _ => Some(scroll),
    }
}

/// The answer to a question of the delete popup: `Some(true)` to go ahead
/// (Enter, `y`), `Some(false)` to cancel (Esc, `n`), none for other keys.
pub open spec fn confirm_step(key: KeyPress) -> Option<bool> {
    match key.code {
        Key::Esc | Key::Char('n') | Key::Char('N') => Some(false),
        Key::Enter | Key::Char('y') | Key::Char('Y') => Some(true),
        _ => None,
    }
}

pub fn handle_delete_dir_confirm_input(key: KeyPress) -> (r: Option<bool>)
    ensures
        r == confirm_step(key),
{
    match key.code {
        Key::Esc | Key::Char('n') | Key::Char('N') => Some(false),
        Key::Enter | Key::Char('y') | Key::Char('Y') => Some(true),
        _ => None,
    }
}

/// A field of the new note popup.
#[derive(Clone, Copy, Debug, PartialEq, Eq, Structural)]
pub enum NewNoteField {
    Dir,
    Name,
    Tags,
}

/// The field Tab moves to (Shift-Tab and BackTab move back): directory,
/// name, tags, round.
pub open spec fn next_field(f: NewNoteField, back: bool) -> NewNoteField {
    match (f, back) {
        (NewNoteField::Dir, false) => NewNoteField::Name,
        (NewNoteField::Name, false) => NewNoteField::Tags,
        (NewNoteField::Tags, false) => NewNoteField::Dir,
        (NewNoteField::Dir, true) => NewNoteField::Tags,
        (NewNoteField::Name, true) => NewNoteField::Dir,
        (NewNoteField::Tags, true) => NewNoteField::Name,
    }
}

/// What a key does in the new note popup.
#[derive(Clone, Copy, Debug, PartialEq, Eq)]
pub enum NewNoteAction {
    Cancel,
    Submit,
    /// Move to this field.
    Focus(NewNoteField),
    /// Delete the last character of the field.
    Pop(NewNoteField),
    /// Type this character into the field.
    Push(NewNoteField, char),
    Nothing,
}

pub open spec fn new_note_step(key: KeyPress, field: NewNoteField) -> NewNoteAction {
    match key.code {
        Key::Esc => NewNoteAction::Cancel,
        Key::Enter => NewNoteAction::Submit,
        Key::BackTab => NewNoteAction::Focus(next_field(field, true)),
        Key::Tab => NewNoteAction::Focus(next_field(field, key.shift)),
        Key::Backspace => NewNoteAction::Pop(field),
        Key::Char(c) => if !key.ctrl && !key.alt {
            NewNoteAction::Push(field, c)
        } else {
            NewNoteAction::Nothing
        },
        _ => NewNoteAction::Nothing,
    }
}

fn field_after(f: NewNoteField, back: bool) -> (r: NewNoteField)
    ensures
        r == next_field(f, back),
{
    match (f, back) {
        (NewNoteField::Dir, false) => NewNoteField::Name,
        (NewNoteField::Name, false) => NewNoteField::Tags,
        (NewNoteField::Tags, false) => NewNoteField::Dir,
        (NewNoteField::Dir, true) => NewNoteField::Tags,
        (NewNoteField::Name, true) => NewNoteField::Dir,
        (NewNoteField::Tags, true) => NewNoteField::Name,
    }
}

pub fn handle_new_note_popup_input(key: KeyPress, field: NewNoteField) -> (r: NewNoteAction)
    ensures
        r == new_note_step(key, field),
{
    match key.code {
        Key::Esc => NewNoteAction::Cancel,
        Key::Enter => NewNoteAction::Submit,
        Key::BackTab => NewNoteAction::Focus(field_after(field, true)),
        Key::Tab => NewNoteAction::Focus(field_after(field, key.shift)),
        Key::Backspace => NewNoteAction::Pop(field),
        Key::Char(c) => if !key.ctrl && !key.alt {
            NewNoteAction::Push(field, c)
        } else {
            NewNoteAction::Nothing
        },
        _ => NewNoteAction::Nothing,
    }
}

} // verus!
