//! The note buffer's undo history, and the timing of what the browser does
//! between keys.
use vstd::prelude::*;
use crate::tui::keys::{Key, KeyPress};

verus! {

/// A state of the buffer that undo returns to.
pub struct UndoState {
    pub lines: Vec<String>,
    pub row: usize,
    pub col: usize,
    pub dirty: bool,
}

/// How many states the history keeps.
pub const MAX_UNDO_STEPS: usize = 200;

/// The history once `snap` is recorded: the oldest state dropped past the
/// limit.
pub open spec fn pushed_history(h: Seq<UndoState>, snap: UndoState) -> Seq<UndoState> {
    let s = h.push(snap);
    if s.len() > MAX_UNDO_STEPS {
        s.drop_first()
    } else {
        s
    }
}

/// Recording a state before a change. `due` tells whether enough time has
/// passed since the last one was recorded; edits that follow each other
/// closely share one state.
pub fn push_undo_snapshot(history: &mut Vec<UndoState>, snap: UndoState, due: bool)
    ensures
        !due ==> final(history)@ == old(history)@,
        due ==> final(history)@ == pushed_history(old(history)@, snap),
{
    if !due {
        return;
    }
    history.push(snap);
    if history.len() > MAX_UNDO_STEPS {
        history.remove(0);
        assert(history@ =~= old(history)@.push(snap).drop_first());
    }
}

/// Undoing: the last state recorded, taken off the history.
pub fn undo(history: &mut Vec<UndoState>) -> (r: Option<UndoState>)
    ensures
        old(history)@.len() == 0 ==> r is None && final(history)@ == old(history)@,
        old(history)@.len() > 0 ==> r == Some(old(history)@.last()) && final(history)@ == old(history)@.drop_last(),
{
    history.pop()
}

/// Undoing right after a state was recorded gives that state back, and
/// leaves the history as it was before, when the limit dropped nothing.
pub proof fn lemma_undo_after_snapshot(h: Seq<UndoState>, snap: UndoState)
    ensures
        pushed_history(h, snap).len() > 0,
        pushed_history(h, snap).last() == snap,
        h.len() < MAX_UNDO_STEPS ==> pushed_history(h, snap).drop_last() == h,
{
    let s = h.push(snap);
    if s.len() > MAX_UNDO_STEPS {
        assert(s.drop_first().last() == s.last());
    } else {
        assert(s.drop_last() =~= h);
    }
}

/// Whether a new state is due: none was recorded yet, or the last one is
/// at least a quarter of a second old.
pub fn snapshot_due(ms_since_last: Option<u64>) -> (b: bool)
    ensures
        b == match ms_since_last {
            Some(ms) => ms >= 250,
            None => true,
        },
{
    match ms_since_last {
        Some(ms) => ms >= 250,
        None => true,
    }
}

/// What falls due on a tick, `ms` after the last change of the text: the
/// links are refreshed 80 ms after a change, and the note is saved 450 ms
/// after one when autosave is on and there are unsaved changes.
pub fn tick_actions(pending_links: bool, pending_autosave: bool, autosave: bool, dirty: bool, ms: u64) -> (r: (bool, bool))
    ensures
        r.0 == (pending_links && ms >= 80),
        r.1 == (pending_autosave && autosave && dirty && ms >= 450),
{
    (pending_links && ms >= 80, pending_autosave && autosave && dirty && ms >= 450)
}

/// Whether a key is one of the repeating motions (`hjkl` and the arrows).
pub open spec fn is_motion_key(code: Key) -> bool {
    code == Key::Char('h') || code == Key::Char('j') || code == Key::Char('k') || code == Key::Char('l')
        || code == Key::Left || code == Key::Right || code == Key::Up || code == Key::Down
}

/// Whether a held motion key is dropped: it repeats the last motion key
/// (same key, same modifiers) within 28 ms. Gives whether to drop it and
/// the motion key to remember (a kept motion key with its time `now`).
pub fn should_throttle_motion_key(key: KeyPress, last: Option<(KeyPress, u64)>, now: u64) -> (r: (bool, Option<(KeyPress, u64)>))
    ensures
        !is_motion_key(key.code) ==> r == (false, last),
        is_motion_key(key.code) ==> r == if (last matches Some((k, at)) && k == key && now >= at && now - at < 28) {
            (true, last)
        } else {
            (false, Some((key, now)))
        },
{
    let motion = match key.code {
        Key::Char('h') | Key::Char('j') | Key::Char('k') | Key::Char('l') | Key::Left | Key::Right | Key::Up
        | Key::Down => true,
        _ => false,
    };
    if !motion {
        return (false, last);
    }
    match last {
        Some((k, at)) => {
            let same_code = match (k.code, key.code) {
                (Key::Char(a), Key::Char(b)) => a == b,
                (Key::Left, Key::Left) | (Key::Right, Key::Right) | (Key::Up, Key::Up) | (Key::Down, Key::Down) => true,
                _ => false,
            };
            if same_code && k.ctrl == key.ctrl && k.alt == key.alt && k.shift == key.shift && now >= at && now - at < 28 {
                return (true, last);
            }
        },
        None => {},
    }
    (false, Some((key, now)))
}

} // verus!
