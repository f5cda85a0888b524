use monux::index::NoteMeta;
use monux::tui::keys::{
    handle_delete_dir_confirm_input, handle_global_search_input, handle_help_popup_input,
    handle_insert_mode_key, handle_leader_key, handle_line_input, handle_new_note_popup_input,
    handle_preview_normal_key, handle_visual_mode_key, on_key, pane_key, InsertAction, Key,
    KeyContext, KeyOutcome, KeyPress, KeyRoute, LeaderAction, LineEdit, Motion, NewNoteAction,
    NewNoteField, NormalAction, NormalStep, PaneAction, SearchPopupAction, VisualAction,
};
use monux::tui::undo::{
    push_undo_snapshot, should_throttle_motion_key, snapshot_due, tick_actions, undo, UndoState,
    MAX_UNDO_STEPS,
};
use monux::tui::visual::visual_selection_for_row;
use monux::tui::panes::{EditorMode, FocusPane};
use monux::tui::search::{refresh_global_search_results, GlobalSearchResult};

fn ch(c: char) -> KeyPress {
    KeyPress { code: Key::Char(c), ctrl: false, alt: false, shift: false }
}

fn ctrl(c: char) -> KeyPress {
    KeyPress { code: Key::Char(c), ctrl: true, alt: false, shift: false }
}

fn key(code: Key) -> KeyPress {
    KeyPress { code, ctrl: false, alt: false, shift: false }
}

fn normal(action: NormalAction, pending_op: Option<char>, count: Option<usize>) -> NormalStep {
    NormalStep { action, pending_op, count }
}

#[test]
fn normal_mode_motions_take_the_count() {
    assert_eq!(handle_preview_normal_key(None, None, ch('j')), normal(NormalAction::Move(Motion::Down, 1), None, None));
    assert_eq!(
        handle_preview_normal_key(None, Some(3), ch('w')),
        normal(NormalAction::Move(Motion::WordForward, 3), None, None)
    );
    assert_eq!(
        handle_preview_normal_key(Some('d'), None, key(Key::Left)),
        normal(NormalAction::Move(Motion::Left, 1), None, None)
    );
}

#[test]
fn normal_mode_delete_operator() {
    assert_eq!(
        handle_preview_normal_key(Some('d'), Some(2), ch('w')),
        normal(NormalAction::DeleteMotion(Motion::WordForward, 2, false), None, None)
    );
    assert_eq!(
        handle_preview_normal_key(Some('d'), None, ch('e')),
        normal(NormalAction::DeleteMotion(Motion::WordEnd, 1, true), None, None)
    );
    assert_eq!(handle_preview_normal_key(None, None, ch('d')), normal(NormalAction::PendDelete, Some('d'), None));
    assert_eq!(
        handle_preview_normal_key(Some('d'), Some(2), ch('d')),
        normal(NormalAction::DeleteLines(2), None, None)
    );
    assert_eq!(handle_preview_normal_key(Some('y'), None, ch('y')), normal(NormalAction::YankLines(1), None, None));
    assert_eq!(handle_preview_normal_key(Some('y'), Some(2), ch('d')), normal(NormalAction::PendDelete, Some('d'), Some(2)));
}

#[test]
fn normal_mode_counts_and_line_start() {
    assert_eq!(handle_preview_normal_key(None, None, ch('3')), normal(NormalAction::CountDigit(3), None, Some(3)));
    assert_eq!(handle_preview_normal_key(Some('d'), Some(1), ch('0')), normal(NormalAction::CountDigit(10), None, Some(10)));
    assert_eq!(handle_preview_normal_key(Some('y'), None, ch('0')), normal(NormalAction::LineStart, Some('y'), None));
}

#[test]
fn normal_mode_other_keys() {
    assert_eq!(handle_preview_normal_key(Some('d'), Some(4), ch('z')), normal(NormalAction::ToggleFold, Some('d'), Some(4)));
    assert_eq!(handle_preview_normal_key(Some('d'), Some(4), key(Key::Esc)), normal(NormalAction::Escape, None, None));
    assert_eq!(handle_preview_normal_key(Some('d'), Some(4), ch('i')), normal(NormalAction::Insert, None, Some(4)));
    assert_eq!(handle_preview_normal_key(None, None, ch('N')), normal(NormalAction::SearchNext(false), None, None));
    assert_eq!(handle_preview_normal_key(Some('d'), None, ch('Q')), normal(NormalAction::Unhandled, None, None));
}

#[test]
fn visual_and_insert_modes() {
    assert_eq!(handle_visual_mode_key(None, None, ch('w')).action, VisualAction::Nothing);
    assert_eq!(handle_visual_mode_key(None, Some(2), ch('e')).action, VisualAction::Move(Motion::WordEnd, 2));
    assert_eq!(handle_visual_mode_key(None, None, ch('x')).action, VisualAction::DeleteSelection);
    assert_eq!(handle_visual_mode_key(None, None, key(Key::Esc)).action, VisualAction::Exit);
    assert_eq!(handle_visual_mode_key(Some('d'), None, ch('5')).pending_op, None);
    assert_eq!(handle_insert_mode_key(ch('a')), InsertAction::InsertChar('a'));
    assert_eq!(handle_insert_mode_key(ctrl('a')), InsertAction::Nothing);
    assert_eq!(handle_insert_mode_key(key(Key::Tab)), InsertAction::Nothing);
    assert_eq!(handle_insert_mode_key(key(Key::Esc)), InsertAction::ExitInsert);
    assert_eq!(handle_insert_mode_key(key(Key::Up)), InsertAction::Move(Motion::Up));
}

#[test]
fn leader_and_pane_keys() {
    assert_eq!(handle_leader_key(false, ch(' ')), (Some(LeaderAction::Arm), true));
    assert_eq!(handle_leader_key(true, ch('e')), (Some(LeaderAction::ToggleNotes), false));
    assert_eq!(handle_leader_key(true, ch('q')), (None, false));
    assert_eq!(handle_leader_key(true, ctrl('e')), (None, false));
    assert_eq!(pane_key(FocusPane::Notes, false, true, ch('D')), PaneAction::PromptDeleteDir);
    assert_eq!(pane_key(FocusPane::Notes, false, false, ch('D')), PaneAction::DeleteNote);
    assert_eq!(pane_key(FocusPane::Preview, false, true, ch('D')), PaneAction::Nothing);
    assert_eq!(pane_key(FocusPane::Preview, false, false, ch('/')), PaneAction::OpenSearch(true));
    assert_eq!(pane_key(FocusPane::Links, false, false, key(Key::Enter)), PaneAction::OpenLink);
}

fn ctx(focus: FocusPane, mode: EditorMode) -> KeyContext {
    KeyContext {
        new_note_popup: false,
        global_search_popup: false,
        new_dir_popup: false,
        rename_popup: false,
        delete_dir_confirm_popup: false,
        help_popup: false,
        command_mode: false,
        search_mode: false,
        mode,
        focus,
        pending_leader: false,
        has_cut: false,
        notes_visual: false,
        selected_is_dir: false,
        pending_op: None,
        count: None,
    }
}

fn routed(route: KeyRoute, pending_leader: bool) -> KeyOutcome {
    KeyOutcome { route, pending_leader, pending_op: None, count: None }
}

#[test]
fn keys_are_routed() {
    let preview = ctx(FocusPane::Preview, EditorMode::Normal);
    assert_eq!(on_key(preview, ch('j')), routed(KeyRoute::Normal(NormalAction::Move(Motion::Down, 1)), false));
    assert_eq!(on_key(preview, ctrl('s')), routed(KeyRoute::Save, false));
    assert_eq!(on_key(preview, ch(' ')), routed(KeyRoute::Leader(LeaderAction::Arm), true));
    assert_eq!(on_key(preview, ch('?')), routed(KeyRoute::OpenHelp, false));
    assert_eq!(on_key(preview, ch('Q')), routed(KeyRoute::Pane(PaneAction::Nothing), false));
    assert_eq!(on_key(preview, ch(':')), routed(KeyRoute::Normal(NormalAction::Command), false));
    let notes = ctx(FocusPane::Notes, EditorMode::Normal);
    assert_eq!(on_key(notes, ch('j')), routed(KeyRoute::Pane(PaneAction::MoveDown), false));
    let mut leading = notes;
    leading.pending_leader = true;
    assert_eq!(on_key(leading, ch(':')), routed(KeyRoute::Pane(PaneAction::OpenCommand), false));
    let insert = ctx(FocusPane::Preview, EditorMode::Insert);
    assert_eq!(on_key(insert, ch('x')), routed(KeyRoute::Insert(InsertAction::InsertChar('x')), false));
    let mut popup = preview;
    popup.new_note_popup = true;
    popup.command_mode = true;
    assert_eq!(on_key(popup, ch('x')), routed(KeyRoute::NewNotePopup, false));
    let mut cut = preview;
    cut.has_cut = true;
    assert_eq!(on_key(cut, ch('p')), routed(KeyRoute::PasteCut, false));
}

fn note(path: &str, title: &str) -> NoteMeta {
    NoteMeta { path: path.to_string(), title: title.to_string() }
}

fn strings(v: &[&str]) -> Vec<String> {
    v.iter().map(|s| s.to_string()).collect()
}

fn hit(path: &str, by_tag: bool) -> GlobalSearchResult {
    GlobalSearchResult::Note { path: path.to_string(), matched_by_tag: by_tag }
}

#[test]
fn global_search_finds_dirs_and_notes() {
    let notes = vec![note("a.md", "Alpha"), note("dir/b.md", "Beta"), note("dir/c.md", "Gamma")];
    let tags = vec![strings(&["Work"]), strings(&["work", "x"]), Vec::new()];
    let dirs = strings(&["dir", "docs"]);
    let (all, sel) = refresh_global_search_results("", &dirs, &notes, &tags, 7);
    assert_eq!(all, vec![hit("a.md", false), hit("dir/b.md", false), hit("dir/c.md", false)]);
    assert_eq!(sel, 2);
    let (found, _) = refresh_global_search_results(" DIR ", &dirs, &notes, &tags, 0);
    assert_eq!(found, vec![GlobalSearchResult::Dir("dir".to_string()), hit("dir/b.md", false), hit("dir/c.md", false)]);
    let (tagged, _) = refresh_global_search_results("a, work", &dirs, &notes, &tags, 0);
    assert_eq!(tagged, vec![hit("a.md", true), hit("dir/b.md", true)]);
    let (leading_comma, sel) = refresh_global_search_results(", work", &dirs, &notes, &tags, 3);
    assert!(leading_comma.is_empty());
    assert_eq!(sel, 0);
    let twice = vec![note("x.md", "x"), note("x.md", "x")];
    let (once, _) = refresh_global_search_results("", &dirs, &twice, &vec![Vec::new(), Vec::new()], 0);
    assert_eq!(once, vec![hit("x.md", false)]);
}

#[test]
fn popup_and_line_keys() {
    assert_eq!(handle_line_input(ch('x'), false), LineEdit::Push('x'));
    assert_eq!(handle_line_input(ctrl('x'), false), LineEdit::Nothing);
    assert_eq!(handle_line_input(ctrl('x'), true), LineEdit::Push('x'));
    assert_eq!(handle_line_input(key(Key::Enter), false), LineEdit::Submit);
    assert_eq!(handle_global_search_input(ch('j'), 0, 3), SearchPopupAction::Select(1));
    assert_eq!(handle_global_search_input(ch('j'), 2, 3), SearchPopupAction::Select(2));
    assert_eq!(handle_global_search_input(key(Key::Up), 0, 3), SearchPopupAction::Select(0));
    assert_eq!(handle_global_search_input(ch('x'), 0, 3), SearchPopupAction::Push('x'));
    assert_eq!(handle_help_popup_input(key(Key::PageDown), 3), Some(11));
    assert_eq!(handle_help_popup_input(key(Key::PageUp), 3), Some(0));
    assert_eq!(handle_help_popup_input(ch('?'), 3), None);
    assert_eq!(handle_help_popup_input(key(Key::Home), 3), Some(0));
    assert_eq!(handle_delete_dir_confirm_input(ch('Y')), Some(true));
    assert_eq!(handle_delete_dir_confirm_input(key(Key::Esc)), Some(false));
    assert_eq!(handle_delete_dir_confirm_input(ch('q')), None);
    assert_eq!(handle_new_note_popup_input(key(Key::Tab), NewNoteField::Name), NewNoteAction::Focus(NewNoteField::Tags));
    let shift_tab = KeyPress { code: Key::Tab, ctrl: false, alt: false, shift: true };
    assert_eq!(handle_new_note_popup_input(shift_tab, NewNoteField::Name), NewNoteAction::Focus(NewNoteField::Dir));
    assert_eq!(handle_new_note_popup_input(key(Key::BackTab), NewNoteField::Dir), NewNoteAction::Focus(NewNoteField::Tags));
    assert_eq!(handle_new_note_popup_input(ch('a'), NewNoteField::Tags), NewNoteAction::Push(NewNoteField::Tags, 'a'));
}

fn snap(row: usize) -> UndoState {
    UndoState { lines: vec![format!("line {row}")], row, col: 0, dirty: false }
}

#[test]
fn undo_history_keeps_the_last_states() {
    let mut h: Vec<UndoState> = Vec::new();
    push_undo_snapshot(&mut h, snap(1), true);
    push_undo_snapshot(&mut h, snap(2), false);
    assert_eq!(h.len(), 1);
    for r in 2..(MAX_UNDO_STEPS + 5) {
        push_undo_snapshot(&mut h, snap(r), true);
    }
    assert_eq!(h.len(), MAX_UNDO_STEPS);
    assert_eq!(h[0].row, 5);
    let last = undo(&mut h).unwrap();
    assert_eq!(last.row, MAX_UNDO_STEPS + 4);
    assert_eq!(h.len(), MAX_UNDO_STEPS - 1);
    let mut empty: Vec<UndoState> = Vec::new();
    assert!(undo(&mut empty).is_none());
    assert!(snapshot_due(None));
    assert!(!snapshot_due(Some(100)));
    assert!(snapshot_due(Some(250)));
}

#[test]
fn ticks_and_throttling() {
    assert_eq!(tick_actions(true, true, true, true, 100), (true, false));
    assert_eq!(tick_actions(true, true, true, true, 500), (true, true));
    assert_eq!(tick_actions(false, true, false, true, 500), (false, false));
    let j = ch('j');
    assert_eq!(should_throttle_motion_key(j, None, 1000), (false, Some((j, 1000))));
    assert_eq!(should_throttle_motion_key(j, Some((j, 1000)), 1010), (true, Some((j, 1000))));
    assert_eq!(should_throttle_motion_key(j, Some((j, 1000)), 1030), (false, Some((j, 1030))));
    assert_eq!(should_throttle_motion_key(ch('x'), Some((j, 1000)), 1010), (false, Some((j, 1000))));
    assert_eq!(should_throttle_motion_key(ch('k'), Some((j, 1000)), 1010), (false, Some((ch('k'), 1010))));
}

#[test]
fn visual_spans_per_row() {
    let b = Some(((1, 2), (3, 1)));
    assert_eq!(visual_selection_for_row(b, 0, 5), None);
    assert_eq!(visual_selection_for_row(b, 1, 5), Some((2, 5)));
    assert_eq!(visual_selection_for_row(b, 2, 4), Some((0, 4)));
    assert_eq!(visual_selection_for_row(b, 3, 5), Some((0, 2)));
    assert_eq!(visual_selection_for_row(b, 2, 0), None);
    assert_eq!(visual_selection_for_row(Some(((0, 1), (0, 3))), 0, 10), Some((1, 4)));
    assert_eq!(visual_selection_for_row(None, 0, 10), None);
}
