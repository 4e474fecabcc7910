use devscribe::input::{
    ghost_text, handle_key, CanvasAction, CanvasContext, CanvasEvent, CanvasState, CellHit, Direction, EditorKey,
    EditorMessage, Modifiers, NamedKey,
};
use devscribe::status::CursorPos;

fn plain() -> Modifiers {
    Modifiers::default()
}

fn shift() -> Modifiers {
    Modifiers { shift: true, ..Modifiers::default() }
}

fn cmd() -> Modifiers {
    Modifiers { command: true, control: true, ..Modifiers::default() }
}

#[test]
fn plain_named_keys_edit_and_move() {
    let k = |n| EditorKey::Named(n);
    assert_eq!(handle_key(&k(NamedKey::Enter), plain(), None, false, 0, 0), Some(EditorMessage::EditorInsertText("\n".into())));
    assert_eq!(handle_key(&k(NamedKey::Space), plain(), Some(" "), false, 0, 0), Some(EditorMessage::EditorInsertText(" ".into())));
    assert_eq!(handle_key(&k(NamedKey::Tab), plain(), None, false, 0, 0), Some(EditorMessage::EditorIndent));
    assert_eq!(handle_key(&k(NamedKey::Tab), shift(), None, false, 0, 0), Some(EditorMessage::EditorDedent));
    assert_eq!(
        handle_key(&k(NamedKey::Home), shift(), None, false, 0, 0),
        Some(EditorMessage::EditorMove { dir: Direction::LineStart, extend: true })
    );
    assert_eq!(handle_key(&k(NamedKey::F12), plain(), None, false, 3, 4), Some(EditorMessage::GoToDefinition { line: 3, col: 4 }));
    assert_eq!(handle_key(&k(NamedKey::F12), shift(), None, false, 3, 4), Some(EditorMessage::FindReferences { line: 3, col: 4 }));
    assert_eq!(handle_key(&k(NamedKey::Other), plain(), Some("x"), false, 0, 0), None);
}

#[test]
fn escape_is_only_taken_while_a_suggestion_shows() {
    let esc = EditorKey::Named(NamedKey::Escape);
    assert_eq!(handle_key(&esc, plain(), None, true, 0, 0), Some(EditorMessage::DismissGhostCompletion));
    assert_eq!(handle_key(&esc, plain(), None, false, 0, 0), None);
}

#[test]
fn modified_named_keys_are_left_to_the_app() {
    let enter = EditorKey::Named(NamedKey::Enter);
    assert_eq!(handle_key(&enter, cmd(), None, false, 0, 0), None);
    let alt = Modifiers { alt: true, ..Modifiers::default() };
    assert_eq!(handle_key(&EditorKey::Named(NamedKey::Backspace), alt, None, false, 0, 0), None);
}

#[test]
fn command_chords_run_editing_commands() {
    let c = |s: &str| EditorKey::Character(s.to_string());
    assert_eq!(handle_key(&c("a"), cmd(), Some("a"), false, 0, 0), Some(EditorMessage::EditorSelectAll));
    assert_eq!(handle_key(&c("C"), cmd(), None, false, 0, 0), Some(EditorMessage::EditorCopy));
    assert_eq!(handle_key(&c("z"), cmd(), None, false, 0, 0), Some(EditorMessage::EditorUndo));
    let cmd_shift = Modifiers { shift: true, ..cmd() };
    assert_eq!(handle_key(&c("Z"), cmd_shift, None, false, 0, 0), Some(EditorMessage::EditorRedo));
    assert_eq!(handle_key(&c("y"), cmd(), None, false, 0, 0), Some(EditorMessage::EditorRedo));
    assert_eq!(handle_key(&c("/"), cmd(), None, false, 0, 0), Some(EditorMessage::EditorToggleComment));
    assert_eq!(handle_key(&c("s"), cmd(), Some("s"), false, 0, 0), None);
}

#[test]
fn typing_text() {
    let c = EditorKey::Character("x".into());
    assert_eq!(handle_key(&c, plain(), Some("x"), false, 0, 0), Some(EditorMessage::EditorTypeChar('x')));
    assert_eq!(handle_key(&c, shift(), Some("X"), false, 0, 0), Some(EditorMessage::EditorTypeChar('X')));
    assert_eq!(handle_key(&c, plain(), Some("ab"), false, 0, 0), Some(EditorMessage::EditorInsertText("ab".into())));
    assert_eq!(handle_key(&c, plain(), Some(""), false, 0, 0), None);
    assert_eq!(handle_key(&c, plain(), Some("a\u{7}"), false, 0, 0), None);
    assert_eq!(handle_key(&c, plain(), None, false, 0, 0), None);
    let ctrl = Modifiers { control: true, ..Modifiers::default() };
    assert_eq!(handle_key(&c, ctrl, Some("x"), false, 0, 0), None);
}

fn ctx() -> CanvasContext {
    CanvasContext { marked_lines: vec![false, true], pending_revert_line: None, ghost_shown: false, cursor_line: 0, cursor_col: 0 }
}

fn press(line: usize, col: usize, in_gutter: bool, now: u64) -> CanvasEvent {
    CanvasEvent::LeftPressed { hit: Some(CellHit { line, col, in_gutter }), now }
}

fn captured(m: EditorMessage) -> Option<CanvasAction> {
    Some(CanvasAction { message: m, capture: true })
}

#[test]
fn click_streak_selects_word_then_line_then_restarts() {
    let mut s = CanvasState::default();
    let c = ctx();
    let ms = 1_000_000u64;
    assert_eq!(s.update(&c, &press(0, 2, false, 0)), captured(EditorMessage::EditorClick { line: 0, col: 2, extend: false }));
    assert_eq!(s.update(&c, &CanvasEvent::LeftReleased), None);
    assert_eq!(s.update(&c, &press(0, 2, false, 100 * ms)), captured(EditorMessage::EditorSelectWord { line: 0, col: 2 }));
    assert_eq!(s.update(&c, &press(0, 2, false, 200 * ms)), captured(EditorMessage::EditorSelectLine { line: 0 }));
    assert_eq!(s.update(&c, &press(0, 2, false, 300 * ms)), captured(EditorMessage::EditorClick { line: 0, col: 2, extend: false }));
    // Too slow: starts over.
    assert_eq!(s.update(&c, &press(0, 2, false, 800 * ms)), captured(EditorMessage::EditorClick { line: 0, col: 2, extend: false }));
    assert_eq!(s.update(&c, &press(0, 2, false, 1249 * ms)), captured(EditorMessage::EditorSelectWord { line: 0, col: 2 }));
    // Another cell: starts over.
    assert_eq!(s.update(&c, &press(0, 3, false, 1250 * ms)), captured(EditorMessage::EditorClick { line: 0, col: 3, extend: false }));
}

#[test]
fn outside_press_releases_focus_and_keys() {
    let mut s = CanvasState::default();
    let c = ctx();
    let key = CanvasEvent::KeyPressed { key: EditorKey::Character("a".into()), modifiers: Modifiers::default(), text: Some("a".into()) };
    assert_eq!(s.update(&c, &key), None);
    s.update(&c, &press(0, 0, false, 0));
    assert!(s.focused);
    assert_eq!(s.update(&c, &key), captured(EditorMessage::EditorTypeChar('a')));
    assert_eq!(s.update(&c, &CanvasEvent::LeftPressed { hit: None, now: 5 }), None);
    assert!(!s.focused);
    assert_eq!(s.update(&c, &key), None);
    s.update(&c, &press(0, 0, false, 10));
    assert_eq!(s.update(&c, &CanvasEvent::OtherPressed { in_bounds: false }), None);
    assert!(!s.focused);
}

#[test]
fn gutter_clicks_arm_then_revert_a_marked_line() {
    let mut s = CanvasState::default();
    let mut c = ctx();
    assert_eq!(s.update(&c, &press(1, 0, true, 0)), captured(EditorMessage::PromptRevertLine { line: 1 }));
    c.pending_revert_line = Some(1);
    assert_eq!(s.update(&c, &press(1, 0, true, 1)), captured(EditorMessage::RevertLine { line: 1 }));
    // Any other click while armed cancels.
    assert_eq!(s.update(&c, &press(0, 4, false, 2)), captured(EditorMessage::CancelRevertLine));
    // Unmarked gutter lines fall through to a plain click.
    c.pending_revert_line = None;
    assert_eq!(s.update(&c, &press(0, 0, true, 3)), captured(EditorMessage::EditorClick { line: 0, col: 0, extend: false }));
}

#[test]
fn command_click_goes_to_definition_and_shift_click_extends() {
    let mut s = CanvasState::default();
    let c = ctx();
    s.update(&c, &CanvasEvent::ModifiersChanged(cmd()));
    assert_eq!(s.update(&c, &press(4, 1, false, 0)), captured(EditorMessage::GoToDefinition { line: 4, col: 1 }));
    s.update(&c, &CanvasEvent::ModifiersChanged(shift()));
    assert_eq!(s.update(&c, &press(4, 1, false, 1)), captured(EditorMessage::EditorClick { line: 4, col: 1, extend: true }));
    assert_eq!(s.click_streak, 0);
}

#[test]
fn drag_extends_and_hover_reports_cell_changes() {
    let mut s = CanvasState::default();
    let c = ctx();
    s.update(&c, &press(0, 0, false, 0));
    let mv = |cell| CanvasEvent::CursorMoved { in_bounds: Some(cell), anywhere: Some(cell) };
    assert_eq!(s.update(&c, &mv((2, 3))), captured(EditorMessage::EditorClick { line: 2, col: 3, extend: true }));
    assert_eq!(
        s.update(&c, &CanvasEvent::CursorMoved { in_bounds: None, anywhere: Some((9, 0)) }),
        captured(EditorMessage::EditorClick { line: 9, col: 0, extend: true })
    );
    s.update(&c, &CanvasEvent::LeftReleased);
    let hover = s.update(&c, &mv((2, 3)));
    assert_eq!(hover, Some(CanvasAction { message: EditorMessage::EditorHoverMove { line: 2, col: 3 }, capture: false }));
    assert_eq!(s.update(&c, &mv((2, 3))), None);
    assert_eq!(
        s.update(&c, &CanvasEvent::CursorMoved { in_bounds: None, anywhere: None }),
        Some(CanvasAction { message: EditorMessage::EditorHoverLeave, capture: false })
    );
    assert_eq!(s.update(&c, &CanvasEvent::CursorMoved { in_bounds: None, anywhere: None }), None);
}

#[test]
fn ghost_text_shows_the_first_line_at_the_caret_only() {
    let at = CursorPos { line: 1, col: 2 };
    assert_eq!(ghost_text("foo()\nbar", at, at), Some("foo()".to_string()));
    assert_eq!(ghost_text("foo()", at, CursorPos { line: 1, col: 3 }), None);
    assert_eq!(ghost_text("\nbar", at, at), None);
    assert_eq!(ghost_text("", at, at), None);
}

#[test]
fn a_long_click_run_keeps_cycling() {
    let mut s = CanvasState::default();
    let c = ctx();
    let ms = 1_000_000u64;
    for k in 0..10u64 {
        let expected = match k % 3 {
            0 => EditorMessage::EditorClick { line: 1, col: 4, extend: false },
            1 => EditorMessage::EditorSelectWord { line: 1, col: 4 },
            _ => EditorMessage::EditorSelectLine { line: 1 },
        };
        assert_eq!(s.update(&c, &press(1, 4, false, k * 449 * ms)), captured(expected), "press {k}");
        assert!(s.focused && s.dragging);
    }
}
