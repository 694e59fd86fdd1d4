use bevy_text_span_entities::buffer::{BufferLine, LineEnding};
use bevy_text_span_entities::click::ClickHistory;
use bevy_text_span_entities::edit::{
    cursor_fits, handle_click, listen_keyboard_input_events, order, Action, Affinity, ButtonState,
    Cursor, EditorState, Key, KeyboardInput, Motion, Selection, TempEditor,
};
use bevy_text_span_entities::geometry::Vec2;

fn press(key: Key) -> Option<Vec<Action>> {
    listen_keyboard_input_events(&KeyboardInput { logical_key: key, state: ButtonState::Pressed })
}

fn release(key: Key) -> Option<Vec<Action>> {
    listen_keyboard_input_events(&KeyboardInput { logical_key: key, state: ButtonState::Released })
}

#[test]
fn typing_keys_insert_their_characters() {
    assert_eq!(press(Key::Character("a".to_string())), Some(vec![Action::Insert('a')]));
    assert_eq!(
        press(Key::Character("né".to_string())),
        Some(vec![Action::Insert('n'), Action::Insert('é')])
    );
    assert_eq!(press(Key::Character(String::new())), Some(vec![]));
    assert_eq!(press(Key::Space), Some(vec![Action::Insert(' ')]));
}

#[test]
fn editing_keys_have_their_own_actions() {
    assert_eq!(press(Key::Enter), Some(vec![Action::Enter]));
    assert_eq!(press(Key::Backspace), Some(vec![Action::Backspace]));
    assert_eq!(press(Key::Delete), Some(vec![Action::Delete]));
}

#[test]
fn navigation_keys_move_the_cursor() {
    assert_eq!(press(Key::ArrowDown), Some(vec![Action::Motion(Motion::Down)]));
    assert_eq!(press(Key::ArrowLeft), Some(vec![Action::Motion(Motion::Left)]));
    assert_eq!(press(Key::ArrowRight), Some(vec![Action::Motion(Motion::Right)]));
    assert_eq!(press(Key::ArrowUp), Some(vec![Action::Motion(Motion::Up)]));
    assert_eq!(press(Key::End), Some(vec![Action::Motion(Motion::End)]));
    assert_eq!(press(Key::Home), Some(vec![Action::Motion(Motion::Home)]));
    assert_eq!(press(Key::PageDown), Some(vec![Action::Motion(Motion::PageDown)]));
    assert_eq!(press(Key::PageUp), Some(vec![Action::Motion(Motion::PageUp)]));
}

#[test]
fn modifiers_and_unknown_keys_are_not_handled() {
    assert_eq!(press(Key::Control), None);
    assert_eq!(press(Key::Shift), None);
    assert_eq!(press(Key::Alt), None);
    assert_eq!(press(Key::Tab), None);
    assert_eq!(press(Key::Other), None);
}

#[test]
fn releases_are_ignored() {
    assert_eq!(release(Key::Character("a".to_string())), None);
    assert_eq!(release(Key::Enter), None);
    assert_eq!(release(Key::ArrowLeft), None);
    assert_eq!(release(Key::Shift), None);
}

#[test]
fn clicks_are_classified_longest_run_first() {
    let mut history = ClickHistory::new();
    let p = Vec2 { x: 200, y: 130 };
    assert_eq!(handle_click(&mut history, true, Some(p), 1_000), Some(Action::Click { x: 3, y: 2 }));
    assert_eq!(
        handle_click(&mut history, true, Some(p), 1_100),
        Some(Action::DoubleClick { x: 3, y: 2 })
    );
    assert_eq!(
        handle_click(&mut history, true, Some(p), 1_200),
        Some(Action::TripleClick { x: 3, y: 2 })
    );
    assert_eq!(
        handle_click(&mut history, true, Some(p), 1_300),
        Some(Action::TripleClick { x: 3, y: 2 })
    );
    assert_eq!(handle_click(&mut history, true, Some(p), 1_900), Some(Action::Click { x: 3, y: 2 }));
}

#[test]
fn a_click_far_away_starts_anew() {
    let mut history = ClickHistory::new();
    handle_click(&mut history, true, Some(Vec2 { x: 0, y: 0 }), 0);
    assert_eq!(
        handle_click(&mut history, true, Some(Vec2 { x: 640, y: 0 }), 10),
        Some(Action::Click { x: 10, y: 0 })
    );
}

#[test]
fn nothing_is_remembered_without_a_press_over_text() {
    let mut history = ClickHistory::new();
    let p = Vec2 { x: 0, y: 0 };
    assert_eq!(handle_click(&mut history, false, Some(p), 0), None);
    assert_eq!(handle_click(&mut history, true, None, 0), None);
    assert_eq!(handle_click(&mut history, false, None, 0), None);
    assert_eq!(history.len(), 0);
    assert_eq!(handle_click(&mut history, true, Some(p), 10), Some(Action::Click { x: 0, y: 0 }));
    assert_eq!(history.len(), 1);
}

#[test]
fn a_fresh_editor_starts_at_the_origin() {
    let state = EditorState::default();
    assert_eq!(state.cursor, None);
    assert_eq!(state.selection, Selection::Unselected);
    assert_eq!(state.selection_bounds, None);
    let editor = TempEditor::new(state);
    assert_eq!(editor.cursor, Cursor { line: 0, index: 0, affinity: Affinity::Before });
    assert_eq!(editor.selection, Selection::Unselected);
    // A selection without a cursor is not loaded.
    let odd = EditorState {
        cursor: None,
        selection: Selection::Normal(Cursor::new(1, 1)),
        selection_bounds: None,
    };
    assert_eq!(TempEditor::new(odd).selection, Selection::Unselected);
}

#[test]
fn an_editor_is_loaded_with_the_kept_state() {
    let cursor = Cursor { line: 2, index: 5, affinity: Affinity::After };
    let selection = Selection::Word(Cursor::new(2, 1));
    let state = EditorState {
        cursor: Some(cursor),
        selection,
        selection_bounds: Some((Cursor::new(2, 1), Cursor::new(2, 7))),
    };
    let editor = TempEditor::new(state);
    assert_eq!(editor.cursor, cursor);
    assert_eq!(editor.selection, selection);
}

#[test]
fn the_kept_state_is_what_the_editor_reports() {
    let editor = TempEditor {
        cursor: Cursor::new(1, 4),
        selection: Selection::Line(Cursor::new(0, 2)),
    };
    let bounds = Some((Cursor::new(0, 0), Cursor::new(1, 9)));
    assert_eq!(
        editor.state(bounds),
        EditorState {
            cursor: Some(Cursor::new(1, 4)),
            selection: Selection::Line(Cursor::new(0, 2)),
            selection_bounds: bounds,
        }
    );
    assert_eq!(editor.state(None).selection_bounds, None);
}

#[test]
fn ends_are_put_in_buffer_order() {
    let a = Cursor::new(1, 5);
    let b = Cursor::new(2, 0);
    let c = Cursor::new(1, 7);
    assert_eq!(order(a, b), (a, b));
    assert_eq!(order(b, a), (a, b));
    assert_eq!(order(a, c), (a, c));
    assert_eq!(order(c, a), (a, c));
    // Of two ends at the same place the second comes first.
    let before = Cursor { line: 1, index: 5, affinity: Affinity::Before };
    let after = Cursor { line: 1, index: 5, affinity: Affinity::After };
    assert_eq!(order(before, after), (after, before));
    assert_eq!(order(after, before), (before, after));
}

#[test]
fn bounds_are_read_in_buffer_order() {
    let mut state = EditorState::default();
    assert_eq!(state.bounds(), None);
    state.selection_bounds = Some((Cursor::new(3, 1), Cursor::new(0, 9)));
    assert_eq!(state.bounds(), Some((Cursor::new(0, 9), Cursor::new(3, 1))));
    state.selection_bounds = Some((Cursor::new(0, 9), Cursor::new(3, 1)));
    assert_eq!(state.bounds(), Some((Cursor::new(0, 9), Cursor::new(3, 1))));
}

#[test]
fn a_cursor_fits_between_the_characters_of_a_line() {
    let lines = vec![
        BufferLine::new("né".to_string(), LineEnding::Lf, vec![]).unwrap(),
        BufferLine::new(String::new(), LineEnding::Unterminated, vec![]).unwrap(),
    ];
    assert!(cursor_fits(&Cursor::new(0, 0), &lines));
    assert!(cursor_fits(&Cursor::new(0, 1), &lines));
    assert!(!cursor_fits(&Cursor::new(0, 2), &lines));
    assert!(cursor_fits(&Cursor::new(0, 3), &lines));
    assert!(!cursor_fits(&Cursor::new(0, 4), &lines));
    assert!(cursor_fits(&Cursor::new(1, 0), &lines));
    assert!(!cursor_fits(&Cursor::new(1, 1), &lines));
    assert!(!cursor_fits(&Cursor::new(2, 0), &lines));
    assert!(!cursor_fits(&Cursor::new(0, 0), &vec![]));
}
