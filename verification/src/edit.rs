//! From input events to edits of a shaping buffer.
//!
//! The buffer and its editor belong to the shaping engine. What is decided
//! here is which actions an event asks of that editor, and what is kept of
//! the editor between two events: the cursor and the selection. An editor is
//! made afresh around the buffer for every batch of actions, loaded with the
//! kept state, and read back when the batch is done.

use vstd::prelude::*;
use crate::buffer::{lines_view, BufferLine, LineView};
use crate::click::{kind_of, recorded, ClickHistory, ClickHistoryEntry, ClickKind};
use crate::geometry::{to_whole_units, whole_units, Vec2};
use crate::strings::{can_cut, is_cut};

verus! {

/// Which side of a position a cursor clings to where a line wraps.
#[derive(Clone, Copy, Debug, PartialEq, Eq, Structural)]
pub enum Affinity {
    /// The end of the visual line before.
    Before,
    /// The start of the visual line after.
    After,
}

/// A position in a buffer.
#[derive(Clone, Copy, Debug, PartialEq, Eq, Structural)]
pub struct Cursor {
    /// Index of the line.
    pub line: usize,
    /// Byte offset in the line.
    pub index: usize,
    /// Side that the cursor clings to.
    pub affinity: Affinity,
}

impl Cursor {
    /// Where a fresh editor stands: at the start of the buffer.
    pub open spec fn origin() -> Cursor {
        Cursor { line: 0, index: 0, affinity: Affinity::Before }
    }

    /// `self` does not come after `other` in the buffer.
    pub open spec fn precedes(self, other: Cursor) -> bool {
        self.line < other.line || (self.line == other.line && self.index <= other.index)
    }

    /// A cursor at the given line and byte, clinging backward.
    pub fn new(line: usize, index: usize) -> (cursor: Cursor)
        ensures
            cursor == (Cursor { line, index, affinity: Affinity::Before }),
    {
        Cursor { line, index, affinity: Affinity::Before }
    }
}

/// Whether `cursor` names a place of the buffer with the given lines: a line
/// that exists and a byte offset between two characters of it, or at its
/// end. A cursor kept from before the buffer was changed behind the
/// editor's back may not.
pub open spec fn fits(cursor: Cursor, lines: Seq<LineView>) -> bool {
    cursor.line < lines.len() && is_cut(lines[cursor.line as int].text, cursor.index as int)
}

/// Tests whether a cursor names a place of a buffer.
pub fn cursor_fits(cursor: &Cursor, lines: &Vec<BufferLine>) -> (yes: bool)
    ensures
        yes == fits(*cursor, lines_view(lines@)),
{
    if cursor.line >= lines.len() {
        return false;
    }
    can_cut(lines[cursor.line].text(), cursor.index)
}

/// The two ends of a selection in buffer order: first the one that comes
/// first. Of two ends at the same place the second stays first.
pub open spec fn in_order(a: Cursor, b: Cursor) -> (Cursor, Cursor) {
    if a.line < b.line || (a.line == b.line && a.index < b.index) {
        (a, b)
    } else {
        (b, a)
    }
}

/// Puts the two ends of a selection in buffer order.
pub fn order(a: Cursor, b: Cursor) -> (ends: (Cursor, Cursor))
    ensures
        ends == in_order(a, b),
        ends.0.precedes(ends.1),
        (ends.0 == a && ends.1 == b) || (ends.0 == b && ends.1 == a),
{
    if a.line < b.line || (a.line == b.line && a.index < b.index) {
        (a, b)
    } else {
        (b, a)
    }
}

/// What is selected, told by the place where the selection was begun. The
/// other end is the cursor.
#[derive(Clone, Copy, Debug, PartialEq, Eq, Structural)]
pub enum Selection {
    /// Nothing is selected.
    Unselected,
    /// The text between the anchor and the cursor.
    Normal(Cursor),
    /// Whole lines, from the line of the anchor to that of the cursor.
    Line(Cursor),
    /// Whole words, from the word at the anchor to that at the cursor.
    Word(Cursor),
}

/// What is kept of an editor between two events.
#[derive(Clone, Copy, Debug, PartialEq, Eq)]
pub struct EditorState {
    /// Where the cursor stood; nothing before the first edit.
    pub cursor: Option<Cursor>,
    /// What was selected.
    pub selection: Selection,
    /// The two ends of the selected text, as the buffer gave them.
    pub selection_bounds: Option<(Cursor, Cursor)>,
}

impl EditorState {
    /// The state before the first edit.
    pub open spec fn initial() -> EditorState {
        EditorState { cursor: None, selection: Selection::Unselected, selection_bounds: None }
    }

    /// The two ends of the selected text in buffer order, if any text is
    /// selected.
    pub fn bounds(&self) -> (ends: Option<(Cursor, Cursor)>)
        ensures
            ends == match self.selection_bounds {
                Some((a, b)) => Some(in_order(a, b)),
                None => None,
            },
            ends matches Some((start, end)) ==> start.precedes(end),
    {
        match self.selection_bounds {
            Some((a, b)) => Some(order(a, b)),
            None => None,
        }
    }
}

impl Default for EditorState {
    fn default() -> (state: EditorState)
        ensures
            state == EditorState::initial(),
    {
        EditorState { cursor: None, selection: Selection::Unselected, selection_bounds: None }
    }
}

/// What a fresh editor is loaded with, and what is read back from it.
#[derive(Clone, Copy, Debug, PartialEq, Eq, Structural)]
pub struct TempEditor {
    /// The cursor of the editor.
    pub cursor: Cursor,
    /// The selection of the editor.
    pub selection: Selection,
}

impl TempEditor {
    /// What an editor made for `state` starts from: the kept cursor and
    /// selection, or, before the first edit, the start of the buffer with
    /// nothing selected, whatever selection the state names.
    pub open spec fn loaded(state: EditorState) -> TempEditor {
        match state.cursor {
            Some(cursor) => TempEditor { cursor, selection: state.selection },
            None => TempEditor { cursor: Cursor::origin(), selection: Selection::Unselected },
        }
    }

    /// The editor to apply a batch of actions with.
    pub fn new(state: EditorState) -> (editor: TempEditor)
        ensures
            editor == TempEditor::loaded(state),
    {
        match state.cursor {
            Some(cursor) => TempEditor { cursor, selection: state.selection },
            None => TempEditor {
                cursor: Cursor { line: 0, index: 0, affinity: Affinity::Before },
                selection: Selection::Unselected,
            },
        }
    }

    /// What to keep of the editor when its batch is done. `bounds` are the
    /// ends of the selected text as the buffer reports them.
    pub fn state(&self, bounds: Option<(Cursor, Cursor)>) -> (state: EditorState)
        ensures
            state == (EditorState {
                cursor: Some(self.cursor),
                selection: self.selection,
                selection_bounds: bounds,
            }),
    {
        EditorState {
            cursor: Some(self.cursor),
            selection: self.selection,
            selection_bounds: bounds,
        }
    }
}

/// A way to move the cursor. How far a motion carries is for the buffer to
/// say.
#[derive(Clone, Copy, Debug, PartialEq, Eq, Structural)]
pub enum Motion {
    /// One character to the left.
    Left,
    /// One character to the right.
    Right,
    /// One visual line up.
    Up,
    /// One visual line down.
    Down,
    /// To the start of the line.
    Home,
    /// To the end of the line.
    End,
    /// One page up.
    PageUp,
    /// One page down.
    PageDown,
}

/// One edit that a buffer can be asked for. Click coordinates are whole
/// layout units from the top-left corner of the buffer.
#[derive(Clone, Copy, Debug, PartialEq, Eq, Structural)]
pub enum Action {
    /// Insert a character at the cursor.
    Insert(char),
    /// Break the line at the cursor.
    Enter,
    /// Delete the character before the cursor.
    Backspace,
    /// Delete the character after the cursor.
    Delete,
    /// Move the cursor.
    Motion(Motion),
    /// Put the cursor at a place.
    Click {
        /// Horizontal place.
        x: i32,
        /// Vertical place.
        y: i32,
    },
    /// Select the word at a place.
    DoubleClick {
        /// Horizontal place.
        x: i32,
        /// Vertical place.
        y: i32,
    },
    /// Select the line at a place.
    TripleClick {
        /// Horizontal place.
        x: i32,
        /// Vertical place.
        y: i32,
    },
}

/// A key, by its meaning.
#[derive(Debug, PartialEq, Eq)]
pub enum Key {
    /// A key that types text.
    Character(String),
    /// The enter key.
    Enter,
    /// The space bar.
    Space,
    /// The backspace key.
    Backspace,
    /// The delete key.
    Delete,
    /// A control key.
    Control,
    /// A shift key.
    Shift,
    /// An alt key.
    Alt,
    /// The tabulator key.
    Tab,
    /// The down arrow.
    ArrowDown,
    /// The left arrow.
    ArrowLeft,
    /// The right arrow.
    ArrowRight,
    /// The up arrow.
    ArrowUp,
    /// The end key.
    End,
    /// The home key.
    Home,
    /// The page-down key.
    PageDown,
    /// The page-up key.
    PageUp,
    /// Any other key.
    Other,
}

/// A key with its text as mathematics.
pub enum KeyView {
    /// A key that types the given characters.
    Character(Seq<char>),
    /// The enter key.
    Enter,
    /// The space bar.
    Space,
    /// The backspace key.
    Backspace,
    /// The delete key.
    Delete,
    /// A control key.
    Control,
    /// A shift key.
    Shift,
    /// An alt key.
    Alt,
    /// The tabulator key.
    Tab,
    /// The down arrow.
    ArrowDown,
    /// The left arrow.
    ArrowLeft,
    /// The right arrow.
    ArrowRight,
    /// The up arrow.
    ArrowUp,
    /// The end key.
    End,
    /// The home key.
    Home,
    /// The page-down key.
    PageDown,
    /// The page-up key.
    PageUp,
    /// Any other key.
    Other,
}

impl View for Key {
    type V = KeyView;

    open spec fn view(&self) -> KeyView {
        match self {
            Key::Character(text) => KeyView::Character(text@),
            Key::Enter => KeyView::Enter,
            Key::Space => KeyView::Space,
            Key::Backspace => KeyView::Backspace,
            Key::Delete => KeyView::Delete,
            Key::Control => KeyView::Control,
            Key::Shift => KeyView::Shift,
            Key::Alt => KeyView::Alt,
            Key::Tab => KeyView::Tab,
            Key::ArrowDown => KeyView::ArrowDown,
            Key::ArrowLeft => KeyView::ArrowLeft,
            Key::ArrowRight => KeyView::ArrowRight,
            Key::ArrowUp => KeyView::ArrowUp,
            Key::End => KeyView::End,
            Key::Home => KeyView::Home,
            Key::PageDown => KeyView::PageDown,
            Key::PageUp => KeyView::PageUp,
            Key::Other => KeyView::Other,
        }
    }
}

/// Whether a key went down or came up.
#[derive(Clone, Copy, Debug, PartialEq, Eq, Structural)]
pub enum ButtonState {
    /// The key went down.
    Pressed,
    /// The key came up.
    Released,
}

/// A keyboard event.
#[derive(Debug, PartialEq, Eq)]
pub struct KeyboardInput {
    /// The key, by its meaning.
    pub logical_key: Key,
    /// Whether it went down or came up.
    pub state: ButtonState,
}

/// One insertion for each character of `text`, in order.
pub open spec fn insert_each(text: Seq<char>) -> Seq<Action>
    decreases text.len(),
{
    if text.len() == 0 {
        Seq::empty()
    } else {
        insert_each(text.drop_last()).push(Action::Insert(text.last()))
    }
}

/// The actions that a key asks for when it goes down, or nothing where the
/// key is not handled.
///
/// A typing key inserts its characters one by one, the space bar inserts a
/// space. Enter, backspace and delete are actions of their own. The arrows,
/// home, end and the page keys move the cursor. Control, shift, alt, the
/// tabulator and all other keys are not handled.
pub open spec fn key_actions(key: KeyView) -> Option<Seq<Action>> {
    match key {
        KeyView::Character(text) => Some(insert_each(text)),
        KeyView::Enter => Some(seq![Action::Enter]),
        KeyView::Space => Some(seq![Action::Insert(' ')]),
        KeyView::Backspace => Some(seq![Action::Backspace]),
        KeyView::Delete => Some(seq![Action::Delete]),
        KeyView::ArrowDown => Some(seq![Action::Motion(Motion::Down)]),
        KeyView::ArrowLeft => Some(seq![Action::Motion(Motion::Left)]),
        KeyView::ArrowRight => Some(seq![Action::Motion(Motion::Right)]),
        KeyView::ArrowUp => Some(seq![Action::Motion(Motion::Up)]),
        KeyView::End => Some(seq![Action::Motion(Motion::End)]),
        KeyView::Home => Some(seq![Action::Motion(Motion::Home)]),
        KeyView::PageDown => Some(seq![Action::Motion(Motion::PageDown)]),
        KeyView::PageUp => Some(seq![Action::Motion(Motion::PageUp)]),
        KeyView::Control | KeyView::Shift | KeyView::Alt | KeyView::Tab | KeyView::Other => None,
    }
}

/// The actions that a keyboard event asks for. Nothing is asked when a key
/// comes up, or when the key is not handled; the buffer is then left alone.
pub open spec fn keyboard_actions(key: KeyView, state: ButtonState) -> Option<Seq<Action>> {
    if state == ButtonState::Released {
        None
    } else {
        key_actions(key)
    }
}

fn one(action: Action) -> (actions: Vec<Action>)
    ensures
        actions@ == seq![action],
{
    let mut actions = Vec::new();
    actions.push(action);
    actions
}

fn insertions(text: &str) -> (actions: Vec<Action>)
    ensures
        actions@ == insert_each(text@),
{
    let count = text.unicode_len();
    let mut actions: Vec<Action> = Vec::new();
    let mut i: usize = 0;
    while i < count
        invariant
            0 <= i <= count,
            count == text@.len(),
            actions@ == insert_each(text@.take(i as int)),
        decreases count - i,
    {
        let c = text.get_char(i);
        actions.push(Action::Insert(c));
        assert(text@.take(i + 1).drop_last() =~= text@.take(i as int));
        i += 1;
    }
    assert(text@.take(i as int) =~= text@);
    actions
}

/// Turns a keyboard event into the actions to apply to the buffer.
pub fn listen_keyboard_input_events(event: &KeyboardInput) -> (actions: Option<Vec<Action>>)
    ensures
        match keyboard_actions(event.logical_key@, event.state) {
            Some(expected) => actions matches Some(got) && got@ == expected,
            None => actions is None,
        },
{
    match event.state {
        ButtonState::Released => {
            return None;
        },
        ButtonState::Pressed => {},
    }
    match &event.logical_key {
        Key::Character(text) => Some(insertions(text.as_str())),
        Key::Enter => Some(one(Action::Enter)),
        Key::Space => Some(one(Action::Insert(' '))),
        Key::Backspace => Some(one(Action::Backspace)),
        Key::Delete => Some(one(Action::Delete)),
        Key::ArrowDown => Some(one(Action::Motion(Motion::Down))),
        Key::ArrowLeft => Some(one(Action::Motion(Motion::Left))),
        Key::ArrowRight => Some(one(Action::Motion(Motion::Right))),
        Key::ArrowUp => Some(one(Action::Motion(Motion::Up))),
        Key::End => Some(one(Action::Motion(Motion::End))),
        Key::Home => Some(one(Action::Motion(Motion::Home))),
        Key::PageDown => Some(one(Action::Motion(Motion::PageDown))),
        Key::PageUp => Some(one(Action::Motion(Motion::PageUp))),
        Key::Control | Key::Shift | Key::Alt | Key::Tab | Key::Other => None,
    }
}

/// The action for a click of the given kind at `position`, a place in the
/// buffer in fixed-point steps. The buffer is told whole layout units.
pub open spec fn click_action(kind: ClickKind, position: Vec2) -> Action {
    let x = whole_units(position.x as int) as i32;
    let y = whole_units(position.y as int) as i32;
    match kind {
        ClickKind::Triple => Action::TripleClick { x, y },
        ClickKind::Double => Action::DoubleClick { x, y },
        ClickKind::Single => Action::Click { x, y },
    }
}

/// Handles the state of the left mouse button together with what the
/// pointer is over.
///
/// Where the button has just gone down over text, the click is remembered
/// and the action it asks of the buffer is returned: a triple click before a
/// double click before a single one. Otherwise nothing is remembered and
/// nothing asked.
pub fn handle_click(
    history: &mut ClickHistory,
    just_pressed: bool,
    hit: Option<Vec2>,
    time: u64,
) -> (action: Option<Action>)
    ensures
        match hit {
            Some(position) if just_pressed => {
                let clicks = recorded(old(history)@, ClickHistoryEntry { position, time });
                &&& final(history)@ == clicks
                &&& action == Some(click_action(kind_of(clicks), position))
            },
            _ => final(history)@ == old(history)@ && action is None,
        },
{
    if !just_pressed {
        return None;
    }
    let position = match hit {
        Some(position) => position,
        None => {
            return None;
        },
    };
    history.record(position, time);
    let x = to_whole_units(position.x);
    let y = to_whole_units(position.y);
    match history.classify() {
        Some(ClickKind::Triple) => Some(Action::TripleClick { x, y }),
        Some(ClickKind::Double) => Some(Action::DoubleClick { x, y }),
        Some(ClickKind::Single) => Some(Action::Click { x, y }),
        None => None,
    }
}

} // verus!
