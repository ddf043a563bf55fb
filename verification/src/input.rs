//! Which text-editing action a key press stands for while a text input has
//! focus.
use vstd::prelude::*;
use crate::engine::TextInputAction;

verus! {

/// Keys that edit or move within a text input and repeat while held.
#[derive(Debug, Clone, Copy, PartialEq, Eq, Structural)]
pub enum EditKey {
    Left,
    Right,
    Backspace,
    Delete,
    Home,
    End,
    Up,
    Down,
}

/// Shortcut keys that act once per press.
#[derive(Debug, Clone, Copy, PartialEq, Eq, Structural)]
pub enum ShortcutKey {
    Enter,
    A,
    Z,
    Y,
    X,
}

/// The number that identifies a repeating key in the key-repeat state (0 means none).
pub open spec fn spec_repeat_id(key: EditKey) -> u32 {
    match key {
        EditKey::Left => 1,
        EditKey::Right => 2,
        EditKey::Backspace => 3,
        EditKey::Delete => 4,
        EditKey::Home => 5,
        EditKey::End => 6,
        EditKey::Up => 7,
        EditKey::Down => 8,
    }
}

/// The number that identifies a repeating key in the key-repeat state.
pub fn repeat_id(key: EditKey) -> (r: u32)
    ensures
        r == spec_repeat_id(key),
        r != 0,
{
    match key {
        EditKey::Left => 1,
        EditKey::Right => 2,
        EditKey::Backspace => 3,
        EditKey::Delete => 4,
        EditKey::Home => 5,
        EditKey::End => 6,
        EditKey::Up => 7,
        EditKey::Down => 8,
    }
}

/// The repeating key with a given repeat number, if any.
pub fn repeat_key(id: u32) -> (r: Option<EditKey>)
    ensures
        match r {
            Some(k) => spec_repeat_id(k) == id,
            None => 1 > id || id > 8,
        },
{
    match id {
        1 => Some(EditKey::Left),
        2 => Some(EditKey::Right),
        3 => Some(EditKey::Backspace),
        4 => Some(EditKey::Delete),
        5 => Some(EditKey::Home),
        6 => Some(EditKey::End),
        7 => Some(EditKey::Up),
        8 => Some(EditKey::Down),
        _ => None,
    }
}

/// The action of a repeating editing key: Ctrl makes arrows move by word and
/// deletions remove a word; Shift extends the selection when moving.
pub fn edit_key_action(key: EditKey, ctrl: bool, shift: bool) -> (r: TextInputAction)
    ensures
        r == (match key {
            EditKey::Left => if ctrl { TextInputAction::MoveWordLeft { shift } } else { TextInputAction::MoveLeft { shift } },
            EditKey::Right => if ctrl { TextInputAction::MoveWordRight { shift } } else { TextInputAction::MoveRight { shift } },
            EditKey::Backspace => if ctrl { TextInputAction::BackspaceWord } else { TextInputAction::Backspace },
            EditKey::Delete => if ctrl { TextInputAction::DeleteWord } else { TextInputAction::Delete },
            EditKey::Home => TextInputAction::MoveHome { shift },
            EditKey::End => TextInputAction::MoveEnd { shift },
            EditKey::Up => TextInputAction::MoveUp { shift },
            EditKey::Down => TextInputAction::MoveDown { shift },
        }),
{
    match key {
        EditKey::Left => if ctrl { TextInputAction::MoveWordLeft { shift } } else { TextInputAction::MoveLeft { shift } },
        EditKey::Right => if ctrl { TextInputAction::MoveWordRight { shift } } else { TextInputAction::MoveRight { shift } },
        EditKey::Backspace => if ctrl { TextInputAction::BackspaceWord } else { TextInputAction::Backspace },
        EditKey::Delete => if ctrl { TextInputAction::DeleteWord } else { TextInputAction::Delete },
        EditKey::Home => TextInputAction::MoveHome { shift },
        EditKey::End => TextInputAction::MoveEnd { shift },
        EditKey::Up => TextInputAction::MoveUp { shift },
        EditKey::Down => TextInputAction::MoveDown { shift },
    }
}

/// Whether a repeating key acts on this text input: Up and Down only in multiline inputs.
pub fn edit_key_applies(key: EditKey, multiline: bool) -> (r: bool)
    ensures
        r == (multiline || (key != EditKey::Up && key != EditKey::Down)),
{
    match key {
        EditKey::Up | EditKey::Down => multiline,
        _ => true,
    }
}

/// The action of a shortcut key: Enter submits (or breaks the line); with
/// Ctrl, A selects all, Z undoes (Shift+Z redoes), Y redoes, X cuts.
pub fn shortcut_action(key: ShortcutKey, ctrl: bool, shift: bool) -> (r: Option<TextInputAction>)
    ensures
        r == (match key {
            ShortcutKey::Enter => Some(TextInputAction::Submit),
            ShortcutKey::A => if ctrl { Some(TextInputAction::SelectAll) } else { None },
            ShortcutKey::Z => if ctrl {
                if shift { Some(TextInputAction::Redo) } else { Some(TextInputAction::Undo) }
            } else {
                None
            },
            ShortcutKey::Y => if ctrl { Some(TextInputAction::Redo) } else { None },
            ShortcutKey::X => if ctrl { Some(TextInputAction::Cut) } else { None },
        }),
{
    match key {
        ShortcutKey::Enter => Some(TextInputAction::Submit),
        ShortcutKey::A => if ctrl { Some(TextInputAction::SelectAll) } else { None },
        ShortcutKey::Z => if ctrl {
            if shift { Some(TextInputAction::Redo) } else { Some(TextInputAction::Undo) }
        } else {
            None
        },
        ShortcutKey::Y => if ctrl { Some(TextInputAction::Redo) } else { None },
        ShortcutKey::X => if ctrl { Some(TextInputAction::Cut) } else { None },
    }
}

} // verus!
