//! The keyboard-command layer of the tiling grids: a key press — key,
//! modifiers and mode — becomes a spreadsheet [`Command`]. The keys are a
//! plain enum of their own, so the whole keyboard model is checked here
//! and the windowing layer only names the key it saw.

use vstd::prelude::*;
use crate::format::HAlign;
use crate::text::{char_is_control, is_cc};

verus! {

/// The keys the spreadsheet binds. Every other key is `Other`.
#[derive(Debug, Clone, Copy, PartialEq, Eq, Hash, Structural)]
pub enum Key {
    ArrowUp,
    ArrowDown,
    ArrowLeft,
    ArrowRight,
    Tab,
    Enter,
    Escape,
    Home,
    End,
    PageUp,
    PageDown,
    Delete,
    Backspace,
    F1,
    F2,
    F3,
    Num8,
    A,
    B,
    C,
    D,
    E,
    F,
    I,
    L,
    O,
    P,
    R,
    S,
    U,
    V,
    X,
    Y,
    Z,
    Other,
}

/// A movement direction on the grid.
#[derive(Debug, Clone, Copy, PartialEq, Eq, Structural)]
pub enum Dir {
    Up,
    Down,
    Left,
    Right,
}

/// Whether the grid is navigating between cells or editing a cell's text.
#[derive(Debug, Clone, Copy, PartialEq, Eq, Structural)]
pub enum Mode {
    Navigating,
    Editing,
}

/// A spreadsheet command — what a key press means.
#[derive(Debug, Clone, Copy, PartialEq, Eq, Structural)]
pub enum Command {
    /// Move the selection one cell, collapsing any range to a single cell.
    Move(Dir),
    /// Extend the selection one cell — Shift+arrow: the cursor moves and
    /// the anchor stays.
    Extend(Dir),
    /// Move to the first column of the current row (Home).
    MoveToRowStart,
    /// Move to the top-left cell (Ctrl+Home).
    MoveToOrigin,
    /// Begin editing the selected cell: `Some(c)` replaces the content,
    /// starting with the typed `c`; `None` edits the content in place (F2).
    BeginEdit { replace_with: Option<char> },
    /// Commit the edit, then move one cell.
    Commit(Dir),
    /// Discard the edit (Escape).
    Cancel,
    /// Clear the selected cell (Delete / Backspace while navigating).
    Clear,
    /// Toggle bold (Ctrl+B).
    ToggleBold,
    /// Toggle italic (Ctrl+I).
    ToggleItalic,
    /// Set the horizontal alignment (Ctrl+Shift+L/E/R).
    SetAlign(HAlign),
}

/// Tab and Enter: Shift reverses the direction along the axis.
pub open spec fn tab_dir(shift: bool) -> Dir {
    if shift {
        Dir::Left
    } else {
        Dir::Right
    }
}

pub open spec fn enter_dir(shift: bool) -> Dir {
    if shift {
        Dir::Up
    } else {
        Dir::Down
    }
}

/// An arrow key: Shift extends the selection, a plain arrow moves it.
pub open spec fn arrow_command(dir: Dir, shift: bool) -> Command {
    if shift {
        Command::Extend(dir)
    } else {
        Command::Move(dir)
    }
}

/// The navigation-mode bindings.
pub open spec fn navigating_command(key: Key, shift: bool, ctrl: bool) -> Option<Command> {
    match key {
        Key::ArrowUp => Some(arrow_command(Dir::Up, shift)),
        Key::ArrowDown => Some(arrow_command(Dir::Down, shift)),
        Key::ArrowLeft => Some(arrow_command(Dir::Left, shift)),
        Key::ArrowRight => Some(arrow_command(Dir::Right, shift)),
        Key::Tab => Some(Command::Move(tab_dir(shift))),
        Key::Enter => Some(Command::Move(enter_dir(shift))),
        Key::Home => Some(
            if ctrl {
                Command::MoveToOrigin
            } else {
                Command::MoveToRowStart
            },
        ),
        Key::F2 => Some(Command::BeginEdit { replace_with: None }),
        Key::Delete | Key::Backspace => Some(Command::Clear),
        Key::B if ctrl => Some(Command::ToggleBold),
        Key::I if ctrl => Some(Command::ToggleItalic),
        Key::L if ctrl && shift => Some(Command::SetAlign(HAlign::Left)),
        Key::E if ctrl && shift => Some(Command::SetAlign(HAlign::Center)),
        Key::R if ctrl && shift => Some(Command::SetAlign(HAlign::Right)),
        _ => None,
    }
}

/// The editing-mode bindings: Enter and Tab commit, Escape cancels, and
/// every other key belongs to the text editor.
pub open spec fn editing_command(key: Key, shift: bool) -> Option<Command> {
    match key {
        Key::Enter => Some(Command::Commit(enter_dir(shift))),
        Key::Tab => Some(Command::Commit(tab_dir(shift))),
        Key::Escape => Some(Command::Cancel),
        _ => None,
    }
}

/// What a non-text key press means in `mode`.
pub open spec fn key_command(key: Key, shift: bool, ctrl: bool, mode: Mode) -> Option<Command> {
    match mode {
        Mode::Navigating => navigating_command(key, shift, ctrl),
        Mode::Editing => editing_command(key, shift),
    }
}

/// What typed text means: while navigating, a first character that is
/// not a control character begins a replacing edit; otherwise nothing.
pub open spec fn text_command(text: Seq<char>, mode: Mode) -> Option<Command> {
    if mode == Mode::Navigating && text.len() > 0 && !is_cc(text[0]) {
        Some(Command::BeginEdit { replace_with: Some(text[0]) })
    } else {
        None
    }
}

/// The letter keys, and the digit key the keymap knows.
pub open spec fn is_character_key(key: Key) -> bool {
    match key {
        Key::Num8 | Key::A | Key::B | Key::C | Key::D | Key::E | Key::F | Key::I | Key::L | Key::O
        | Key::P | Key::R | Key::S | Key::U | Key::V | Key::X | Key::Y | Key::Z => true,
        _ => false,
    }
}

/// Without Ctrl, a letter or digit key is no command while navigating:
/// the character it types begins an edit instead.
pub proof fn lemma_plain_characters_are_text(key: Key, shift: bool)
    requires
        is_character_key(key),
    ensures
        key_command(key, shift, false, Mode::Navigating) == None::<Command>,
{
}

/// While editing, only Enter, Tab and Escape are commands; every other
/// key — the arrows among them — belongs to the text editor.
pub proof fn lemma_editor_owns_other_keys(key: Key, shift: bool, ctrl: bool)
    ensures
        key_command(key, shift, ctrl, Mode::Editing) is Some <==> (key == Key::Enter || key
            == Key::Tab || key == Key::Escape),
{
}

/// While navigating, each arrow key moves the selection one cell its way,
/// and with Shift extends the selection that way instead; Ctrl changes
/// nothing about an arrow.
pub proof fn lemma_arrows_move_and_shift_extends(shift: bool, ctrl: bool)
    ensures
        key_command(Key::ArrowUp, shift, ctrl, Mode::Navigating) == Some(
            if shift {
                Command::Extend(Dir::Up)
            } else {
                Command::Move(Dir::Up)
            },
        ),
        key_command(Key::ArrowDown, shift, ctrl, Mode::Navigating) == Some(
            if shift {
                Command::Extend(Dir::Down)
            } else {
                Command::Move(Dir::Down)
            },
        ),
        key_command(Key::ArrowLeft, shift, ctrl, Mode::Navigating) == Some(
            if shift {
                Command::Extend(Dir::Left)
            } else {
                Command::Move(Dir::Left)
            },
        ),
        key_command(Key::ArrowRight, shift, ctrl, Mode::Navigating) == Some(
            if shift {
                Command::Extend(Dir::Right)
            } else {
                Command::Move(Dir::Right)
            },
        ),
{
}

/// Tab and Enter move the selection while navigating — Tab right, Enter
/// down, each reversed by Shift — and commit the edit while editing,
/// moving the same way.
pub proof fn lemma_tab_and_enter(shift: bool, ctrl: bool)
    ensures
        key_command(Key::Tab, shift, ctrl, Mode::Navigating) == Some(
            Command::Move(if shift { Dir::Left } else { Dir::Right }),
        ),
        key_command(Key::Enter, shift, ctrl, Mode::Navigating) == Some(
            Command::Move(if shift { Dir::Up } else { Dir::Down }),
        ),
        key_command(Key::Tab, shift, ctrl, Mode::Editing) == Some(
            Command::Commit(if shift { Dir::Left } else { Dir::Right }),
        ),
        key_command(Key::Enter, shift, ctrl, Mode::Editing) == Some(
            Command::Commit(if shift { Dir::Up } else { Dir::Down }),
        ),
{
}

/// The other navigation keys: Home goes to the row's start and
/// Ctrl+Home to the top-left cell, F2 edits the cell in place, Delete and
/// Backspace clear it, Ctrl+B and Ctrl+I toggle bold and italic, and
/// Ctrl+Shift+L/E/R align left, centre and right; without Ctrl those
/// letters are no command. While editing, Escape cancels.
pub proof fn lemma_other_keys(shift: bool, ctrl: bool)
    ensures
        key_command(Key::Home, shift, ctrl, Mode::Navigating) == Some(
            if ctrl {
                Command::MoveToOrigin
            } else {
                Command::MoveToRowStart
            },
        ),
        key_command(Key::F2, shift, ctrl, Mode::Navigating) == Some(
            Command::BeginEdit { replace_with: None },
        ),
        key_command(Key::Delete, shift, ctrl, Mode::Navigating) == Some(Command::Clear),
        key_command(Key::Backspace, shift, ctrl, Mode::Navigating) == Some(Command::Clear),
        key_command(Key::B, shift, ctrl, Mode::Navigating) == if ctrl {
            Some(Command::ToggleBold)
        } else {
            None
        },
        key_command(Key::I, shift, ctrl, Mode::Navigating) == if ctrl {
            Some(Command::ToggleItalic)
        } else {
            None
        },
        key_command(Key::L, shift, ctrl, Mode::Navigating) == if ctrl && shift {
            Some(Command::SetAlign(HAlign::Left))
        } else {
            None
        },
        key_command(Key::E, shift, ctrl, Mode::Navigating) == if ctrl && shift {
            Some(Command::SetAlign(HAlign::Center))
        } else {
            None
        },
        key_command(Key::R, shift, ctrl, Mode::Navigating) == if ctrl && shift {
            Some(Command::SetAlign(HAlign::Right))
        } else {
            None
        },
        key_command(Key::Escape, shift, ctrl, Mode::Editing) == Some(Command::Cancel),
        key_command(Key::Escape, shift, ctrl, Mode::Navigating) == None::<Command>,
{
}

/// Typing while navigating begins an edit that replaces the cell with the
/// first character typed, unless that character is a control character;
/// while editing, typed text is the editor's.
pub proof fn lemma_typing_begins_an_edit(text: Seq<char>)
    ensures
        text.len() > 0 && (text[0] as u32 > 0x1F) && !(0x7F <= text[0] as u32 <= 0x9F) ==> text_command(
            text,
            Mode::Navigating,
        ) == Some(Command::BeginEdit { replace_with: Some(text[0]) }),
        text.len() == 0 || (text[0] as u32) < 0x20 ==> text_command(text, Mode::Navigating) == None::<
            Command,
        >,
        text_command(text, Mode::Editing) == None::<Command>,
{
}

/// Interprets a non-text key press.
pub fn command_for_key(key: Key, shift: bool, ctrl: bool, mode: Mode) -> (c: Option<Command>)
    ensures
        c == key_command(key, shift, ctrl, mode),
{
    match mode {
        Mode::Navigating => navigating(key, shift, ctrl),
        Mode::Editing => editing(key, shift),
    }
}

fn navigating(key: Key, shift: bool, ctrl: bool) -> (c: Option<Command>)
    ensures
        c == navigating_command(key, shift, ctrl),
{
    match key {
        Key::ArrowUp => Some(move_or_extend(Dir::Up, shift)),
        Key::ArrowDown => Some(move_or_extend(Dir::Down, shift)),
        Key::ArrowLeft => Some(move_or_extend(Dir::Left, shift)),
        Key::ArrowRight => Some(move_or_extend(Dir::Right, shift)),
        Key::Tab => Some(Command::Move(
            if shift {
                Dir::Left
            } else {
                Dir::Right
            },
        )),
        Key::Enter => Some(Command::Move(
            if shift {
                Dir::Up
            } else {
                Dir::Down
            },
        )),
        Key::Home => if ctrl {
            Some(Command::MoveToOrigin)
        } else {
            Some(Command::MoveToRowStart)
        },
        Key::F2 => Some(Command::BeginEdit { replace_with: None }),
        Key::Delete | Key::Backspace => Some(Command::Clear),
        Key::B if ctrl => Some(Command::ToggleBold),
        Key::I if ctrl => Some(Command::ToggleItalic),
        Key::L if ctrl && shift => Some(Command::SetAlign(HAlign::Left)),
        Key::E if ctrl && shift => Some(Command::SetAlign(HAlign::Center)),
        Key::R if ctrl && shift => Some(Command::SetAlign(HAlign::Right)),
        _ => None,
    }
}

/// Shift turns an arrow-key move into a range extension.
fn move_or_extend(dir: Dir, shift: bool) -> (c: Command)
    ensures
        c == arrow_command(dir, shift),
{
    if shift {
        Command::Extend(dir)
    } else {
        Command::Move(dir)
    }
}

fn editing(key: Key, shift: bool) -> (c: Option<Command>)
    ensures
        c == editing_command(key, shift),
{
    match key {
        Key::Enter => Some(Command::Commit(
            if shift {
                Dir::Up
            } else {
                Dir::Down
            },
        )),
        Key::Tab => Some(Command::Commit(
            if shift {
                Dir::Left
            } else {
                Dir::Right
            },
        )),
        Key::Escape => Some(Command::Cancel),
        _ => None,
    }
}

/// Interprets typed text: while navigating, the first printable character
/// begins a replacing edit; while editing, the text editor owns its input.
pub fn command_for_text(text: &str, mode: Mode) -> (c: Option<Command>)
    ensures
        c == text_command(text@, mode),
{
    match mode {
        Mode::Editing => {
            return None;
        },
        Mode::Navigating => {},
    }
    if text.unicode_len() == 0 {
        return None;
    }
    let ch = text.get_char(0);
    if char_is_control(ch) {
        return None;
    }
    Some(Command::BeginEdit { replace_with: Some(ch) })
}

} // verus!
