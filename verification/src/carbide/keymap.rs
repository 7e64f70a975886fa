//! The keyboard-command layer of the workbook app: a key press — key,
//! modifiers and mode — becomes a [`Command`], and the help overlay's
//! lists of shortcuts and mouse gestures.

use vstd::prelude::*;
use crate::format::HAlign;
use crate::keymap::{is_character_key, Dir, Key, Mode};
use crate::text::{char_is_control, is_cc};

verus! {

/// A workbook command — what a key press means.
#[derive(Debug, Clone, Copy, PartialEq, Eq, Structural)]
pub enum Command {
    /// Move the selection one cell, collapsing any range to a single cell.
    Move(Dir),
    /// Extend the selection one cell — Shift+arrow.
    Extend(Dir),
    /// Jump the cursor to the data edge — Ctrl+arrow.
    Jump(Dir),
    /// Extend the selection to the data edge — Ctrl+Shift+arrow.
    JumpExtend(Dir),
    /// Select the whole sheet (Ctrl+A).
    SelectAll,
    /// Select the contiguous data region around the cursor (Ctrl+Shift+8).
    SelectRegion,
    /// Move to the first column of the current row (Home).
    MoveToRowStart,
    /// Move to the top-left cell (Ctrl+Home).
    MoveToOrigin,
    /// Move to the last column of the current row (End).
    MoveToRowEnd,
    /// Move to the bottom-right cell (Ctrl+End).
    MoveToSheetEnd,
    /// Move the cursor up a page (Page Up).
    PageUp,
    /// Move the cursor down a page (Page Down).
    PageDown,
    /// Begin editing the selected cell: `Some(c)` replaces the content,
    /// starting with the typed `c`; `None` edits it in place (F2).
    BeginEdit { replace_with: Option<char> },
    /// Commit the edit, then move one cell.
    Commit(Dir),
    /// Discard the edit (Escape while editing).
    Cancel,
    /// Clear an armed cut/copy marquee (Escape while navigating).
    ClearMarquee,
    /// Clear the selected cell (Delete / Backspace while navigating).
    Clear,
    /// Toggle bold (Ctrl+B).
    ToggleBold,
    /// Toggle italic (Ctrl+I).
    ToggleItalic,
    /// Toggle underline (Ctrl+U).
    ToggleUnderline,
    /// Set the horizontal alignment (Ctrl+Shift+L/E/R).
    SetAlign(HAlign),
    /// Copy the selected range (Ctrl+C).
    Copy,
    /// Cut the selected range: copy it, and the next paste clears it
    /// (Ctrl+X).
    Cut,
    /// Paste the clipboard at the active cell (Ctrl+V).
    Paste,
    /// Paste only the clipboard's values (Ctrl+Shift+V).
    PasteValues,
    /// Undo the last action (Ctrl+Z).
    Undo,
    /// Redo the last undone action (Ctrl+Y / Ctrl+Shift+Z).
    Redo,
    /// Fill the selection's top row down into it (Ctrl+D).
    FillDown,
    /// Fill the selection's left column rightward into it (Ctrl+R).
    FillRight,
    /// Open the Find panel (Ctrl+F).
    OpenFind,
    /// Jump to the next Find match (F3).
    FindNext,
    /// Jump to the previous Find match (Shift+F3).
    FindPrev,
    /// Open the keyboard-shortcuts overlay (F1).
    OpenHelp,
    /// Toggle Stage Mode (Ctrl+Shift+P).
    ToggleStageMode,
    /// Leave Stage Mode.
    ExitStageMode,
    /// Save the workbook (Ctrl+S).
    Save,
    /// Save under a new name (Ctrl+Shift+S).
    SaveAs,
    /// Open a workbook (Ctrl+O).
    Open,
}

/// An arrow key refined by its modifiers: Ctrl+Shift extends to the data
/// edge, Ctrl jumps there, Shift extends one cell, a plain arrow moves.
pub open spec fn arrow_command(dir: Dir, shift: bool, ctrl: bool) -> Command {
    if ctrl && shift {
        Command::JumpExtend(dir)
    } else if ctrl {
        Command::Jump(dir)
    } else if shift {
        Command::Extend(dir)
    } else {
        Command::Move(dir)
    }
}

/// The navigation-mode bindings.
pub open spec fn navigating_command(key: Key, shift: bool, ctrl: bool) -> Option<Command> {
    match key {
        Key::ArrowUp => Some(arrow_command(Dir::Up, shift, ctrl)),
        Key::ArrowDown => Some(arrow_command(Dir::Down, shift, ctrl)),
        Key::ArrowLeft => Some(arrow_command(Dir::Left, shift, ctrl)),
        Key::ArrowRight => Some(arrow_command(Dir::Right, shift, ctrl)),
        Key::Tab => Some(Command::Move(if shift { Dir::Left } else { Dir::Right })),
        Key::Enter => Some(Command::Move(if shift { Dir::Up } else { Dir::Down })),
        Key::Home => Some(if ctrl { Command::MoveToOrigin } else { Command::MoveToRowStart }),
        Key::End => Some(if ctrl { Command::MoveToSheetEnd } else { Command::MoveToRowEnd }),
        Key::PageUp => Some(Command::PageUp),
        Key::PageDown => Some(Command::PageDown),
        Key::F2 => Some(Command::BeginEdit { replace_with: None }),
        Key::Delete | Key::Backspace => Some(Command::Clear),
        Key::A if ctrl => Some(Command::SelectAll),
        Key::Num8 if ctrl && shift => Some(Command::SelectRegion),
        Key::B if ctrl => Some(Command::ToggleBold),
        Key::I if ctrl => Some(Command::ToggleItalic),
        Key::U if ctrl => Some(Command::ToggleUnderline),
        Key::L if ctrl && shift => Some(Command::SetAlign(HAlign::Left)),
        Key::E if ctrl && shift => Some(Command::SetAlign(HAlign::Center)),
        Key::R if ctrl && shift => Some(Command::SetAlign(HAlign::Right)),
        Key::C if ctrl => Some(Command::Copy),
        Key::X if ctrl => Some(Command::Cut),
        Key::V if ctrl => Some(if shift { Command::PasteValues } else { Command::Paste }),
        Key::Z if ctrl => Some(if shift { Command::Redo } else { Command::Undo }),
        Key::Y if ctrl => Some(Command::Redo),
        Key::D if ctrl => Some(Command::FillDown),
        Key::R if ctrl => Some(Command::FillRight),
        Key::F if ctrl => Some(Command::OpenFind),
        Key::F3 => Some(if shift { Command::FindPrev } else { Command::FindNext }),
        Key::F1 => Some(Command::OpenHelp),
        Key::P if ctrl && shift => Some(Command::ToggleStageMode),
        Key::S if ctrl => Some(if shift { Command::SaveAs } else { Command::Save }),
        Key::O if ctrl => Some(Command::Open),
        Key::Escape => Some(Command::ClearMarquee),
        _ => None,
    }
}

/// The editing-mode bindings: Enter and Tab commit, Escape cancels, and
/// every other key belongs to the text editor.
pub open spec fn editing_command(key: Key, shift: bool) -> Option<Command> {
    match key {
        Key::Enter => Some(Command::Commit(if shift { Dir::Up } else { Dir::Down })),
        Key::Tab => Some(Command::Commit(if shift { Dir::Left } else { Dir::Right })),
        Key::Escape => Some(Command::Cancel),
        _ => None,
    }
}

/// What a non-text key press means in `mode`.
pub open spec fn key_command(key: Key, shift: bool, ctrl: bool, mode: Mode) -> Option<Command> {
    match mode {
        Mode::Navigating => navigating_command(key, shift, ctrl),
        Mode::Editing => editing_command(key, shift),
    }
}

/// What typed text means: while navigating, a first character that is
/// not a control character begins a replacing edit; otherwise nothing.
pub open spec fn text_command(text: Seq<char>, mode: Mode) -> Option<Command> {
    if mode == Mode::Navigating && text.len() > 0 && !is_cc(text[0]) {
        Some(Command::BeginEdit { replace_with: Some(text[0]) })
    } else {
        None
    }
}

/// Without Ctrl, a letter or digit key is no command while navigating:
/// the character it types begins an edit instead.
pub proof fn lemma_plain_characters_are_text(key: Key, shift: bool)
    requires
        is_character_key(key),
    ensures
        key_command(key, shift, false, Mode::Navigating) == None::<Command>,
{
}

/// While editing, only Enter, Tab and Escape are commands; every other
/// key belongs to the text editor.
pub proof fn lemma_editor_owns_other_keys(key: Key, shift: bool, ctrl: bool)
    ensures
        key_command(key, shift, ctrl, Mode::Editing) is Some <==> (key == Key::Enter || key
            == Key::Tab || key == Key::Escape),
{
}

/// While navigating, a plain arrow moves the selection one cell its way,
/// Shift extends the selection one cell, Ctrl jumps to the data edge and
/// Ctrl+Shift extends to the data edge.
pub proof fn lemma_arrows_by_modifier(shift: bool, ctrl: bool)
    ensures
        key_command(Key::ArrowUp, shift, ctrl, Mode::Navigating) == Some(
            if ctrl && shift {
                Command::JumpExtend(Dir::Up)
            } else if ctrl {
                Command::Jump(Dir::Up)
            } else if shift {
                Command::Extend(Dir::Up)
            } else {
                Command::Move(Dir::Up)
            },
        ),
        key_command(Key::ArrowDown, shift, ctrl, Mode::Navigating) == Some(
            if ctrl && shift {
                Command::JumpExtend(Dir::Down)
            } else if ctrl {
                Command::Jump(Dir::Down)
            } else if shift {
                Command::Extend(Dir::Down)
            } else {
                Command::Move(Dir::Down)
            },
        ),
        key_command(Key::ArrowLeft, shift, ctrl, Mode::Navigating) == Some(
            if ctrl && shift {
                Command::JumpExtend(Dir::Left)
            } else if ctrl {
                Command::Jump(Dir::Left)
            } else if shift {
                Command::Extend(Dir::Left)
            } else {
                Command::Move(Dir::Left)
            },
        ),
        key_command(Key::ArrowRight, shift, ctrl, Mode::Navigating) == Some(
            if ctrl && shift {
                Command::JumpExtend(Dir::Right)
            } else if ctrl {
                Command::Jump(Dir::Right)
            } else if shift {
                Command::Extend(Dir::Right)
            } else {
                Command::Move(Dir::Right)
            },
        ),
{
}

/// Interprets a non-text key press.
pub fn command_for_key(key: Key, shift: bool, ctrl: bool, mode: Mode) -> (c: Option<Command>)
    ensures
        c == key_command(key, shift, ctrl, mode),
{
    match mode {
        Mode::Navigating => navigating(key, shift, ctrl),
        Mode::Editing => editing(key, shift),
    }
}

fn navigating(key: Key, shift: bool, ctrl: bool) -> (c: Option<Command>)
    ensures
        c == navigating_command(key, shift, ctrl),
{
    match key {
        Key::ArrowUp => Some(arrow(Dir::Up, shift, ctrl)),
        Key::ArrowDown => Some(arrow(Dir::Down, shift, ctrl)),
        Key::ArrowLeft => Some(arrow(Dir::Left, shift, ctrl)),
        Key::ArrowRight => Some(arrow(Dir::Right, shift, ctrl)),
        Key::Tab => Some(Command::Move(if shift { Dir::Left } else { Dir::Right })),
        Key::Enter => Some(Command::Move(if shift { Dir::Up } else { Dir::Down })),
        Key::Home => Some(if ctrl { Command::MoveToOrigin } else { Command::MoveToRowStart }),
        Key::End => Some(if ctrl { Command::MoveToSheetEnd } else { Command::MoveToRowEnd }),
        Key::PageUp => Some(Command::PageUp),
        Key::PageDown => Some(Command::PageDown),
        Key::F2 => Some(Command::BeginEdit { replace_with: None }),
        Key::Delete | Key::Backspace => Some(Command::Clear),
        Key::A if ctrl => Some(Command::SelectAll),
        Key::Num8 if ctrl && shift => Some(Command::SelectRegion),
        Key::B if ctrl => Some(Command::ToggleBold),
        Key::I if ctrl => Some(Command::ToggleItalic),
        Key::U if ctrl => Some(Command::ToggleUnderline),
        Key::L if ctrl && shift => Some(Command::SetAlign(HAlign::Left)),
        Key::E if ctrl && shift => Some(Command::SetAlign(HAlign::Center)),
        Key::R if ctrl && shift => Some(Command::SetAlign(HAlign::Right)),
        Key::C if ctrl => Some(Command::Copy),
        Key::X if ctrl => Some(Command::Cut),
        Key::V if ctrl && shift => Some(Command::PasteValues),
        Key::V if ctrl => Some(Command::Paste),
        Key::Z if ctrl && shift => Some(Command::Redo),
        Key::Z if ctrl => Some(Command::Undo),
        Key::Y if ctrl => Some(Command::Redo),
        Key::D if ctrl => Some(Command::FillDown),
        Key::R if ctrl => Some(Command::FillRight),
        Key::F if ctrl => Some(Command::OpenFind),
        Key::F3 if shift => Some(Command::FindPrev),
        Key::F3 => Some(Command::FindNext),
        Key::F1 => Some(Command::OpenHelp),
        Key::P if ctrl && shift => Some(Command::ToggleStageMode),
        Key::S if ctrl && shift => Some(Command::SaveAs),
        Key::S if ctrl => Some(Command::Save),
        Key::O if ctrl => Some(Command::Open),
        Key::Escape => Some(Command::ClearMarquee),
        _ => None,
    }
}

/// An arrow key refined by its modifiers.
fn arrow(dir: Dir, shift: bool, ctrl: bool) -> (c: Command)
    ensures
        c == arrow_command(dir, shift, ctrl),
{
    match (ctrl, shift) {
        (true, true) => Command::JumpExtend(dir),
        (true, false) => Command::Jump(dir),
        (false, true) => Command::Extend(dir),
        (false, false) => Command::Move(dir),
    }
}

fn editing(key: Key, shift: bool) -> (c: Option<Command>)
    ensures
        c == editing_command(key, shift),
{
    match key {
        Key::Enter => Some(Command::Commit(if shift { Dir::Up } else { Dir::Down })),
        Key::Tab => Some(Command::Commit(if shift { Dir::Left } else { Dir::Right })),
        Key::Escape => Some(Command::Cancel),
        _ => None,
    }
}

/// Interprets typed text: while navigating, the first printable character
/// begins a replacing edit; while editing, the text editor owns its input.
pub fn command_for_text(text: &str, mode: Mode) -> (c: Option<Command>)
    ensures
        c == text_command(text@, mode),
{
    match mode {
        Mode::Editing => {
            return None;
        },
        Mode::Navigating => {},
    }
    if text.unicode_len() == 0 {
        return None;
    }
    let ch = text.get_char(0);
    if char_is_control(ch) {
        return None;
    }
    Some(Command::BeginEdit { replace_with: Some(ch) })
}

/// The keyboard shortcuts as `(keys, description)` pairs — the rows of
/// the help overlay.
pub fn shortcuts() -> (v: Vec<(&'static str, &'static str)>)
    ensures
        v@ == seq![
            ("Arrow keys", "Move the selection"),
            ("Shift + arrows", "Extend the selection"),
            ("Ctrl + arrows", "Jump to the data edge"),
            ("Ctrl+Shift + arrows", "Extend to the data edge"),
            ("Ctrl+A", "Select the whole sheet"),
            ("Ctrl+Shift+8", "Select the data region"),
            ("Tab / Shift+Tab", "Move right / left"),
            ("Enter / Shift+Enter", "Move down / up"),
            ("Home", "Jump to the row start"),
            ("Ctrl+Home", "Jump to the top-left cell"),
            ("End", "Jump to the row end"),
            ("Ctrl+End", "Jump to the bottom-right cell"),
            ("Page Up / Down", "Move a page up or down"),
            ("F2", "Edit the selected cell"),
            ("Delete / Backspace", "Clear the selection"),
            ("Ctrl+B / Ctrl+I", "Bold / italic"),
            ("Ctrl+U", "Underline"),
            ("Ctrl+Shift+L / E / R", "Align left / centre / right"),
            ("Ctrl+C / X / V", "Copy / cut / paste"),
            ("Ctrl+Shift+V", "Paste values only"),
            ("Esc", "Clear the cut marquee"),
            ("Ctrl+Z / Ctrl+Y", "Undo / redo"),
            ("Ctrl+D / Ctrl+R", "Fill down / right"),
            ("Ctrl+F", "Find & replace"),
            ("F3 / Shift+F3", "Find next / previous match"),
            ("F1", "This shortcuts list"),
            ("Ctrl+Shift+P", "Toggle Stage Mode (present)"),
            ("Ctrl+S", "Save the workbook"),
            ("Ctrl+Shift+S", "Save the workbook as…"),
            ("Ctrl+O", "Open a workbook"),
        ],
        forall|i: int| 0 <= i < v@.len() ==> v@[i].0@.len() > 0 && v@[i].1@.len() > 0,
{
    let mut v: Vec<(&'static str, &'static str)> = Vec::new();
    v.push(("Arrow keys", "Move the selection"));
    v.push(("Shift + arrows", "Extend the selection"));
    v.push(("Ctrl + arrows", "Jump to the data edge"));
    v.push(("Ctrl+Shift + arrows", "Extend to the data edge"));
    v.push(("Ctrl+A", "Select the whole sheet"));
    v.push(("Ctrl+Shift+8", "Select the data region"));
    v.push(("Tab / Shift+Tab", "Move right / left"));
    v.push(("Enter / Shift+Enter", "Move down / up"));
    v.push(("Home", "Jump to the row start"));
    v.push(("Ctrl+Home", "Jump to the top-left cell"));
    v.push(("End", "Jump to the row end"));
    v.push(("Ctrl+End", "Jump to the bottom-right cell"));
    v.push(("Page Up / Down", "Move a page up or down"));
    v.push(("F2", "Edit the selected cell"));
    v.push(("Delete / Backspace", "Clear the selection"));
    v.push(("Ctrl+B / Ctrl+I", "Bold / italic"));
    v.push(("Ctrl+U", "Underline"));
    v.push(("Ctrl+Shift+L / E / R", "Align left / centre / right"));
    v.push(("Ctrl+C / X / V", "Copy / cut / paste"));
    v.push(("Ctrl+Shift+V", "Paste values only"));
    v.push(("Esc", "Clear the cut marquee"));
    v.push(("Ctrl+Z / Ctrl+Y", "Undo / redo"));
    v.push(("Ctrl+D / Ctrl+R", "Fill down / right"));
    v.push(("Ctrl+F", "Find & replace"));
    v.push(("F3 / Shift+F3", "Find next / previous match"));
    v.push(("F1", "This shortcuts list"));
    v.push(("Ctrl+Shift+P", "Toggle Stage Mode (present)"));
    v.push(("Ctrl+S", "Save the workbook"));
    v.push(("Ctrl+Shift+S", "Save the workbook as…"));
    v.push(("Ctrl+O", "Open a workbook"));
    proof {
        reveal_strlit("Arrow keys");
        reveal_strlit("Move the selection");
        reveal_strlit("Shift + arrows");
        reveal_strlit("Extend the selection");
        reveal_strlit("Ctrl + arrows");
        reveal_strlit("Jump to the data edge");
        reveal_strlit("Ctrl+Shift + arrows");
        reveal_strlit("Extend to the data edge");
        reveal_strlit("Ctrl+A");
        reveal_strlit("Select the whole sheet");
        reveal_strlit("Ctrl+Shift+8");
        reveal_strlit("Select the data region");
        reveal_strlit("Tab / Shift+Tab");
        reveal_strlit("Move right / left");
        reveal_strlit("Enter / Shift+Enter");
        reveal_strlit("Move down / up");
        reveal_strlit("Home");
        reveal_strlit("Jump to the row start");
        reveal_strlit("Ctrl+Home");
        reveal_strlit("Jump to the top-left cell");
        reveal_strlit("End");
        reveal_strlit("Jump to the row end");
        reveal_strlit("Ctrl+End");
        reveal_strlit("Jump to the bottom-right cell");
        reveal_strlit("Page Up / Down");
        reveal_strlit("Move a page up or down");
        reveal_strlit("F2");
        reveal_strlit("Edit the selected cell");
        reveal_strlit("Delete / Backspace");
        reveal_strlit("Clear the selection");
        reveal_strlit("Ctrl+B / Ctrl+I");
        reveal_strlit("Bold / italic");
        reveal_strlit("Ctrl+U");
        reveal_strlit("Underline");
        reveal_strlit("Ctrl+Shift+L / E / R");
        reveal_strlit("Align left / centre / right");
        reveal_strlit("Ctrl+C / X / V");
        reveal_strlit("Copy / cut / paste");
        reveal_strlit("Ctrl+Shift+V");
        reveal_strlit("Paste values only");
        reveal_strlit("Esc");
        reveal_strlit("Clear the cut marquee");
        reveal_strlit("Ctrl+Z / Ctrl+Y");
        reveal_strlit("Undo / redo");
        reveal_strlit("Ctrl+D / Ctrl+R");
        reveal_strlit("Fill down / right");
        reveal_strlit("Ctrl+F");
        reveal_strlit("Find & replace");
        reveal_strlit("F3 / Shift+F3");
        reveal_strlit("Find next / previous match");
        reveal_strlit("F1");
        reveal_strlit("This shortcuts list");
        reveal_strlit("Ctrl+Shift+P");
        reveal_strlit("Toggle Stage Mode (present)");
        reveal_strlit("Ctrl+S");
        reveal_strlit("Save the workbook");
        reveal_strlit("Ctrl+Shift+S");
        reveal_strlit("Save the workbook as…");
        reveal_strlit("Ctrl+O");
        reveal_strlit("Open a workbook");
    }
    v
}

/// The mouse gestures as `(gesture, description)` pairs — the help
/// overlay's mouse section.
pub fn gestures() -> (v: Vec<(&'static str, &'static str)>)
    ensures
        v@ == seq![
            ("Click", "Select a cell"),
            ("Drag", "Select a range"),
            ("Shift+click", "Extend the selection"),
            ("Double-click", "Edit the cell"),
            ("Click a header", "Select the column or row"),
            ("Drag headers", "Select a column or row range"),
            ("Click the corner", "Select the whole sheet"),
            ("Double-click a border", "Autofit the column or row"),
            ("Right-click", "Cell actions menu"),
        ],
        forall|i: int| 0 <= i < v@.len() ==> v@[i].0@.len() > 0 && v@[i].1@.len() > 0,
{
    let mut v: Vec<(&'static str, &'static str)> = Vec::new();
    v.push(("Click", "Select a cell"));
    v.push(("Drag", "Select a range"));
    v.push(("Shift+click", "Extend the selection"));
    v.push(("Double-click", "Edit the cell"));
    v.push(("Click a header", "Select the column or row"));
    v.push(("Drag headers", "Select a column or row range"));
    v.push(("Click the corner", "Select the whole sheet"));
    v.push(("Double-click a border", "Autofit the column or row"));
    v.push(("Right-click", "Cell actions menu"));
    proof {
        reveal_strlit("Click");
        reveal_strlit("Select a cell");
        reveal_strlit("Drag");
        reveal_strlit("Select a range");
        reveal_strlit("Shift+click");
        reveal_strlit("Extend the selection");
        reveal_strlit("Double-click");
        reveal_strlit("Edit the cell");
        reveal_strlit("Click a header");
        reveal_strlit("Select the column or row");
        reveal_strlit("Drag headers");
        reveal_strlit("Select a column or row range");
        reveal_strlit("Click the corner");
        reveal_strlit("Select the whole sheet");
        reveal_strlit("Double-click a border");
        reveal_strlit("Autofit the column or row");
        reveal_strlit("Right-click");
        reveal_strlit("Cell actions menu");
    }
    v
}

} // verus!
