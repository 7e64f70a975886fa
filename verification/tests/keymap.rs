use tescellate_ui::format::HAlign;
use tescellate_ui::keymap::{command_for_key, command_for_text, Command, Dir, Key, Mode};

fn nav(key: Key, shift: bool, ctrl: bool) -> Option<Command> {
    command_for_key(key, shift, ctrl, Mode::Navigating)
}

fn edit(key: Key, shift: bool) -> Option<Command> {
    command_for_key(key, shift, false, Mode::Editing)
}

#[test]
fn arrows_move_the_selection() {
    assert_eq!(nav(Key::ArrowUp, false, false), Some(Command::Move(Dir::Up)));
    assert_eq!(nav(Key::ArrowDown, false, false), Some(Command::Move(Dir::Down)));
    assert_eq!(nav(Key::ArrowLeft, false, false), Some(Command::Move(Dir::Left)));
    assert_eq!(nav(Key::ArrowRight, false, false), Some(Command::Move(Dir::Right)));
}

#[test]
fn tab_and_enter_move_with_shift_reversing() {
    assert_eq!(nav(Key::Tab, false, false), Some(Command::Move(Dir::Right)));
    assert_eq!(nav(Key::Tab, true, false), Some(Command::Move(Dir::Left)));
    assert_eq!(nav(Key::Enter, false, false), Some(Command::Move(Dir::Down)));
    assert_eq!(nav(Key::Enter, true, false), Some(Command::Move(Dir::Up)));
}

#[test]
fn home_jumps_to_row_start_or_origin() {
    assert_eq!(nav(Key::Home, false, false), Some(Command::MoveToRowStart));
    assert_eq!(nav(Key::Home, false, true), Some(Command::MoveToOrigin));
}

#[test]
fn f2_begins_an_edit_in_place() {
    assert_eq!(nav(Key::F2, false, false), Some(Command::BeginEdit { replace_with: None }));
}

#[test]
fn delete_and_backspace_clear_while_navigating() {
    assert_eq!(nav(Key::Delete, false, false), Some(Command::Clear));
    assert_eq!(nav(Key::Backspace, false, false), Some(Command::Clear));
}

#[test]
fn unhandled_navigation_keys_yield_no_command() {
    assert_eq!(nav(Key::A, false, false), None);
    assert_eq!(nav(Key::Escape, false, false), None);
}

#[test]
fn editing_commits_on_enter_and_tab() {
    assert_eq!(edit(Key::Enter, false), Some(Command::Commit(Dir::Down)));
    assert_eq!(edit(Key::Enter, true), Some(Command::Commit(Dir::Up)));
    assert_eq!(edit(Key::Tab, false), Some(Command::Commit(Dir::Right)));
    assert_eq!(edit(Key::Tab, true), Some(Command::Commit(Dir::Left)));
}

#[test]
fn editing_cancels_on_escape() {
    assert_eq!(edit(Key::Escape, false), Some(Command::Cancel));
}

#[test]
fn arrows_belong_to_the_text_editor_while_editing() {
    assert_eq!(edit(Key::ArrowLeft, false), None);
    assert_eq!(edit(Key::ArrowRight, false), None);
    assert_eq!(edit(Key::Home, false), None);
}

#[test]
fn typed_text_begins_a_replace_edit_only_while_navigating() {
    assert_eq!(
        command_for_text("a", Mode::Navigating),
        Some(Command::BeginEdit { replace_with: Some('a') }),
    );
    assert_eq!(
        command_for_text("7", Mode::Navigating),
        Some(Command::BeginEdit { replace_with: Some('7') }),
    );
    assert_eq!(command_for_text("a", Mode::Editing), None);
    assert_eq!(command_for_text("", Mode::Navigating), None);
    assert_eq!(command_for_text("\t", Mode::Navigating), None);
}

#[test]
fn ctrl_shortcuts_toggle_bold_and_italic() {
    assert_eq!(nav(Key::B, false, true), Some(Command::ToggleBold));
    assert_eq!(nav(Key::I, false, true), Some(Command::ToggleItalic));
    assert_eq!(nav(Key::B, false, false), None);
    assert_eq!(nav(Key::I, false, false), None);
}

#[test]
fn ctrl_shift_letters_set_alignment() {
    assert_eq!(nav(Key::L, true, true), Some(Command::SetAlign(HAlign::Left)));
    assert_eq!(nav(Key::E, true, true), Some(Command::SetAlign(HAlign::Center)));
    assert_eq!(nav(Key::R, true, true), Some(Command::SetAlign(HAlign::Right)));
    assert_eq!(nav(Key::L, false, true), None);
}

#[test]
fn shift_arrows_extend_the_selection() {
    assert_eq!(nav(Key::ArrowUp, true, false), Some(Command::Extend(Dir::Up)));
    assert_eq!(nav(Key::ArrowRight, true, false), Some(Command::Extend(Dir::Right)));
    assert_eq!(nav(Key::ArrowUp, false, false), Some(Command::Move(Dir::Up)));
    assert_eq!(nav(Key::ArrowRight, false, false), Some(Command::Move(Dir::Right)));
}

#[test]
fn typed_text_takes_only_the_first_character() {
    assert_eq!(
        command_for_text("xyz", Mode::Navigating),
        Some(Command::BeginEdit { replace_with: Some('x') }),
    );
    assert_eq!(
        command_for_text("\u{00e9}t\u{00e9}", Mode::Navigating),
        Some(Command::BeginEdit { replace_with: Some('\u{00e9}') }),
    );
    assert_eq!(command_for_text("\u{7f}", Mode::Navigating), None);
}

#[test]
fn unbound_keys_mean_nothing_in_either_mode() {
    assert_eq!(nav(Key::Other, false, false), None);
    assert_eq!(nav(Key::Other, true, true), None);
    assert_eq!(edit(Key::Other, false), None);
}
