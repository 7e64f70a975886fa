use tescellate_ui::carbide::keymap::{command_for_key, command_for_text, gestures, shortcuts, Command};
use tescellate_ui::format::HAlign;
use tescellate_ui::keymap::{Dir, Key, Mode};

fn nav(key: Key, shift: bool, ctrl: bool) -> Option<Command> {
    command_for_key(key, shift, ctrl, Mode::Navigating)
}

fn edit(key: Key, shift: bool) -> Option<Command> {
    command_for_key(key, shift, false, Mode::Editing)
}

#[test]
fn save_open_keymap_bindings() {
    assert_eq!(nav(Key::S, false, true), Some(Command::Save));
    assert_eq!(nav(Key::S, true, true), Some(Command::SaveAs));
    assert_eq!(nav(Key::O, false, true), Some(Command::Open));
    assert_eq!(nav(Key::S, false, false), None);
    assert_eq!(nav(Key::O, false, false), None);
}

#[test]
fn keymap_arrows_move_the_selection() {
    assert_eq!(nav(Key::ArrowUp, false, false), Some(Command::Move(Dir::Up)));
    assert_eq!(nav(Key::ArrowDown, false, false), Some(Command::Move(Dir::Down)));
    assert_eq!(nav(Key::ArrowLeft, false, false), Some(Command::Move(Dir::Left)));
    assert_eq!(nav(Key::ArrowRight, false, false), Some(Command::Move(Dir::Right)));
}

#[test]
fn keymap_tab_and_enter_move_with_shift_reversing() {
    assert_eq!(nav(Key::Tab, false, false), Some(Command::Move(Dir::Right)));
    assert_eq!(nav(Key::Tab, true, false), Some(Command::Move(Dir::Left)));
    assert_eq!(nav(Key::Enter, false, false), Some(Command::Move(Dir::Down)));
    assert_eq!(nav(Key::Enter, true, false), Some(Command::Move(Dir::Up)));
}

#[test]
fn keymap_home_jumps_to_row_start_or_origin() {
    assert_eq!(nav(Key::Home, false, false), Some(Command::MoveToRowStart));
    assert_eq!(nav(Key::Home, false, true), Some(Command::MoveToOrigin));
}

#[test]
fn end_jumps_to_row_end_or_sheet_end() {
    assert_eq!(nav(Key::End, false, false), Some(Command::MoveToRowEnd));
    assert_eq!(nav(Key::End, false, true), Some(Command::MoveToSheetEnd));
}

#[test]
fn page_keys_move_a_page() {
    assert_eq!(nav(Key::PageUp, false, false), Some(Command::PageUp));
    assert_eq!(nav(Key::PageDown, false, false), Some(Command::PageDown));
}

#[test]
fn keymap_f2_begins_an_edit_in_place() {
    assert_eq!(nav(Key::F2, false, false), Some(Command::BeginEdit { replace_with: None }));
}

#[test]
fn keymap_delete_and_backspace_clear_while_navigating() {
    assert_eq!(nav(Key::Delete, false, false), Some(Command::Clear));
    assert_eq!(nav(Key::Backspace, false, false), Some(Command::Clear));
}

#[test]
fn keymap_unhandled_navigation_keys_yield_no_command() {
    assert_eq!(nav(Key::A, false, false), None);
}

#[test]
fn escape_clears_the_marquee_while_navigating() {
    assert_eq!(nav(Key::Escape, false, false), Some(Command::ClearMarquee));
    assert_eq!(edit(Key::Escape, false), Some(Command::Cancel));
}

#[test]
fn keymap_editing_commits_on_enter_and_tab() {
    assert_eq!(edit(Key::Enter, false), Some(Command::Commit(Dir::Down)));
    assert_eq!(edit(Key::Enter, true), Some(Command::Commit(Dir::Up)));
    assert_eq!(edit(Key::Tab, false), Some(Command::Commit(Dir::Right)));
    assert_eq!(edit(Key::Tab, true), Some(Command::Commit(Dir::Left)));
}

#[test]
fn keymap_editing_cancels_on_escape() {
    assert_eq!(edit(Key::Escape, false), Some(Command::Cancel));
}

#[test]
fn keymap_arrows_belong_to_the_text_editor_while_editing() {
    assert_eq!(edit(Key::ArrowLeft, false), None);
    assert_eq!(edit(Key::ArrowRight, false), None);
    assert_eq!(edit(Key::Home, false), None);
}

#[test]
fn keymap_typed_text_begins_a_replace_edit_only_while_navigating() {
    assert_eq!(
        command_for_text("a", Mode::Navigating),
        Some(Command::BeginEdit { replace_with: Some('a') }),
    );
    assert_eq!(
        command_for_text("7", Mode::Navigating),
        Some(Command::BeginEdit { replace_with: Some('7') }),
    );
    assert_eq!(command_for_text("a", Mode::Editing), None);
    assert_eq!(command_for_text("", Mode::Navigating), None);
    assert_eq!(command_for_text("\t", Mode::Navigating), None);
}

#[test]
fn keymap_ctrl_shortcuts_toggle_bold_and_italic() {
    assert_eq!(nav(Key::B, false, true), Some(Command::ToggleBold));
    assert_eq!(nav(Key::I, false, true), Some(Command::ToggleItalic));
    assert_eq!(nav(Key::B, false, false), None);
    assert_eq!(nav(Key::I, false, false), None);
}

#[test]
fn ctrl_u_toggles_underline() {
    assert_eq!(nav(Key::U, false, true), Some(Command::ToggleUnderline));
    assert_eq!(nav(Key::U, false, false), None);
}

#[test]
fn keymap_ctrl_shift_letters_set_alignment() {
    assert_eq!(nav(Key::L, true, true), Some(Command::SetAlign(HAlign::Left)));
    assert_eq!(nav(Key::E, true, true), Some(Command::SetAlign(HAlign::Center)));
    assert_eq!(nav(Key::R, true, true), Some(Command::SetAlign(HAlign::Right)));
    assert_eq!(nav(Key::L, false, true), None);
}

#[test]
fn keymap_shift_arrows_extend_the_selection() {
    assert_eq!(nav(Key::ArrowUp, true, false), Some(Command::Extend(Dir::Up)));
    assert_eq!(nav(Key::ArrowRight, true, false), Some(Command::Extend(Dir::Right)));
    assert_eq!(nav(Key::ArrowUp, false, false), Some(Command::Move(Dir::Up)));
    assert_eq!(nav(Key::ArrowRight, false, false), Some(Command::Move(Dir::Right)));
}

#[test]
fn ctrl_arrows_jump_to_the_data_edge() {
    assert_eq!(nav(Key::ArrowRight, false, true), Some(Command::Jump(Dir::Right)));
    assert_eq!(nav(Key::ArrowUp, false, true), Some(Command::Jump(Dir::Up)));
}

#[test]
fn ctrl_shift_arrows_extend_to_the_data_edge() {
    assert_eq!(nav(Key::ArrowDown, true, true), Some(Command::JumpExtend(Dir::Down)));
    assert_eq!(nav(Key::ArrowLeft, true, true), Some(Command::JumpExtend(Dir::Left)));
}

#[test]
fn ctrl_c_v_x_copy_paste_cut() {
    assert_eq!(nav(Key::C, false, true), Some(Command::Copy));
    assert_eq!(nav(Key::V, false, true), Some(Command::Paste));
    assert_eq!(nav(Key::X, false, true), Some(Command::Cut));
    assert_eq!(nav(Key::C, false, false), None);
    assert_eq!(nav(Key::X, false, false), None);
}

#[test]
fn ctrl_shift_v_pastes_values_only() {
    assert_eq!(nav(Key::V, true, true), Some(Command::PasteValues));
    assert_eq!(nav(Key::V, false, true), Some(Command::Paste));
}

#[test]
fn ctrl_z_and_y_undo_and_redo() {
    assert_eq!(nav(Key::Z, false, true), Some(Command::Undo));
    assert_eq!(nav(Key::Y, false, true), Some(Command::Redo));
    assert_eq!(nav(Key::Z, true, true), Some(Command::Redo));
    assert_eq!(nav(Key::Z, false, false), None);
}

#[test]
fn ctrl_d_and_ctrl_r_fill() {
    assert_eq!(nav(Key::D, false, true), Some(Command::FillDown));
    assert_eq!(nav(Key::R, false, true), Some(Command::FillRight));
    assert_eq!(nav(Key::R, true, true), Some(Command::SetAlign(HAlign::Right)));
    assert_eq!(nav(Key::D, false, false), None);
}

#[test]
fn ctrl_f_opens_find() {
    assert_eq!(nav(Key::F, false, true), Some(Command::OpenFind));
    assert_eq!(nav(Key::F, false, false), None);
}

#[test]
fn f3_steps_to_the_next_or_previous_find_match() {
    assert_eq!(nav(Key::F3, false, false), Some(Command::FindNext));
    assert_eq!(nav(Key::F3, true, false), Some(Command::FindPrev));
}

#[test]
fn ctrl_a_selects_all() {
    assert_eq!(nav(Key::A, false, true), Some(Command::SelectAll));
    assert_eq!(nav(Key::A, false, false), None);
}

#[test]
fn ctrl_shift_8_selects_the_region() {
    assert_eq!(nav(Key::Num8, true, true), Some(Command::SelectRegion));
    assert_eq!(nav(Key::Num8, false, true), None);
}

#[test]
fn f1_opens_the_help_overlay() {
    assert_eq!(nav(Key::F1, false, false), Some(Command::OpenHelp));
    let list = shortcuts();
    assert!(!list.is_empty());
    assert!(list.iter().all(|(k, d)| !k.is_empty() && !d.is_empty()));
}

#[test]
fn gestures_list_is_well_formed() {
    let list = gestures();
    assert!(!list.is_empty());
    assert!(list.iter().all(|(g, d)| !g.is_empty() && !d.is_empty()));
}

#[test]
fn ctrl_shift_p_toggles_stage_mode() {
    assert_eq!(nav(Key::P, true, true), Some(Command::ToggleStageMode));
    assert_eq!(nav(Key::P, false, true), None);
    assert_eq!(nav(Key::P, false, false), None);
}

#[test]
fn the_shortcut_list_leads_with_the_arrow_keys() {
    let list = shortcuts();
    assert_eq!(list.len(), 30);
    assert_eq!(list[0], ("Arrow keys", "Move the selection"));
    assert_eq!(list[29], ("Ctrl+O", "Open a workbook"));
    assert_eq!(gestures().len(), 9);
}
