use mimo_tui::input::InputBuffer;
use mimo_tui::keys::{
    closes_overlay, handle_text_input, inserts_newline, is_quit_key, opens_branch_selection,
    opens_draft_history, opens_help, opens_last_message_pager, opens_palette,
    opens_session_picker, stashes_draft, toggles_mode_shortcut, KeyCode, KeyPress,
};
use mimo_tui::models::AppMode;
use mimo_tui::tooling::next_mode;

fn mode_after(mode: AppMode, key: KeyPress) -> AppMode {
    if toggles_mode_shortcut(key) {
        next_mode(mode)
    } else {
        mode
    }
}

#[test]
fn help_overlay_opens_from_question_mark_when_input_is_empty() {
    assert!(opens_help(KeyPress::plain(KeyCode::Char('?')), true));
    assert!(!opens_help(KeyPress::plain(KeyCode::Char('?')), false));
    assert!(opens_help(KeyPress::plain(KeyCode::F(1)), false));
}

#[test]
fn escape_is_not_a_quit_key() {
    assert!(!is_quit_key(KeyPress::plain(KeyCode::Esc), true));
    assert!(is_quit_key(KeyPress::with_control(KeyCode::Char('c')), false));
    assert!(is_quit_key(KeyPress::with_control(KeyCode::Char('d')), true));
    assert!(!is_quit_key(KeyPress::with_control(KeyCode::Char('d')), false));
}

#[test]
fn last_message_pager_requires_ctrl_l() {
    assert!(!opens_last_message_pager(KeyPress::plain(KeyCode::Char('l'))));
    assert!(opens_last_message_pager(KeyPress::with_control(KeyCode::Char('l'))));
}

#[test]
fn opens_branch_selection_recognizes_ctrl_b_only() {
    assert!(!opens_branch_selection(KeyPress::plain(KeyCode::Char('b'))));
    assert!(opens_branch_selection(KeyPress::with_control(KeyCode::Char('b'))));
}

#[test]
fn ctrl_tab_toggles_mode() {
    let key = KeyPress::with_control(KeyCode::Tab);
    let mode = mode_after(AppMode::Agent, key);
    assert_eq!(mode, AppMode::Plan);
    let mode = mode_after(mode, key);
    assert_eq!(mode, AppMode::Yolo);
    let mode = mode_after(mode, key);
    assert_eq!(mode, AppMode::Agent);
}

#[test]
fn f2_toggles_mode() {
    let key = KeyPress::plain(KeyCode::F(2));
    let mode = mode_after(AppMode::Agent, key);
    assert_eq!(mode, AppMode::Plan);
    let mode = mode_after(mode, key);
    assert_eq!(mode, AppMode::Yolo);
    let mode = mode_after(mode, key);
    assert_eq!(mode, AppMode::Agent);
    assert!(!toggles_mode_shortcut(KeyPress::plain(KeyCode::Tab)));
}

#[test]
fn other_shortcuts_need_their_modifier() {
    assert!(opens_palette(KeyPress::with_control(KeyCode::Char('K'))));
    assert!(opens_session_picker(KeyPress::with_control(KeyCode::Char('r'))));
    assert!(!opens_session_picker(KeyPress::plain(KeyCode::Char('r'))));
    let alt_r = KeyPress { code: KeyCode::Char('r'), control: false, alt: true, shift: false };
    assert!(opens_draft_history(alt_r));
    assert!(stashes_draft(KeyPress::with_control(KeyCode::Char('s'))));
    let shift_enter = KeyPress { code: KeyCode::Enter, control: false, alt: false, shift: true };
    assert!(inserts_newline(shift_enter));
    assert!(!inserts_newline(KeyPress::plain(KeyCode::Enter)));
    assert!(closes_overlay(KeyPress::plain(KeyCode::Esc)));
    assert!(!closes_overlay(KeyPress::plain(KeyCode::Char('c'))));
}

#[test]
fn editing_keys_change_the_draft() {
    let mut input = InputBuffer::from("ab");
    assert!(handle_text_input(&mut input, KeyPress::plain(KeyCode::Char('c'))));
    assert_eq!(input.as_str(), "abc");
    assert!(!handle_text_input(&mut input, KeyPress::plain(KeyCode::Left)));
    assert!(handle_text_input(&mut input, KeyPress::plain(KeyCode::Backspace)));
    assert_eq!(input.as_str(), "ac");
    assert!(!handle_text_input(&mut input, KeyPress::with_control(KeyCode::Char('a'))));
    assert!(handle_text_input(&mut input, KeyPress::plain(KeyCode::Delete)));
    assert_eq!(input.as_str(), "c");
    assert!(!handle_text_input(&mut input, KeyPress::with_control(KeyCode::Char('x'))));
    assert!(handle_text_input(&mut input, KeyPress::with_control(KeyCode::Char('u'))));
    assert_eq!(input.as_str(), "");
}
