//! The keyboard shortcuts of the interface, over a plain description of a
//! key press: which key and which modifiers were held. The terminal layer
//! turns its events into this form.
use vstd::prelude::*;

use crate::input::{InputBuffer, InputView};

verus! {

/// The key of a key press.
#[derive(Debug, Clone, Copy, PartialEq, Eq, Structural)]
pub enum KeyCode {
    Char(char),
    F(u8),
    Enter,
    Esc,
    Tab,
    BackTab,
    Backspace,
    Delete,
    Left,
    Right,
    Up,
    Down,
    Home,
    End,
    PageUp,
    PageDown,
    Other,
}

/// A key press with the modifiers held.
#[derive(Debug, Clone, Copy, PartialEq, Eq, Structural)]
pub struct KeyPress {
    pub code: KeyCode,
    pub control: bool,
    pub alt: bool,
    pub shift: bool,
}

impl KeyPress {
    /// A key pressed without modifiers.
    pub fn plain(code: KeyCode) -> (r: KeyPress)
        ensures
            r == (KeyPress { code, control: false, alt: false, shift: false }),
    {
        KeyPress { code, control: false, alt: false, shift: false }
    }

    /// A key pressed with Control.
    pub fn with_control(code: KeyCode) -> (r: KeyPress)
        ensures
            r == (KeyPress { code, control: true, alt: false, shift: false }),
    {
        KeyPress { code, control: true, alt: false, shift: false }
    }
}

fn is_control_letter(key: KeyPress, lower: char, upper: char) -> (r: bool)
    ensures
        r == (key.control && (key.code == KeyCode::Char(lower) || key.code == KeyCode::Char(upper))),
{
    key.control && match key.code {
        KeyCode::Char(c) => c == lower || c == upper,
        _ => false,
    }
}

/// F1, or `?` typed into an empty draft, opens the help.
pub fn opens_help(key: KeyPress, input_is_empty: bool) -> (r: bool)
    ensures
        r == (key.code == KeyCode::F(1) || (input_is_empty && key.code == KeyCode::Char('?'))),
{
    match key.code {
        KeyCode::F(n) => n == 1,
        KeyCode::Char(c) => input_is_empty && c == '?',
        _ => false,
    }
}

/// Control-K opens the command palette.
pub fn opens_palette(key: KeyPress) -> (r: bool)
    ensures
        r == (key.control && (key.code == KeyCode::Char('k') || key.code == KeyCode::Char('K'))),
{
    is_control_letter(key, 'k', 'K')
}

/// Control-R opens the session picker.
pub fn opens_session_picker(key: KeyPress) -> (r: bool)
    ensures
        r == (key.control && (key.code == KeyCode::Char('r') || key.code == KeyCode::Char('R'))),
{
    is_control_letter(key, 'r', 'R')
}

/// Alt-R opens the draft history.
pub fn opens_draft_history(key: KeyPress) -> (r: bool)
    ensures
        r == (key.alt && (key.code == KeyCode::Char('r') || key.code == KeyCode::Char('R'))),
{
    key.alt && match key.code {
        KeyCode::Char(c) => c == 'r' || c == 'R',
        _ => false,
    }
}

/// Control-S stashes the draft.
pub fn stashes_draft(key: KeyPress) -> (r: bool)
    ensures
        r == (key.control && (key.code == KeyCode::Char('s') || key.code == KeyCode::Char('S'))),
{
    is_control_letter(key, 's', 'S')
}

/// Control-L opens the last message in the pager.
pub fn opens_last_message_pager(key: KeyPress) -> (r: bool)
    ensures
        r == (key.control && (key.code == KeyCode::Char('l') || key.code == KeyCode::Char('L'))),
{
    is_control_letter(key, 'l', 'L')
}

/// Control-B opens the branch selection.
pub fn opens_branch_selection(key: KeyPress) -> (r: bool)
    ensures
        r == (key.control && (key.code == KeyCode::Char('b') || key.code == KeyCode::Char('B'))),
{
    is_control_letter(key, 'b', 'B')
}

/// F2, or Control with Tab or Back-Tab, switches to the next mode.
pub fn toggles_mode_shortcut(key: KeyPress) -> (r: bool)
    ensures
        r == (key.code == KeyCode::F(2) || ((key.code == KeyCode::Tab || key.code == KeyCode::BackTab)
            && key.control)),
{
    match key.code {
        KeyCode::F(n) => n == 2,
        KeyCode::Tab | KeyCode::BackTab => key.control,
        _ => false,
    }
}

/// Shift with any key, or Alt-Enter, puts a line break in the draft.
pub fn inserts_newline(key: KeyPress) -> (r: bool)
    ensures
        r == (key.shift || (key.code == KeyCode::Enter && key.alt)),
{
    key.shift || (key.alt && match key.code {
        KeyCode::Enter => true,
        _ => false,
    })
}

/// Escape, F1 or Control-C closes an overlay.
pub fn closes_overlay(key: KeyPress) -> (r: bool)
    ensures
        r == (key.code == KeyCode::Esc || key.code == KeyCode::F(1) || (key.code == KeyCode::Char('c')
            && key.control)),
{
    match key.code {
        KeyCode::Esc => true,
        KeyCode::F(n) => n == 1,
        KeyCode::Char(c) => c == 'c' && key.control,
        _ => false,
    }
}

/// Control-C quits; so does Control-D on an empty draft. Escape never does.
pub fn is_quit_key(key: KeyPress, input_is_empty: bool) -> (r: bool)
    ensures
        r == ((key.code == KeyCode::Char('c') && key.control) || (input_is_empty && key.code
            == KeyCode::Char('d') && key.control)),
{
    match key.code {
        KeyCode::Char(c) => key.control && (c == 'c' || (input_is_empty && c == 'd')),
        _ => false,
    }
}

/// What a key does to the draft, and whether the draft's text changed.
pub open spec fn text_input_effect(v: InputView, key: KeyPress) -> (InputView, bool) {
    match key.code {
        KeyCode::Backspace => (crate::input::backspace_spec(v), true),
        KeyCode::Delete => (crate::input::delete_spec(v), true),
        KeyCode::Left => (crate::input::move_left_spec(v), false),
        KeyCode::Right => (crate::input::move_right_spec(v), false),
        KeyCode::Char(c) => if key.control && (c == 'a' || c == 'A') {
            (InputView { text: v.text, cursor: crate::input::line_start(v.text, v.cursor as int) }, false)
        } else if key.control && (c == 'e' || c == 'E') {
            (InputView { text: v.text, cursor: crate::input::line_end(v.text, v.cursor as int) }, false)
        } else if key.control && (c == 'u' || c == 'U') {
            (InputView { text: Seq::empty(), cursor: 0 }, true)
        } else if !key.control && !key.alt {
            (crate::input::insert_char_spec(v, c), true)
        } else {
            (v, false)
        },
        _ => (v, false),
    }
}

/// Applies an editing key to the draft: deleting, moving, clearing with
/// Control-U, or typing a character; gives whether the text changed.
pub fn handle_text_input(input: &mut InputBuffer, key: KeyPress) -> (r: bool)
    requires
        old(input)@.text.len() < usize::MAX,
    ensures
        (final(input)@, r) == text_input_effect(old(input)@, key),
{
    match key.code {
        KeyCode::Backspace => {
            input.backspace();
            true
        },
        KeyCode::Delete => {
            input.delete();
            true
        },
        KeyCode::Left => {
            input.move_left();
            false
        },
        KeyCode::Right => {
            input.move_right();
            false
        },
        KeyCode::Char(c) => {
            if key.control && (c == 'a' || c == 'A') {
                input.move_to_line_start();
                false
            } else if key.control && (c == 'e' || c == 'E') {
                input.move_to_line_end();
                false
            } else if key.control && (c == 'u' || c == 'U') {
                input.clear();
                true
            } else if !key.control && !key.alt {
                input.insert_char(c);
                true
            } else {
                false
            }
        },
        _ => false,
    }
}

/// Which overlays are open when a key arrives.
#[derive(Debug, Clone, Copy, PartialEq, Eq, Structural)]
pub struct OpenOverlays {
    pub approval_pending: bool,
    pub help: bool,
    pub command_palette: bool,
    pub draft_browser: bool,
    pub inspector_browser: bool,
    pub session_picker: bool,
    pub model_picker: bool,
    pub message_pager: bool,
    pub branch_selection: bool,
}

/// Who gets a key first.
#[derive(Debug, Clone, Copy, PartialEq, Eq, Structural)]
pub enum KeyRoute {
    Approval,
    Help,
    CommandPalette,
    DraftBrowser,
    InspectorBrowser,
    SessionPicker,
    ModelPicker,
    MessagePager,
    BranchSelection,
    /// No modal overlay is open: the attachment picker (where visible) and
    /// the slash menu may take the key, then the shortcuts and the editor.
    Main,
}

/// The overlay that takes a key: a pending approval first, then help, the
/// command palette, the draft browser, the inspector, the session picker,
/// the model picker, the message pager and the branch selection.
pub open spec fn key_route_of(o: OpenOverlays) -> KeyRoute {
    if o.approval_pending {
        KeyRoute::Approval
    } else if o.help {
        KeyRoute::Help
    } else if o.command_palette {
        KeyRoute::CommandPalette
    } else if o.draft_browser {
        KeyRoute::DraftBrowser
    } else if o.inspector_browser {
        KeyRoute::InspectorBrowser
    } else if o.session_picker {
        KeyRoute::SessionPicker
    } else if o.model_picker {
        KeyRoute::ModelPicker
    } else if o.message_pager {
        KeyRoute::MessagePager
    } else if o.branch_selection {
        KeyRoute::BranchSelection
    } else {
        KeyRoute::Main
    }
}

pub fn key_route(o: OpenOverlays) -> (r: KeyRoute)
    ensures
        r == key_route_of(o),
{
    if o.approval_pending {
        KeyRoute::Approval
    } else if o.help {
        KeyRoute::Help
    } else if o.command_palette {
        KeyRoute::CommandPalette
    } else if o.draft_browser {
        KeyRoute::DraftBrowser
    } else if o.inspector_browser {
        KeyRoute::InspectorBrowser
    } else if o.session_picker {
        KeyRoute::SessionPicker
    } else if o.model_picker {
        KeyRoute::ModelPicker
    } else if o.message_pager {
        KeyRoute::MessagePager
    } else if o.branch_selection {
        KeyRoute::BranchSelection
    } else {
        KeyRoute::Main
    }
}

/// What a key does on the main screen, once no overlay or menu took it.
#[derive(Debug, Clone, Copy, PartialEq, Eq, Structural)]
pub enum MainKeyAction {
    OpenHelp,
    OpenCommandPalette,
    OpenSessionPicker,
    OpenDraftHistory,
    StashDraft,
    OpenLastMessagePager,
    ToggleMode,
    OpenBranchSelection,
    Escape,
    Quit,
    /// The editor, scrolling and submission handle the key.
    Edit,
}

/// The shortcuts of the main screen, in the order they are tried: help,
/// palette, session picker, draft history, stash, pager, mode, branch
/// selection, Escape, then quitting.
pub open spec fn main_key_action_of(key: KeyPress, input_is_empty: bool) -> MainKeyAction {
    if key.code == KeyCode::F(1) || (input_is_empty && key.code == KeyCode::Char('?')) {
        MainKeyAction::OpenHelp
    } else if key.control && (key.code == KeyCode::Char('k') || key.code == KeyCode::Char('K')) {
        MainKeyAction::OpenCommandPalette
    } else if key.control && (key.code == KeyCode::Char('r') || key.code == KeyCode::Char('R')) {
        MainKeyAction::OpenSessionPicker
    } else if key.alt && (key.code == KeyCode::Char('r') || key.code == KeyCode::Char('R')) {
        MainKeyAction::OpenDraftHistory
    } else if key.control && (key.code == KeyCode::Char('s') || key.code == KeyCode::Char('S')) {
        MainKeyAction::StashDraft
    } else if key.control && (key.code == KeyCode::Char('l') || key.code == KeyCode::Char('L')) {
        MainKeyAction::OpenLastMessagePager
    } else if key.code == KeyCode::F(2) || ((key.code == KeyCode::Tab || key.code == KeyCode::BackTab)
        && key.control) {
        MainKeyAction::ToggleMode
    } else if key.control && (key.code == KeyCode::Char('b') || key.code == KeyCode::Char('B')) {
        MainKeyAction::OpenBranchSelection
    } else if key.code == KeyCode::Esc {
        MainKeyAction::Escape
    } else if (key.code == KeyCode::Char('c') && key.control) || (input_is_empty && key.code
        == KeyCode::Char('d') && key.control) {
        MainKeyAction::Quit
    } else {
        MainKeyAction::Edit
    }
}

pub fn main_key_action(key: KeyPress, input_is_empty: bool) -> (r: MainKeyAction)
    ensures
        r == main_key_action_of(key, input_is_empty),
{
    if opens_help(key, input_is_empty) {
        MainKeyAction::OpenHelp
    } else if opens_palette(key) {
        MainKeyAction::OpenCommandPalette
    } else if opens_session_picker(key) {
        MainKeyAction::OpenSessionPicker
    } else if opens_draft_history(key) {
        MainKeyAction::OpenDraftHistory
    } else if stashes_draft(key) {
        MainKeyAction::StashDraft
    } else if opens_last_message_pager(key) {
        MainKeyAction::OpenLastMessagePager
    } else if toggles_mode_shortcut(key) {
        MainKeyAction::ToggleMode
    } else if opens_branch_selection(key) {
        MainKeyAction::OpenBranchSelection
    } else if key.code == KeyCode::Esc {
        MainKeyAction::Escape
    } else if is_quit_key(key, input_is_empty) {
        MainKeyAction::Quit
    } else {
        MainKeyAction::Edit
    }
}

} // verus!
