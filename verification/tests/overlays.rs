use mimo_tui::attachments::{
    AttachmentEntryKind, AttachmentPickerState, AttachmentPreview, AttachmentSuggestion,
};
use mimo_tui::keys::{
    key_route, main_key_action, KeyCode, KeyPress, KeyRoute, MainKeyAction, OpenOverlays,
};
use mimo_tui::picker_view::{match_panel_lines, picker_title, preview_panel_lines, PanelStyle};

fn no_overlays() -> OpenOverlays {
    OpenOverlays {
        approval_pending: false,
        help: false,
        command_palette: false,
        draft_browser: false,
        inspector_browser: false,
        session_picker: false,
        model_picker: false,
        message_pager: false,
        branch_selection: false,
    }
}

#[test]
fn a_pending_approval_takes_keys_before_any_overlay() {
    let mut open = no_overlays();
    assert_eq!(key_route(open), KeyRoute::Main);
    open.branch_selection = true;
    assert_eq!(key_route(open), KeyRoute::BranchSelection);
    open.help = true;
    assert_eq!(key_route(open), KeyRoute::Help);
    open.approval_pending = true;
    assert_eq!(key_route(open), KeyRoute::Approval);
}

#[test]
fn main_screen_shortcuts_come_before_editing() {
    assert_eq!(main_key_action(KeyPress::plain(KeyCode::Char('?')), true), MainKeyAction::OpenHelp);
    assert_eq!(main_key_action(KeyPress::plain(KeyCode::Char('?')), false), MainKeyAction::Edit);
    assert_eq!(
        main_key_action(KeyPress::with_control(KeyCode::Char('k')), false),
        MainKeyAction::OpenCommandPalette
    );
    assert_eq!(main_key_action(KeyPress::plain(KeyCode::F(2)), false), MainKeyAction::ToggleMode);
    assert_eq!(main_key_action(KeyPress::plain(KeyCode::Esc), true), MainKeyAction::Escape);
    assert_eq!(main_key_action(KeyPress::with_control(KeyCode::Char('d')), true), MainKeyAction::Quit);
    assert_eq!(main_key_action(KeyPress::with_control(KeyCode::Char('d')), false), MainKeyAction::Edit);
}

fn picker(suggestions: Vec<AttachmentSuggestion>, status: Option<&str>) -> AttachmentPickerState {
    AttachmentPickerState {
        query: None,
        dismissed_query: None,
        open: true,
        selected: 1,
        scroll: 0,
        suggestions,
        preview: None,
        status: status.map(|s| s.to_string()),
    }
}

fn suggestion(path: &str, kind: AttachmentEntryKind) -> AttachmentSuggestion {
    AttachmentSuggestion {
        display_path: path.to_string(),
        resolved_path: format!("/work/{path}"),
        kind,
        score: 0,
    }
}

#[test]
fn the_match_list_marks_the_selected_match() {
    let p = picker(
        vec![
            suggestion("src/", AttachmentEntryKind::Directory),
            suggestion("src/lib.rs", AttachmentEntryKind::File),
        ],
        Some("2 matches"),
    );
    let lines = match_panel_lines(&p);
    let texts: Vec<&str> = lines.iter().map(|l| l.text.as_str()).collect();
    assert_eq!(texts, vec!["  [dir] src/", "> [file] src/lib.rs", "", "2 matches"]);
    assert_eq!(lines[1].style, PanelStyle::Selected);
    assert_eq!(lines[3].style, PanelStyle::Muted);

    let empty = match_panel_lines(&picker(Vec::new(), None));
    assert_eq!(empty.len(), 1);
    assert_eq!(empty[0].text, "No attachment matches");
    assert_eq!(picker_title(2), "Matches (2) · ↑/↓ move · Tab/Enter attach · Esc cancel");
}

#[test]
fn the_preview_panel_separates_facts_lines_and_note() {
    let mut p = picker(Vec::new(), None);
    assert_eq!(preview_panel_lines(&p)[0].text, "Select a suggestion to preview it");
    p.preview = Some(AttachmentPreview {
        metadata: vec!["Path: src/".to_string()],
        lines: vec!["- lib.rs".to_string()],
        note: Some("Directory listing truncated after 50 entries".to_string()),
    });
    let lines = preview_panel_lines(&p);
    let texts: Vec<&str> = lines.iter().map(|l| l.text.as_str()).collect();
    assert_eq!(
        texts,
        vec!["Path: src/", "", "- lib.rs", "", "Directory listing truncated after 50 entries"]
    );
    assert_eq!(lines[0].style, PanelStyle::Metadata);
    assert_eq!(lines[4].style, PanelStyle::Note);
}
