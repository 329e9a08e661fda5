use mimo_tui::attachments::{AttachmentPickerState, AttachmentQuery};
use mimo_tui::branch::ConversationTree;
use mimo_tui::events::{apply_event, apply_tree_delta, StreamState, UiEvent};
use mimo_tui::models::AppMode;
use mimo_tui::prompting::{base_request_messages, conversation_request};
use mimo_tui::protocol::ChatMessage;
use mimo_tui::session::restore_conversation;

fn closed_picker() -> AttachmentPickerState {
    AttachmentPickerState {
        query: None,
        dismissed_query: None,
        open: false,
        selected: 0,
        scroll: 0,
        suggestions: Vec::new(),
        preview: None,
        status: None,
    }
}

#[test]
fn request_messages_reads_from_the_conversation_tree() {
    let tree = ConversationTree::from_flat_messages(vec![ChatMessage::user("hello")]);
    let mut messages = tree.current_messages();
    messages.push(ChatMessage::assistant("stale cache"));

    let base = base_request_messages("system", AppMode::Agent, &Vec::new(), &Vec::new());
    let request_messages = conversation_request(base, &Vec::new(), Vec::new(), &tree);

    assert!(request_messages.iter().any(|message| message.content == "hello"));
    assert!(!request_messages.iter().any(|message| message.content == "stale cache"));
}

#[test]
fn stream_deltas_update_the_tree_backed_assistant_message() {
    let mut tree = ConversationTree::new();
    tree.add_message_to_current(ChatMessage::user("hello"));
    let assistant_message_id = tree.add_message_to_current(ChatMessage::assistant(""));
    let mut state = StreamState {
        messages: tree.current_messages(),
        assistant_index: Some(1),
        streaming: true,
        status: String::new(),
        discovered_models: Vec::new(),
        models_loading: false,
        diagnostics_auto_run: false,
        diagnostics_summary: None,
    };

    apply_event(&mut state, UiEvent::Delta("hi".to_string()));
    apply_tree_delta(&mut tree, &assistant_message_id, "hi");

    assert_eq!(state.messages[1].content, "hi");
    assert_eq!(
        tree.node(&assistant_message_id)
            .expect("assistant message should exist")
            .message
            .content
            .as_str(),
        "hi"
    );
}

#[test]
fn apply_loaded_session_restores_saved_branch_tree() {
    let mut attachment_picker = AttachmentPickerState {
        query: Some(AttachmentQuery { token_start: 0, token_end: 1, raw: String::new() }),
        dismissed_query: None,
        open: true,
        selected: 0,
        scroll: 0,
        suggestions: Vec::new(),
        preview: None,
        status: Some("open".to_string()),
    };
    let mut tree = ConversationTree::from_flat_messages(vec![
        ChatMessage::user("hello"),
        ChatMessage::assistant("hi"),
        ChatMessage::user("follow up"),
        ChatMessage::assistant("answer"),
    ]);
    tree.create_branch_from_message("msg-2").expect("branch should be created");
    tree.add_message_to_current(ChatMessage::user("branched prompt"));
    tree.add_message_to_current(ChatMessage::assistant("branched answer"));
    let messages = tree.current_messages();

    assert!(attachment_picker.is_visible());
    let (conversation_tree, note) = restore_conversation(Some(tree), messages);
    assert_eq!(note, "");
    // Loading a session closes the attachment picker.
    attachment_picker = closed_picker();
    let restored = conversation_tree.current_messages();

    assert_eq!(conversation_tree.branch_count(), 2);
    assert_eq!(conversation_tree.current_branch_id(), "branch-2");
    assert!(!attachment_picker.is_visible());
    assert_eq!(restored.last().map(|message| message.content.as_str()), Some("branched answer"));
}

#[test]
fn apply_loaded_session_migrates_legacy_flat_messages() {
    let (conversation_tree, note) = restore_conversation(
        None,
        vec![ChatMessage::user("legacy"), ChatMessage::assistant("session")],
    );

    assert_eq!(conversation_tree.branch_count(), 1);
    assert_eq!(conversation_tree.current_messages().len(), 2);
    assert_eq!(conversation_tree.current_branch_id(), "branch-1");
    assert_eq!(note, "");
}

#[test]
fn a_saved_tree_that_cannot_be_repaired_gives_way_to_the_flat_messages() {
    let tree = ConversationTree::from_flat_messages(vec![ChatMessage::user("a")]);
    let broken = ConversationTree::from_parts(
        Vec::new(),
        Vec::new(),
        tree.branches().to_vec(),
        "branch-1".to_string(),
        2,
        2,
    )
    .expect("distinct ids");
    let (restored, note) = restore_conversation(Some(broken), vec![ChatMessage::user("a")]);
    assert_eq!(note, " (branch data ignored: branch branch-1 references missing message msg-1)");
    assert_eq!(restored.current_messages().len(), 1);
}
