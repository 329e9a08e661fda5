use mimo_tui::branch::ConversationTree;
use mimo_tui::commands::PlanCommand;
use mimo_tui::models::PlanItem;
use mimo_tui::protocol::ChatMessage;
use mimo_tui::session::{
    apply_plan_command, branch_command, branches_report, default_branch_source_number,
    last_user_prompt, plan_summary,
};

fn tree_of(messages: Vec<ChatMessage>) -> ConversationTree {
    ConversationTree::from_flat_messages(messages)
}

#[test]
fn branch_command_creates_branch_from_explicit_index() {
    let mut tree = tree_of(vec![
        ChatMessage::user("hello"),
        ChatMessage::assistant("hi"),
        ChatMessage::user("follow up"),
        ChatMessage::assistant("answer"),
    ]);
    let messages = tree.current_messages();
    let status = branch_command(&mut tree, &messages, false, Some(2));

    assert_eq!(tree.branch_count(), 2);
    assert_eq!(tree.current_branch_id(), "branch-2");
    assert_eq!(tree.current_messages().len(), 2);
    assert!(status.contains("Created branch branch-2 from message 2"));
}

#[test]
fn branch_command_defaults_to_last_user_message() {
    let mut tree = tree_of(vec![
        ChatMessage::system("summary"),
        ChatMessage::user("hello"),
        ChatMessage::assistant("hi"),
        ChatMessage::user("follow up"),
        ChatMessage::assistant("answer"),
    ]);
    let messages = tree.current_messages();
    let status = branch_command(&mut tree, &messages, false, None);
    let visible = tree.current_messages();

    assert_eq!(visible.len(), 4);
    assert_eq!(
        visible.last().map(|message| message.content.as_str()),
        Some("follow up")
    );
    assert!(status.contains("message 4"));
}

#[test]
fn branch_command_rejects_invalid_index() {
    let mut tree = tree_of(vec![ChatMessage::user("hello")]);
    let messages = tree.current_messages();
    let status = branch_command(&mut tree, &messages, false, Some(9));

    assert_eq!(tree.branch_count(), 1);
    assert_eq!(status, "Message 9 is out of range");
}

#[test]
fn branch_command_rejects_system_messages() {
    let mut tree = tree_of(vec![ChatMessage::system("summary"), ChatMessage::user("hello")]);
    let messages = tree.current_messages();
    let status = branch_command(&mut tree, &messages, false, Some(1));

    assert_eq!(tree.branch_count(), 1);
    assert_eq!(status, "Cannot branch from system message 1");
}

#[test]
fn branch_command_refuses_while_streaming_and_for_zero() {
    let mut tree = tree_of(vec![ChatMessage::user("hello")]);
    let messages = tree.current_messages();
    assert_eq!(
        branch_command(&mut tree, &messages, true, Some(1)),
        "Cannot branch while MiMo is responding"
    );
    assert_eq!(branch_command(&mut tree, &messages, false, Some(0)), "Message numbers start at 1");
    let mut empty = tree_of(Vec::new());
    assert_eq!(
        branch_command(&mut empty, &Vec::new(), false, None),
        "No conversation messages available to branch"
    );
    let mut only_system = tree_of(vec![ChatMessage::system("s")]);
    let messages = only_system.current_messages();
    assert_eq!(
        branch_command(&mut only_system, &messages, false, None),
        "No branchable messages are available in this conversation"
    );
    assert_eq!(tree.branch_count(), 1);
}

#[test]
fn branches_command_lists_current_branch_and_ids() {
    let mut tree = tree_of(vec![
        ChatMessage::user("hello"),
        ChatMessage::assistant("hi"),
        ChatMessage::user("follow up"),
        ChatMessage::assistant("answer"),
    ]);
    let messages = tree.current_messages();
    branch_command(&mut tree, &messages, false, Some(2));

    let output = branches_report(&tree.branch_summaries());
    assert!(output.contains("branch-1"));
    assert!(output.contains("branch-2"));
    assert!(output.contains("* branch-2"));
    assert!(output.starts_with("Conversation branches\n\n"));
}

#[test]
fn switch_branch_changes_visible_messages() {
    let mut tree = tree_of(vec![
        ChatMessage::user("hello"),
        ChatMessage::assistant("hi"),
        ChatMessage::user("follow up"),
        ChatMessage::assistant("answer"),
    ]);
    let messages = tree.current_messages();
    branch_command(&mut tree, &messages, false, Some(2));
    tree.add_message_to_current(ChatMessage::user("branched question"));
    tree.add_message_to_current(ChatMessage::assistant("branched answer"));

    tree.switch_branch("branch-1").expect("switch should succeed");
    let visible = tree.current_messages();
    assert_eq!(visible.len(), 4);
    assert_eq!(visible.last().map(|m| m.content.as_str()), Some("answer"));

    tree.switch_branch("branch-2").expect("switch should succeed");
    let visible = tree.current_messages();
    assert_eq!(visible.len(), 4);
    assert_eq!(visible.last().map(|m| m.content.as_str()), Some("branched answer"));
}

#[test]
fn switching_branches_updates_last_prompt_for_retry() {
    let mut tree = tree_of(vec![
        ChatMessage::user("root prompt"),
        ChatMessage::assistant("root answer"),
        ChatMessage::user("original prompt"),
        ChatMessage::assistant("original answer"),
    ]);
    let messages = tree.current_messages();
    branch_command(&mut tree, &messages, false, Some(1));
    tree.add_message_to_current(ChatMessage::user("branch prompt"));
    tree.add_message_to_current(ChatMessage::assistant("branch answer"));

    tree.switch_branch("branch-1").expect("switch should succeed");
    assert_eq!(last_user_prompt(&tree.current_messages()).as_deref(), Some("original prompt"));

    tree.switch_branch("branch-2").expect("switch should succeed");
    assert_eq!(last_user_prompt(&tree.current_messages()).as_deref(), Some("branch prompt"));
}

#[test]
fn plan_commands_update_checklist() {
    let mut items: Vec<PlanItem> = Vec::new();
    apply_plan_command(&mut items, PlanCommand::Add("Ship command palette".to_string()));
    apply_plan_command(&mut items, PlanCommand::Done(1));
    assert_eq!(items.len(), 1);
    assert!(items[0].done);
}

#[test]
fn plan_checklist_texts() {
    let mut items: Vec<PlanItem> = Vec::new();
    assert_eq!(plan_summary(&items), "Plan checklist\n\nNo plan items yet.");
    let r = apply_plan_command(&mut items, PlanCommand::Add("a".to_string()));
    assert_eq!(r.status, "Added plan item: a");
    apply_plan_command(&mut items, PlanCommand::Add("b".to_string()));
    apply_plan_command(&mut items, PlanCommand::Done(2));
    assert_eq!(plan_summary(&items), "Plan checklist\n\n1. [ ] a\n2. [x] b\n");
    let shown = apply_plan_command(&mut items, PlanCommand::Show);
    assert_eq!(shown.message.as_deref(), Some("Plan checklist\n\n1. [ ] a\n2. [x] b\n"));
    assert_eq!(apply_plan_command(&mut items, PlanCommand::Undo(2)).status, "Reopened plan item 2");
    assert!(!items[1].done);
    assert_eq!(apply_plan_command(&mut items, PlanCommand::Done(7)).status, "Unknown plan item 7");
    assert_eq!(apply_plan_command(&mut items, PlanCommand::Remove(0)).status, "Removed plan item 1");
    assert_eq!(items.len(), 1);
    assert_eq!(items[0].text, "b");
    assert_eq!(apply_plan_command(&mut items, PlanCommand::Remove(5)).status, "Unknown plan item 5");
    assert_eq!(apply_plan_command(&mut items, PlanCommand::Clear).status, "Plan checklist cleared");
    assert!(items.is_empty());
}

#[test]
fn default_branch_source_prefers_the_last_user_message() {
    let messages = vec![
        ChatMessage::user("a"),
        ChatMessage::assistant("b"),
        ChatMessage::system("c"),
    ];
    assert_eq!(default_branch_source_number(&messages), Some(1));
    let no_user = vec![ChatMessage::system("s"), ChatMessage::assistant("x"), ChatMessage::system("t")];
    assert_eq!(default_branch_source_number(&no_user), Some(2));
    assert_eq!(default_branch_source_number(&vec![ChatMessage::system("s")]), None);
}

use mimo_tui::protocol::Role;
use mimo_tui::session::compact_conversation;

#[test]
fn compact_only_changes_the_active_branch() {
    let mut tree = tree_of(vec![
        ChatMessage::user("one"),
        ChatMessage::assistant("two"),
        ChatMessage::user("three"),
        ChatMessage::assistant("four"),
        ChatMessage::user("five"),
        ChatMessage::assistant("six"),
        ChatMessage::user("seven"),
        ChatMessage::assistant("eight"),
    ]);
    let messages = tree.current_messages();
    branch_command(&mut tree, &messages, false, Some(6));
    tree.add_message_to_current(ChatMessage::user("branched prompt"));
    tree.add_message_to_current(ChatMessage::assistant("branched answer"));

    let messages = tree.current_messages();
    let status = compact_conversation(&mut tree, &messages, false);
    assert_eq!(status, "Compacted older conversation into a summary");
    let visible = tree.current_messages();
    assert!(matches!(visible.first().map(|message| &message.role), Some(&Role::System)));
    assert_eq!(visible.len(), 7);

    tree.switch_branch("branch-1").expect("switch should succeed");
    let visible = tree.current_messages();
    assert_eq!(visible.len(), 8);
    assert_eq!(visible[0].content, "one");
}

#[test]
fn short_conversations_are_not_compacted() {
    let mut tree = tree_of(vec![ChatMessage::user("one")]);
    let messages = tree.current_messages();
    assert_eq!(compact_conversation(&mut tree, &messages, false), "Conversation is already compact");
    assert_eq!(
        compact_conversation(&mut tree, &messages, true),
        "Cannot compact while MiMo is responding"
    );
    assert_eq!(tree.current_messages().len(), 1);
}
