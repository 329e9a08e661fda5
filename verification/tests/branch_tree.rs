use mimo_tui::branch::{ConversationNode, ConversationTree, TreeError};
use mimo_tui::protocol::{ChatMessage, Role};

fn sample_messages() -> Vec<ChatMessage> {
    vec![
        ChatMessage::user("hello"),
        ChatMessage::assistant("hi"),
        ChatMessage::user("branch here"),
        ChatMessage::assistant("original reply"),
    ]
}

#[test]
fn empty_tree_defaults_are_branch_aware() {
    let tree = ConversationTree::new();

    assert!(tree.is_empty());
    assert_eq!(tree.current_branch_id(), "branch-1");
    assert_eq!(tree.branch_count(), 1);
    assert!(tree.current_path().is_empty());
    assert!(tree.current_messages().is_empty());
}

#[test]
fn flat_messages_migrate_to_single_branch() {
    let messages = sample_messages();
    let tree = ConversationTree::from_flat_messages(messages.clone());

    assert_eq!(tree.branch_count(), 1);
    assert_eq!(tree.current_branch_id(), "branch-1");
    assert_eq!(tree.current_messages(), messages);
    assert_eq!(tree.current_path().len(), 4);
    assert_eq!(tree.next_message_seq(), 5);
    assert_eq!(tree.next_branch_seq(), 2);
}

#[test]
fn create_branch_from_middle_message_preserves_original_branch() {
    let mut tree = ConversationTree::from_flat_messages(sample_messages());
    let branch_id = tree
        .create_branch_from_message("msg-2")
        .expect("branch should be created");

    assert_eq!(branch_id, "branch-2");
    assert_eq!(tree.current_branch_id(), "branch-2");
    assert_eq!(
        tree.current_path()
            .iter()
            .map(String::as_str)
            .collect::<Vec<_>>(),
        vec!["msg-1", "msg-2"]
    );
    assert_eq!(tree.branch_count(), 2);
    assert!(tree.is_branch_point("msg-2"));
    assert_eq!(
        tree.branch("branch-1")
            .expect("original branch should remain")
            .path
            .len(),
        4
    );
}

#[test]
fn switching_branches_restores_each_path() {
    let mut tree = ConversationTree::from_flat_messages(sample_messages());
    tree.create_branch_from_message("msg-2")
        .expect("branch should be created");
    tree.add_message_to_current(ChatMessage::assistant("branched reply"));

    tree.switch_branch("branch-1")
        .expect("original branch should be selectable");
    assert_eq!(tree.current_messages(), sample_messages());

    tree.switch_branch("branch-2")
        .expect("branched path should be selectable");
    assert_eq!(tree.current_path().len(), 3);
    assert_eq!(
        tree.current_messages()
            .last()
            .map(|message| message.content.clone()),
        Some("branched reply".to_string())
    );
}

#[test]
fn adding_messages_only_extends_the_active_branch() {
    let mut tree = ConversationTree::from_flat_messages(sample_messages());
    tree.create_branch_from_message("msg-3")
        .expect("branch should be created");
    let branched_message_id = tree.add_message_to_current(ChatMessage::assistant("new path"));

    assert_eq!(branched_message_id, "msg-5");
    assert_eq!(
        tree.current_path().last().map(String::as_str),
        Some("msg-5")
    );

    tree.switch_branch("branch-1")
        .expect("original branch should be selectable");
    assert_eq!(
        tree.current_path().last().map(String::as_str),
        Some("msg-4")
    );
    assert_eq!(
        tree.current_messages()
            .last()
            .map(|message| message.content.clone()),
        Some("original reply".to_string())
    );
    assert!(tree.is_branch_point("msg-3"));
}

#[test]
fn replace_current_branch_messages_only_changes_active_branch() {
    let mut tree = ConversationTree::from_flat_messages(sample_messages());
    tree.create_branch_from_message("msg-2")
        .expect("branch should be created");
    tree.add_message_to_current(ChatMessage::user("new request"));
    tree.add_message_to_current(ChatMessage::assistant("new answer"));

    tree.replace_current_branch_messages(vec![
        ChatMessage::system("summary"),
        ChatMessage::user("new request"),
        ChatMessage::assistant("new answer"),
    ]);

    assert_eq!(tree.current_messages()[0].role, Role::System);
    assert_eq!(tree.current_messages()[0].content, "summary");

    tree.switch_branch("branch-1")
        .expect("original branch should still exist");
    assert_eq!(tree.current_messages(), sample_messages());
}

#[test]
fn validate_or_repair_rebuilds_structure_and_prunes_orphans() {
    let mut tree = ConversationTree::from_flat_messages(sample_messages());
    tree.create_branch_from_message("msg-2")
        .expect("branch should be created");
    let mut first = tree.node("msg-1").expect("node should exist").clone();
    first.child_ids.clear();
    tree.insert_node(first);
    tree.set_root_ids(Vec::new());
    tree.insert_node(ConversationNode {
        id: "msg-99".to_string(),
        parent_id: None,
        child_ids: Vec::new(),
        message: ChatMessage::assistant("orphan"),
    });

    tree.validate_or_repair().expect("tree should repair");

    assert_eq!(
        tree.node("msg-1").expect("node should remain").child_ids,
        vec!["msg-2".to_string()]
    );
    assert_eq!(tree.root_ids().to_vec(), vec!["msg-1".to_string()]);
    assert!(tree.node("msg-99").is_none());
}

#[test]
fn replace_keeps_other_branch_messages_and_numbers_new_ones() {
    let mut tree = ConversationTree::from_flat_messages(sample_messages());
    tree.create_branch_from_message("msg-1").expect("branch");
    tree.replace_current_branch_messages(vec![ChatMessage::user("a"), ChatMessage::user("b")]);
    assert_eq!(
        tree.current_path().to_vec(),
        vec!["msg-5".to_string(), "msg-6".to_string()]
    );
    assert_eq!(tree.next_message_seq(), 7);
    tree.switch_branch("branch-1").expect("branch-1");
    assert_eq!(tree.current_messages(), sample_messages());
}

#[test]
fn unknown_branch_and_foreign_message_are_refused() {
    let mut tree = ConversationTree::from_flat_messages(sample_messages());
    assert_eq!(
        tree.switch_branch("branch-9"),
        Err(TreeError::UnknownBranch("branch-9".to_string()))
    );
    assert_eq!(
        tree.create_branch_from_message("msg-42"),
        Err(TreeError::MessageNotInActiveBranch("msg-42".to_string()))
    );
    assert_eq!(
        TreeError::UnknownBranch("branch-9".to_string()).message(),
        "unknown branch branch-9"
    );
    assert_eq!(tree.current_branch_id(), "branch-1");
}

#[test]
fn validate_reports_missing_and_duplicate_messages() {
    let tree = ConversationTree::from_flat_messages(sample_messages());
    let mut nodes = tree.nodes().to_vec();
    nodes.retain(|node| node.id != "msg-3");
    let mut broken = ConversationTree::from_parts(
        nodes,
        tree.root_ids().to_vec(),
        tree.branches().to_vec(),
        "branch-1".to_string(),
        5,
        2,
    )
    .expect("distinct ids");
    assert_eq!(
        broken.validate_or_repair(),
        Err(TreeError::MissingMessage {
            branch: "branch-1".to_string(),
            message: "msg-3".to_string()
        })
    );

    let mut branches = tree.branches().to_vec();
    branches[0].path.push("msg-1".to_string());
    let mut doubled = ConversationTree::from_parts(
        tree.nodes().to_vec(),
        Vec::new(),
        branches,
        "branch-1".to_string(),
        5,
        2,
    )
    .expect("distinct ids");
    assert_eq!(
        doubled.validate_or_repair(),
        Err(TreeError::DuplicateMessage {
            branch: "branch-1".to_string(),
            message: "msg-1".to_string()
        })
    );
}

#[test]
fn validate_repairs_current_branch_and_sequences() {
    let tree = ConversationTree::from_flat_messages(sample_messages());
    let mut repaired = ConversationTree::from_parts(
        tree.nodes().to_vec(),
        Vec::new(),
        tree.branches().to_vec(),
        "  ".to_string(),
        1,
        1,
    )
    .expect("distinct ids");
    repaired.validate_or_repair().expect("repairs");
    assert_eq!(repaired.current_branch_id(), "branch-1");
    assert_eq!(repaired.next_message_seq(), 5);
    assert_eq!(repaired.next_branch_seq(), 2);
    assert_eq!(repaired.root_ids().to_vec(), vec!["msg-1".to_string()]);
}

#[test]
fn from_parts_refuses_duplicate_ids() {
    let tree = ConversationTree::from_flat_messages(sample_messages());
    let mut nodes = tree.nodes().to_vec();
    nodes.push(nodes[0].clone());
    assert!(ConversationTree::from_parts(
        nodes,
        Vec::new(),
        tree.branches().to_vec(),
        "branch-1".to_string(),
        5,
        2
    )
    .is_none());
}

#[test]
fn branch_summaries_follow_branch_order() {
    let mut tree = ConversationTree::from_flat_messages(sample_messages());
    tree.create_branch_from_message("msg-2").expect("branch");
    let summaries = tree.branch_summaries();
    assert_eq!(summaries.len(), 2);
    assert_eq!(summaries[0].id, "branch-1");
    assert_eq!(summaries[0].message_count, 4);
    assert_eq!(summaries[0].last_message_preview, "original reply");
    assert!(!summaries[0].is_current);
    assert_eq!(summaries[1].id, "branch-2");
    assert!(summaries[1].is_current);
    assert_eq!(summaries[1].created_from, Some("msg-2".to_string()));
    assert_eq!(summaries[1].created_from_message_number, Some(2));
}

#[test]
fn current_index_lookups() {
    let tree = ConversationTree::from_flat_messages(sample_messages());
    assert_eq!(tree.current_index_of_message("msg-3"), Some(2));
    assert_eq!(tree.current_index_of_message("msg-9"), None);
    assert_eq!(tree.message_id_at_current_index(0), Some("msg-1"));
    assert_eq!(tree.message_id_at_current_index(4), None);
    assert!(!tree.is_branch_point("msg-2"));
}

#[test]
fn repairing_twice_changes_nothing_more() {
    let mut tree = ConversationTree::from_flat_messages(sample_messages());
    tree.create_branch_from_message("msg-2").expect("branch should be created");
    tree.replace_current_branch_messages(vec![ChatMessage::user("c"), ChatMessage::user("d")]);
    let mut first = tree.node("msg-1").expect("node should exist").clone();
    first.child_ids = vec!["msg-5".to_string(), "msg-2".to_string()];
    tree.insert_node(first);
    tree.set_root_ids(vec!["msg-5".to_string()]);
    tree.validate_or_repair().expect("first repair");
    let nodes = tree.nodes().to_vec();
    let roots = tree.root_ids().to_vec();
    let current = tree.current_branch_id().to_string();
    tree.validate_or_repair().expect("second repair");
    assert_eq!(tree.nodes().to_vec(), nodes);
    assert_eq!(tree.root_ids().to_vec(), roots);
    assert_eq!(tree.current_branch_id(), current);
}
