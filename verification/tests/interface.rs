use mimo_tui::models::AppMode;
use mimo_tui::commands::ModeName;
use mimo_tui::protocol::{ChatMessage, Role};
use mimo_tui::skills::{infer_description, infer_skill_name, normalize_skill_name};
use mimo_tui::summaries::{
    compacted_summary, first_non_empty_lines, truncate_for_summary, truncate_for_summary_output,
};
use mimo_tui::tooling::{
    answered_request, app_mode_for, approval_mode_label, approval_requirement, mode_approval_mode,
    next_mode, push_tool_history, should_refresh_diagnostics, ApprovalMode, ApprovalRequirement,
    ToolKind, ToolRequest, ToolStatus,
};
use mimo_tui::ui_state::{
    adjust_selection_scroll, clamp_scroll, estimated_max_context_chars, remember_draft,
    trim_task_log,
};

fn request(id: &str, name: &str) -> ToolRequest {
    ToolRequest {
        id: id.to_string(),
        name: name.to_string(),
        kind: ToolKind::FileWrite,
        summary: "s".to_string(),
        status: ToolStatus::PendingApproval,
    }
}

#[test]
fn summaries_collapse_white_space_and_cut() {
    assert_eq!(truncate_for_summary("  hello \n  world ", 100), "hello world");
    assert_eq!(truncate_for_summary("abcdef", 3), "abc...");
    assert_eq!(truncate_for_summary("   ", 10), "(empty)");
    assert_eq!(truncate_for_summary_output("abcdef", 3), "abc\n\n... output truncated ...");
    assert_eq!(truncate_for_summary_output("abc", 3), "abc");
}

#[test]
fn first_lines_skip_blank_ones() {
    assert_eq!(first_non_empty_lines("\n a  \n\nb\nc\n", 2), " a\nb");
}

#[test]
fn compaction_lists_each_message() {
    let messages = vec![ChatMessage::user("Hi   there"), ChatMessage::assistant("Hello")];
    assert_eq!(
        compacted_summary(&messages),
        "Conversation summary (compacted)\n\n- You: Hi there\n- MiMo: Hello"
    );
    assert_eq!(messages[0].role, Role::User);
}

#[test]
fn scroll_offsets_stay_in_range() {
    assert_eq!(clamp_scroll(100, 12, 500), 90);
    assert_eq!(clamp_scroll(5, 12, 3), 0);
    assert_eq!(clamp_scroll(10, 1, 20), 9);
    assert_eq!(adjust_selection_scroll(2, 5, 4), 2);
    assert_eq!(adjust_selection_scroll(10, 5, 4), 7);
    assert_eq!(adjust_selection_scroll(6, 5, 4), 5);
}

#[test]
fn drafts_are_remembered_once_and_newest_first() {
    let mut bucket = vec!["a".to_string(), "b".to_string()];
    remember_draft(&mut bucket, "b");
    assert_eq!(bucket, vec!["b", "a"]);
    remember_draft(&mut bucket, "");
    assert_eq!(bucket, vec!["b", "a"]);
    let mut full: Vec<String> = (0..20).map(|i| format!("d{i}")).collect();
    remember_draft(&mut full, "new");
    assert_eq!(full.len(), 20);
    assert_eq!(full[0], "new");
    assert_eq!(full[19], "d18");
}

#[test]
fn task_logs_keep_the_last_forty_lines() {
    let mut log: Vec<String> = (0..45).map(|i| i.to_string()).collect();
    trim_task_log(&mut log);
    assert_eq!(log.len(), 40);
    assert_eq!(log[0], "5");
    assert_eq!(estimated_max_context_chars("mimo-v2-flash"), 1_000_000);
}

#[test]
fn modes_cycle_and_set_approval() {
    assert_eq!(next_mode(AppMode::Agent), AppMode::Plan);
    assert_eq!(next_mode(AppMode::Plan), AppMode::Yolo);
    assert_eq!(next_mode(AppMode::Yolo), AppMode::Agent);
    assert_eq!(mode_approval_mode(AppMode::Plan), ApprovalMode::ReadOnly);
    assert_eq!(mode_approval_mode(AppMode::Yolo), ApprovalMode::Auto);
    assert_eq!(approval_mode_label(ApprovalMode::ReadOnly), "read-only");
    assert_eq!(app_mode_for(ModeName::Plan), AppMode::Plan);
    assert_eq!(approval_requirement(ToolKind::FileRead), ApprovalRequirement::Auto);
    assert_eq!(approval_requirement(ToolKind::Shell), ApprovalRequirement::Prompt);
}

#[test]
fn tool_requests_are_answered_and_kept_newest_first() {
    let approved = answered_request(&request("1", "write_file"), true);
    assert_eq!(approved.status, ToolStatus::Running);
    let denied = answered_request(&request("1", "write_file"), false);
    assert_eq!(denied.status, ToolStatus::Denied);
    assert!(should_refresh_diagnostics(&approved));
    assert!(!should_refresh_diagnostics(&request("2", "read_file")));

    let mut history = Vec::new();
    for i in 0..25 {
        push_tool_history(&mut history, request(&i.to_string(), "x"));
    }
    assert_eq!(history.len(), 20);
    assert_eq!(history[0].id, "24");
}

#[test]
fn skill_names_are_slugs() {
    assert_eq!(normalize_skill_name("  Rust Helper!! "), "rust-helper");
    assert_eq!(normalize_skill_name("--a__b--"), "a-b");
    assert_eq!(
        infer_skill_name("# Rust Helper\n\nPrefer concise Rust diffs.\n", "fallback"),
        "rust-helper"
    );
    assert_eq!(infer_skill_name("no heading", "My Skill"), "my-skill");
    assert_eq!(
        infer_description("# Rust Helper\n\nPrefer concise Rust diffs.\n"),
        "Prefer concise Rust diffs."
    );
}

#[test]
fn normalized_skill_names_are_stable() {
    for raw in ["  Rust Helper!! ", "--a__b--", "x", "", "A  B\tC"] {
        let once = normalize_skill_name(raw);
        assert_eq!(normalize_skill_name(&once), once);
    }
}

use mimo_tui::tooling::{approval_decision, streaming_status, tool_stage_text, ToolStage};

#[test]
fn approval_modes_decide_or_ask() {
    assert_eq!(approval_decision(ApprovalMode::Auto), Some(true));
    assert_eq!(approval_decision(ApprovalMode::ReadOnly), Some(false));
    assert_eq!(approval_decision(ApprovalMode::Prompt), None);
    assert_eq!(
        streaming_status("auto", "mimo-v2.5-pro"),
        "Auto routed to mimo-v2.5-pro; streaming from MiMo..."
    );
    assert_eq!(streaming_status("mimo-v2-flash", "mimo-v2-flash"), "Streaming from MiMo...");
    assert_eq!(tool_stage_text(ToolStage::Started, "Read file a"), "Running Read file a");
    assert_eq!(tool_stage_text(ToolStage::Denied, "x"), "Denied x");
}

use mimo_tui::tooling::{models_loaded_status, stream_finished_status, tool_finished_status};

#[test]
fn event_status_lines() {
    let mut failed = request("1", "write_file");
    failed.status = ToolStatus::Failed;
    assert_eq!(tool_finished_status(&failed), "Tool failed: s");
    failed.status = ToolStatus::Denied;
    assert_eq!(tool_finished_status(&failed), "Tool denied: s");
    failed.status = ToolStatus::Completed;
    assert_eq!(tool_finished_status(&failed), "s");
    assert_eq!(models_loaded_status(3), "Loaded 3 models from MiMo API");
    assert_eq!(
        models_loaded_status(0),
        "MiMo returned an empty model catalog; using local suggestions"
    );
    assert_eq!(stream_finished_status("Generation cancelled"), "Generation cancelled");
    assert_eq!(stream_finished_status("Streaming from MiMo..."), "Ready");
}

use mimo_tui::summaries::truncate_chars;
use mimo_tui::ids::{compare_branch_ids, compare_message_ids, sorted_branch_ids, IdOrder};
use mimo_tui::branch::{default_branch_id, default_next_branch_seq, default_next_message_seq};

#[test]
fn ids_order_by_sequence_number() {
    assert_eq!(compare_message_ids("msg-2", "msg-10"), IdOrder::Less);
    assert_eq!(compare_branch_ids("branch-10", "branch-9"), IdOrder::Greater);
    assert_eq!(compare_branch_ids("branch-x", "branch-1"), IdOrder::Greater);
    let sorted = sorted_branch_ids(&vec![
        "branch-10".to_string(),
        "branch-2".to_string(),
        "branch-1".to_string(),
    ]);
    assert_eq!(sorted, vec!["branch-1", "branch-2", "branch-10"]);
    assert_eq!(default_branch_id(), "branch-1");
    assert_eq!(default_next_message_seq(), 1);
    assert_eq!(default_next_branch_seq(), 2);
    assert_eq!(truncate_chars("héllo", 2), "hé...");
    assert_eq!(truncate_chars("hé", 2), "hé");
}

use mimo_tui::markdown::{render_markdown_lines, LineStyle};

#[test]
fn markdown_lines_are_styled_by_their_start() {
    let lines = render_markdown_lines("# Title\n- item\n> quote\n```rust\n# not a heading\n```\nplain");
    let styles: Vec<LineStyle> = lines.iter().map(|l| l.style).collect();
    assert_eq!(
        styles,
        vec![
            LineStyle::Heading,
            LineStyle::Bullet,
            LineStyle::Quote,
            LineStyle::Code,
            LineStyle::Code,
            LineStyle::Code,
            LineStyle::Plain,
        ]
    );
    assert_eq!(lines[0].text, "  # Title");
    let empty = render_markdown_lines("");
    assert_eq!(empty.len(), 1);
    assert_eq!(empty[0].text, "  ");
    assert_eq!(empty[0].style, LineStyle::Plain);
}
