use mimo_tui::attachment_search::directory_preview;
use mimo_tui::attachments::{AttachmentEntryKind, AttachmentSuggestion};
use mimo_tui::diagnostics::{diagnostics_snapshot_from, DiagnosticsStatus};
use mimo_tui::file_tools::{
    edit_error_message, plan_edit, render_diff, EditError, EditFileTool, ListDirTool, ReadFileTool,
    WriteFileTool,
};
use mimo_tui::tooling::{ApprovalRequirement, ToolKind};
use mimo_tui::workspace_tree::{summarize_directory, TreeEntry};

#[test]
fn file_tools_name_themselves() {
    assert_eq!(ReadFileTool.name(), "read_file");
    assert_eq!(ListDirTool.name(), "list_dir");
    assert_eq!(WriteFileTool.name(), "write_file");
    assert_eq!(EditFileTool.name(), "edit_file");
    assert_eq!(ReadFileTool.kind(), ToolKind::FileRead);
    assert_eq!(EditFileTool.kind(), ToolKind::FileWrite);
    assert_eq!(WriteFileTool.approval_requirement(), ApprovalRequirement::Prompt);
    assert_eq!(ListDirTool.approval_requirement(), ApprovalRequirement::Auto);
    assert_eq!(ReadFileTool.summarize(Some("src/main.rs")), "Read file src/main.rs");
    assert_eq!(EditFileTool.summarize(None), "Edit file <missing>");
    assert_eq!(ListDirTool.summarize(None), "List directory .");
}

#[test]
fn edits_replace_the_one_occurrence() {
    assert_eq!(plan_edit("fn main() {}\n", "main", "start"), Ok("fn start() {}\n".to_string()));
    assert_eq!(plan_edit("abc", "x", "y"), Err(EditError::NotFound));
    assert_eq!(plan_edit("a a a", "a", "b"), Err(EditError::Ambiguous(3)));
    assert_eq!(plan_edit("aaa", "aa", "b"), Ok("ba".to_string()));
    assert_eq!(
        edit_error_message(EditError::Ambiguous(2), "/w/x.rs"),
        "search text matches 2 times in /w/x.rs; provide a unique occurrence"
    );
    assert_eq!(
        edit_error_message(EditError::NotFound, "x"),
        "search text not found in x"
    );
}

#[test]
fn diffs_list_old_then_new_lines() {
    assert_eq!(render_diff("a.txt", "same", "same"), "--- a.txt\n+++ a.txt\n(no changes)");
    assert_eq!(
        render_diff("a.txt", "one\ntwo\n", "one\n"),
        "--- a.txt\n+++ a.txt\n-one\n-two\n+one"
    );
    assert_eq!(render_diff("n", "", "x"), "--- n\n+++ n\n+x");
}

#[test]
fn directory_trees_are_cut_after_the_budget() {
    let entries = vec![
        TreeEntry { depth: 0, name: "src".to_string(), is_dir: true },
        TreeEntry { depth: 1, name: "main.rs".to_string(), is_dir: false },
        TreeEntry { depth: 0, name: "Cargo.toml".to_string(), is_dir: false },
    ];
    assert_eq!(
        summarize_directory("/w", &entries, 10),
        "Workspace: /w\n- src/\n  - main.rs\n- Cargo.toml"
    );
    assert_eq!(
        summarize_directory("/w", &entries, 2),
        "Workspace: /w\n- src/\n  - main.rs\n... output truncated ..."
    );
    assert_eq!(
        summarize_directory("/w", &Vec::new(), 0),
        "Workspace: /w\n... output truncated ..."
    );
}

#[test]
fn diagnostics_count_error_and_warning_lines() {
    let snapshot = diagnostics_snapshot_from(
        b"  \n",
        b"warning: unused\nerror: bad\nerror: worse\n",
        false,
        42,
    );
    assert_eq!(snapshot.updated_at_epoch, 42);
    assert_eq!(snapshot.status, DiagnosticsStatus::Failed);
    assert_eq!(snapshot.error_count, 2);
    assert_eq!(snapshot.warning_count, 1);
    assert_eq!(
        snapshot.summary,
        "Diagnostics failed with 2 error(s) and 1 warning(s)"
    );
    assert_eq!(snapshot.output, "warning: unused\nerror: bad\nerror: worse");
    assert_eq!(snapshot.command, "cargo check --message-format short");

    let clean = diagnostics_snapshot_from(b"", b"", true, 1);
    assert_eq!(clean.summary, "Diagnostics passed");
    assert_eq!(clean.output, "No diagnostics output.");
    assert_eq!(clean.status.to_string(), "passed");

    let warned = diagnostics_snapshot_from(b"ok", b"warning: x", true, 1);
    assert_eq!(warned.output, "ok\n\nwarning: x");
    assert_eq!(warned.summary, "Diagnostics passed with 1 warning(s)");
}

#[test]
fn directory_previews_sort_by_lower_case_name() {
    let suggestion = AttachmentSuggestion {
        display_path: "src".to_string(),
        resolved_path: "/w/src".to_string(),
        kind: AttachmentEntryKind::Directory,
        score: 0,
    };
    let preview = directory_preview(
        &suggestion,
        vec![
            ("b.rs".to_string(), false),
            ("A".to_string(), true),
            ("a.rs".to_string(), false),
        ],
    );
    assert_eq!(preview.metadata, vec!["Path: src", "Type: directory", "Entries: 3"]);
    assert_eq!(preview.lines, vec!["- A/", "- a.rs", "- b.rs"]);
    assert!(preview.note.is_none());

    let many: Vec<(String, bool)> = (0..55).map(|i| (format!("f{i:02}"), false)).collect();
    let preview = directory_preview(&suggestion, many);
    assert_eq!(preview.metadata[2], "Entries: 50+");
    assert_eq!(preview.lines.len(), 50);
    assert_eq!(
        preview.note.as_deref(),
        Some("Directory listing truncated after 50 entries")
    );
}

fn file(name: &str) -> mimo_tui::workspace_tree::DirNode {
    mimo_tui::workspace_tree::DirNode { name: name.to_string(), is_dir: false, children: Vec::new() }
}

fn dir(name: &str, children: Vec<mimo_tui::workspace_tree::DirNode>) -> mimo_tui::workspace_tree::DirNode {
    mimo_tui::workspace_tree::DirNode { name: name.to_string(), is_dir: true, children }
}

#[test]
fn the_tree_walk_hides_dot_names_sorts_and_stops_at_the_depth() {
    let nodes = vec![
        file("b.txt"),
        dir(".git", vec![file("HEAD")]),
        dir("src", vec![file("main.rs"), dir("deep", vec![file("x.rs")]), file(".hidden")]),
        file("a.txt"),
    ];
    assert_eq!(
        mimo_tui::workspace_tree::summarize_tree("/w", nodes, 2, 10),
        "Workspace: /w\n- a.txt\n- b.txt\n- src/\n  - deep/\n  - main.rs"
    );
    let nodes = vec![file("b"), file("a"), file("c")];
    assert_eq!(
        mimo_tui::workspace_tree::summarize_tree("/w", nodes, 1, 2),
        "Workspace: /w\n- a\n- b\n... output truncated ..."
    );
    assert_eq!(mimo_tui::workspace_tree::summarize_tree("/w", vec![file("a")], 0, 5), "Workspace: /w");
}
