use mimo_tui::attachment_search::{rank_attachment_suggestions, AttachmentEntry};
use mimo_tui::attachments::{
    attachment_preview, confirm_attachment, current_attachment_query, fuzzy_score,
    pop_last_attachment, slice_chars, AttachmentEntryKind,
};
use mimo_tui::input::InputBuffer;
use mimo_tui::models::FileAttachment;

#[test]
fn detects_active_and_inactive_queries() {
    let active = InputBuffer::from("hello @src/lib");
    let query = current_attachment_query(&active).expect("query should be active");
    assert_eq!(query.token_start, 6);
    assert_eq!(query.token_end, 14);
    assert_eq!(query.raw, "src/lib");

    let bare = InputBuffer::from("@");
    let query = current_attachment_query(&bare).expect("bare @ should still be active");
    assert_eq!(query.token_start, 0);
    assert_eq!(query.token_end, 1);
    assert!(query.raw.is_empty());

    let inactive = InputBuffer::from("hello world");
    assert!(current_attachment_query(&inactive).is_none());
}

#[test]
fn fuzzy_scores_follow_the_ranking_formula() {
    assert_eq!(fuzzy_score("anything", "   "), Some(0));
    assert_eq!(fuzzy_score("Cargo.toml", "cargo.toml"), Some(1_000_000 - 10));
    // prefix + contiguous + first at 0 - length
    assert_eq!(fuzzy_score("main.rs", "ma"), Some(100_000 + 20_000 + 10_000 - 7));
    // "a" at 1 and "s" at 6: a span of 6 with 4 gaps
    assert_eq!(fuzzy_score("main.rs", "as"), Some((100 - 1) * 100 - 4 * 50 - 7));
    assert_eq!(fuzzy_score("main.rs", "zz"), None);
    assert_eq!(fuzzy_score("main.rs", "sm"), None);
}

#[test]
fn ranks_directories_first_on_equal_scores() {
    let entry = |name: &str, is_dir: bool| AttachmentEntry {
        name: name.to_string(),
        is_dir,
        display_path: name.to_string(),
        resolved_path: format!("/w/{name}"),
    };
    let results = rank_attachment_suggestions(
        vec![
            entry("srcb", false),
            entry("srca", true),
            entry("README.md", false),
            entry("src", false),
        ],
        "src",
    );
    let names: Vec<&str> = results
        .suggestions
        .iter()
        .map(|s| s.display_path.as_str())
        .collect();
    assert_eq!(names, vec!["src", "srca", "srcb"]);
    assert_eq!(results.suggestions[1].kind, AttachmentEntryKind::Directory);
    assert_eq!(results.suggestions[0].resolved_path, "/w/src");
    assert!(results.status.is_none());

    let none = rank_attachment_suggestions(vec![entry("a", false)], "zzz");
    assert!(none.suggestions.is_empty());
    assert_eq!(none.status.as_deref(), Some("No matching attachments"));

    let many: Vec<AttachmentEntry> = (0..60).map(|i| entry(&format!("f{i:02}"), false)).collect();
    let top = rank_attachment_suggestions(many, "");
    assert_eq!(top.suggestions.len(), 50);
    assert_eq!(top.suggestions[0].display_path, "f00");
    assert_eq!(top.status.as_deref(), Some("Showing top 50 matches"));
}

#[test]
fn ties_break_on_lower_case_then_exact_path() {
    let entry = |name: &str| AttachmentEntry {
        name: "x".to_string(),
        is_dir: false,
        display_path: name.to_string(),
        resolved_path: name.to_string(),
    };
    let results = rank_attachment_suggestions(vec![entry("b"), entry("a"), entry("B")], "");
    let names: Vec<&str> = results
        .suggestions
        .iter()
        .map(|s| s.display_path.as_str())
        .collect();
    assert_eq!(names, vec!["a", "B", "b"]);
}

#[test]
fn attachment_preview_lists_three_paths() {
    assert_eq!(attachment_preview(&[]), "No attachments");
    let list: Vec<FileAttachment> = ["a", "b", "c", "d", "e"]
        .iter()
        .map(|p| FileAttachment::new(p))
        .collect();
    assert_eq!(attachment_preview(&list), "a, b, c (+2 more)");
    assert_eq!(attachment_preview(&list[..2]), "a, b");
}

#[test]
fn confirming_attachments_reports_duplicates_and_missing_paths() {
    let mut input = InputBuffer::from("see @src");
    let mut attachments = Vec::new();
    let r = confirm_attachment(&mut input, &mut attachments, 4, 8, "src", true);
    assert_eq!(r, Ok(Some("Attached workspace context: src".to_string())));
    assert_eq!(input.as_str(), "see ");
    assert_eq!(attachments.len(), 1);

    let mut input = InputBuffer::from("@src");
    let r = confirm_attachment(&mut input, &mut attachments, 0, 4, "src", true);
    assert_eq!(r, Ok(Some("Attachment already added: src".to_string())));
    assert_eq!(attachments.len(), 1);

    let mut input = InputBuffer::from("@nope");
    let r = confirm_attachment(&mut input, &mut attachments, 0, 5, "nope", false);
    assert_eq!(r, Err("attachment path does not exist: nope".to_string()));
    assert_eq!(input.as_str(), "@nope");

    assert_eq!(pop_last_attachment(&mut attachments).map(|a| a.path), Some("src".to_string()));
    assert!(pop_last_attachment(&mut attachments).is_none());
}

#[test]
fn slices_by_characters() {
    assert_eq!(slice_chars("héllo", 1, 3), "él");
    assert_eq!(slice_chars("abc", 2, 10), "c");
    assert_eq!(slice_chars("abc", 3, 1), "");
}
