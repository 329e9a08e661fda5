use mimo_tui::history::{FileSnapshot, WorkspaceHistory};
use mimo_tui::memory::{append_note_to, parse_notes, render_notes, search_notes, show_memory_text};
use mimo_tui::models::AppMode;
use mimo_tui::tasks::{
    next_task_id, next_task_id_at, normalize_loaded_tasks_at, sort_tasks, SavedTask, TaskStatus,
};

fn task(id: &str, status: TaskStatus, created: u64) -> SavedTask {
    SavedTask {
        id: id.to_string(),
        prompt: String::new(),
        model: String::new(),
        routed_model: None,
        mode: AppMode::Agent,
        status,
        created_at_epoch: created,
        updated_at_epoch: created,
        started_at_epoch: None,
        finished_at_epoch: None,
        assistant_output: String::new(),
        activity_log: Vec::new(),
        error: None,
    }
}

#[test]
fn generates_unique_task_ids() {
    let tasks = vec![SavedTask {
        id: "task-1-1".to_string(),
        prompt: String::new(),
        model: String::new(),
        routed_model: None,
        mode: AppMode::Agent,
        status: TaskStatus::Queued,
        created_at_epoch: 0,
        updated_at_epoch: 0,
        started_at_epoch: None,
        finished_at_epoch: None,
        assistant_output: String::new(),
        activity_log: Vec::new(),
        error: None,
    }];
    assert!(next_task_id(&tasks).starts_with("task-"));
}

#[test]
fn task_ids_skip_taken_suffixes() {
    let tasks = vec![
        task("task-7-1", TaskStatus::Queued, 0),
        task("task-7-2", TaskStatus::Queued, 0),
    ];
    assert_eq!(next_task_id_at(&tasks, 7), "task-7-3");
    assert_eq!(next_task_id_at(&Vec::new(), 7), "task-7-1");
}

#[test]
fn tasks_sort_newest_first() {
    let mut tasks = vec![
        task("a", TaskStatus::Queued, 1),
        task("b", TaskStatus::Queued, 3),
        task("c", TaskStatus::Queued, 2),
    ];
    sort_tasks(&mut tasks);
    let ids: Vec<&str> = tasks.iter().map(|t| t.id.as_str()).collect();
    assert_eq!(ids, vec!["b", "c", "a"]);
}

#[test]
fn reload_marks_running_tasks_interrupted_without_io() {
    let mut tasks = vec![
        task("a", TaskStatus::Running, 1),
        task("b", TaskStatus::Completed, 2),
    ];
    normalize_loaded_tasks_at(&mut tasks, 50);
    let a = tasks.iter().find(|t| t.id == "a").unwrap();
    assert_eq!(a.status, TaskStatus::Interrupted);
    assert_eq!(a.updated_at_epoch, 50);
    let b = tasks.iter().find(|t| t.id == "b").unwrap();
    assert_eq!(b.status, TaskStatus::Completed);
}

#[test]
fn records_snapshots_in_reverse_chronological_order() {
    let mut history = WorkspaceHistory::default();
    history.record(
        "First change",
        1,
        vec![FileSnapshot {
            path: "src/main.rs".to_string(),
            previous_content: Some("fn main() {}".to_string()),
        }],
    );
    history.record(
        "Second change",
        2,
        vec![FileSnapshot {
            path: "README.md".to_string(),
            previous_content: None,
        }],
    );

    let snapshots = history.list();
    assert_eq!(snapshots.len(), 2);
    assert_eq!(snapshots[0].summary, "Second change");
    assert_eq!(snapshots[1].summary, "First change");
}

#[test]
fn recording_no_files_keeps_history_unchanged() {
    let mut history = WorkspaceHistory::new();
    assert!(history.record("nothing", 1, Vec::new()).is_none());
    assert!(history.latest().is_none());
    let snap = history
        .record(
            "one",
            5,
            vec![FileSnapshot {
                path: "a".to_string(),
                previous_content: None,
            }],
        )
        .expect("snapshot");
    let latest = history.latest().expect("latest");
    assert_eq!(latest.id, snap.id);
    assert_eq!(history.find(&snap.id).expect("found").summary, "one");
    assert!(history.find("missing").is_none());
}

#[test]
fn memory_notes_round_trip_through_their_file_text() {
    let notes = parse_notes("- first\n\n  - second  \nthird\n-   \n");
    assert_eq!(notes, vec!["first", "second", "third", "-"]);
    let text = render_notes(&notes);
    assert_eq!(text, "- first\n- second\n- third\n- -\n");
    assert_eq!(parse_notes(&text), notes);
}

#[test]
fn appending_a_note_moves_repeats_to_the_end() {
    let mut notes = vec!["a".to_string(), "b".to_string()];
    append_note_to(&mut notes, "  a ");
    assert_eq!(notes, vec!["b", "a"]);
    append_note_to(&mut notes, "   ");
    assert_eq!(notes, vec!["b", "a"]);
    let mut many: Vec<String> = (0..200).map(|i| format!("n{i}")).collect();
    append_note_to(&mut many, "new");
    assert_eq!(many.len(), 200);
    assert_eq!(many[0], "n1");
    assert_eq!(many[199], "new");
}

#[test]
fn memory_search_is_case_insensitive_and_bounded() {
    let notes = vec![
        "Use Rust".to_string(),
        "rustfmt always".to_string(),
        "python".to_string(),
    ];
    assert_eq!(search_notes(&notes, " RUST ", 10), vec!["Use Rust", "rustfmt always"]);
    assert_eq!(search_notes(&notes, "rust", 1), vec!["Use Rust"]);
    assert!(search_notes(&notes, "  ", 10).is_empty());
}

#[test]
fn memory_listing_mentions_the_file() {
    assert_eq!(
        show_memory_text("/tmp/memory.txt", &Vec::new()),
        "Memory file\n\nPath: /tmp/memory.txt\n\nNo memory notes saved yet."
    );
    assert_eq!(
        show_memory_text("/m", &vec!["a".to_string(), "b".to_string()]),
        "Memory file\n\nPath: /m\n\n- a\n- b"
    );
}

use mimo_tui::tasks::{mark_task_finished, mark_task_started, record_task_output, record_task_progress};

#[test]
fn background_task_lifecycle_updates_the_record() {
    let mut t = task("task-1-1", TaskStatus::Queued, 1);
    mark_task_started(&mut t, "mimo-v2-flash", 5);
    assert_eq!(t.status, TaskStatus::Running);
    assert_eq!(t.started_at_epoch, Some(5));
    assert_eq!(t.routed_model.as_deref(), Some("mimo-v2-flash"));
    assert_eq!(t.activity_log.last().map(String::as_str), Some("Started background task on mimo-v2-flash."));
    record_task_output(&mut t, "partial", 6);
    assert_eq!(t.assistant_output, "partial");
    for i in 0..50 {
        record_task_progress(&mut t, format!("line {i}"), 7);
    }
    assert_eq!(t.activity_log.len(), 40);
    let status = mark_task_finished(&mut t, Err("boom".to_string()), 9);
    assert_eq!(status, "Background task task-1-1 failed");
    assert_eq!(t.status, TaskStatus::Failed);
    assert_eq!(t.error.as_deref(), Some("boom"));
    assert_eq!(t.finished_at_epoch, Some(9));
    assert_eq!(t.activity_log.last().map(String::as_str), Some("Task failed: boom"));
    assert_eq!(t.activity_log.len(), 40);
    let mut ok = task("task-2-1", TaskStatus::Running, 1);
    assert_eq!(mark_task_finished(&mut ok, Ok(()), 3), "Background task task-2-1 completed");
    assert_eq!(ok.status, TaskStatus::Completed);
    assert!(ok.error.is_none());
}
