use mimo_tui::shell::{
    bounded_append, tail, take_buffer_delta, truncate_output, truncated_output_notice,
    MAX_OUTPUT_BUFFER_BYTES,
};

#[test]
fn shell_output_buffer_is_bounded() {
    let notice = truncated_output_notice();
    let mut buffer = Vec::new();
    let big = vec![b'x'; MAX_OUTPUT_BUFFER_BYTES + 1024];
    bounded_append(&mut buffer, &big);
    assert!(buffer.len() <= MAX_OUTPUT_BUFFER_BYTES + notice.len());
    assert!(buffer.windows(notice.len()).any(|w| w == notice.as_slice()));
}

#[test]
fn the_truncation_notice_reads_as_text() {
    assert_eq!(truncated_output_notice(), b"\n... output truncated ...\n".to_vec());
}

#[test]
fn a_full_buffer_takes_nothing_more() {
    let mut buffer = vec![b'a'; MAX_OUTPUT_BUFFER_BYTES];
    bounded_append(&mut buffer, b"more");
    assert_eq!(buffer.len(), MAX_OUTPUT_BUFFER_BYTES);
    let mut small = b"ab".to_vec();
    bounded_append(&mut small, b"cd");
    assert_eq!(small, b"abcd".to_vec());
}

#[test]
fn buffer_deltas_advance_the_cursor() {
    let data = b"hello world".to_vec();
    let mut cursor = 0usize;
    assert_eq!(take_buffer_delta(&data, &mut cursor), b"hello world".to_vec());
    assert_eq!(cursor, 11);
    assert!(take_buffer_delta(&data, &mut cursor).is_empty());
    let mut past = 20usize;
    assert!(take_buffer_delta(&data, &mut past).is_empty());
    assert_eq!(past, 11);
}

#[test]
fn output_is_cut_by_characters() {
    assert_eq!(truncate_output("héllo", 10), "héllo");
    assert_eq!(truncate_output("héllo", 2), "hé\n... truncated 3 chars ...");
    assert_eq!(tail("héllo", 3), "llo");
    assert_eq!(tail("héllo", 9), "héllo");
}

use mimo_tui::shell::{job_action_report, jobs_list_report, JobAction, ShellJobSnapshot, ShellResult, ShellStatus};

#[test]
fn job_reports_list_each_job() {
    assert_eq!(
        jobs_list_report(&Vec::new()),
        ("Shell jobs\n\nNo background shell jobs.".to_string(), "Shell jobs listed".to_string())
    );
    let job = ShellJobSnapshot {
        id: "shell-1".to_string(),
        command: "sleep 5".to_string(),
        cwd: "/w".to_string(),
        status: ShellStatus::Running,
        exit_code: None,
        elapsed_ms: 10,
        stdout_tail: String::new(),
        stderr_tail: String::new(),
        stdin_available: true,
    };
    let (text, status) = jobs_list_report(&vec![job]);
    assert_eq!(text, "Shell jobs\n\n- shell-1 | Running | stdin=true | sleep 5");
    assert_eq!(status, "Shell jobs listed");

    let result = ShellResult {
        task_id: Some("shell-1".to_string()),
        status: ShellStatus::Killed,
        exit_code: None,
        stdout: String::new(),
        stderr: String::new(),
        duration_ms: 3,
    };
    let (text, status) = job_action_report(JobAction::Cancel, "shell-1", &result);
    assert!(text.starts_with("Shell job cancelled\n\nstatus: Killed\nexit_code: none\nduration_ms: 3"));
    assert_eq!(status, "Cancelled shell job shell-1");
}
