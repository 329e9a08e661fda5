//! Shell command results: bounded output buffers, the texts that report a
//! run, and the cursor that hands out new output.
use vstd::prelude::*;

use crate::text::{
    decimal, from_chars, i64_to_string, owned, push_str, signed_decimal, slice_vec, to_chars,
    u64_to_string, usize_to_string, trim,
};

verus! {

#[derive(Debug, Clone, Copy, PartialEq, Eq, Structural)]
pub enum ShellStatus {
    Running,
    Completed,
    Failed,
    Killed,
    TimedOut,
}

/// The outcome of a shell command or of a look at a background one.
#[derive(Debug, Clone)]
pub struct ShellResult {
    pub task_id: Option<String>,
    pub status: ShellStatus,
    pub exit_code: Option<i32>,
    pub stdout: String,
    pub stderr: String,
    pub duration_ms: u64,
}

/// What `/jobs` shows of a background shell.
#[derive(Debug, Clone, PartialEq, Eq)]
pub struct ShellJobSnapshot {
    pub id: String,
    pub command: String,
    pub cwd: String,
    pub status: ShellStatus,
    pub exit_code: Option<i32>,
    pub elapsed_ms: u64,
    pub stdout_tail: String,
    pub stderr_tail: String,
    pub stdin_available: bool,
}

/// The most output bytes that a buffer keeps.
pub const MAX_OUTPUT_BUFFER_BYTES: usize = 8388608;

/// The bytes of `\n... output truncated ...\n`.
pub open spec fn truncated_notice() -> Seq<u8> {
    seq![
        10u8, 46u8, 46u8, 46u8, 32u8, 111u8, 117u8, 116u8, 112u8, 117u8, 116u8, 32u8, 116u8, 114u8,
        117u8, 110u8, 99u8, 97u8, 116u8, 101u8, 100u8, 32u8, 46u8, 46u8, 46u8, 10u8,
    ]
}

/// The note that ends a buffer that hit its limit.
pub fn truncated_output_notice() -> (r: Vec<u8>)
    ensures
        r@ == truncated_notice(),
{
    let r = vec![
        10u8, 46u8, 46u8, 46u8, 32u8, 111u8, 117u8, 116u8, 112u8, 117u8, 116u8, 32u8, 116u8, 114u8,
        117u8, 110u8, 99u8, 97u8, 116u8, 101u8, 100u8, 32u8, 46u8, 46u8, 46u8, 10u8,
    ];
    assert(r@ =~= truncated_notice());
    r
}

/// The buffer after appending `chunk`: a full buffer takes nothing more; a
/// chunk that does not fit is cut to the room left and followed by the
/// note.
pub open spec fn bounded_append_spec(buffer: Seq<u8>, chunk: Seq<u8>) -> Seq<u8> {
    if buffer.len() >= MAX_OUTPUT_BUFFER_BYTES {
        buffer
    } else if chunk.len() <= MAX_OUTPUT_BUFFER_BYTES - buffer.len() {
        buffer + chunk
    } else {
        buffer + chunk.take(MAX_OUTPUT_BUFFER_BYTES - buffer.len()) + truncated_notice()
    }
}

fn extend(buffer: &mut Vec<u8>, bytes: &[u8])
    ensures
        final(buffer)@ == old(buffer)@ + bytes@,
{
    buffer.extend_from_slice(bytes);
    assert(buffer@ =~= old(buffer)@ + bytes@);
}

pub fn bounded_append(buffer: &mut Vec<u8>, chunk: &[u8])
    ensures
        final(buffer)@ == bounded_append_spec(old(buffer)@, chunk@),
{
    if buffer.len() >= MAX_OUTPUT_BUFFER_BYTES {
        return;
    }
    let remaining = MAX_OUTPUT_BUFFER_BYTES - buffer.len();
    if chunk.len() <= remaining {
        extend(buffer, chunk);
    } else {
        let (head, _) = chunk.split_at(remaining);
        extend(buffer, head);
        let notice = truncated_output_notice();
        extend(buffer, notice.as_slice());
    }
}

/// A full buffer never grows past the limit and the note.
pub proof fn law_bounded_append_limit(buffer: Seq<u8>, chunk: Seq<u8>)
    requires
        buffer.len() <= MAX_OUTPUT_BUFFER_BYTES + truncated_notice().len(),
    ensures
        bounded_append_spec(buffer, chunk).len() <= MAX_OUTPUT_BUFFER_BYTES + truncated_notice().len(),
        bounded_append_spec(buffer, chunk).take(buffer.len() as int) == buffer,
{
    assert(bounded_append_spec(buffer, chunk).take(buffer.len() as int) =~= buffer);
}

/// The output after `cursor`, or none where the cursor is past the end; the
/// cursor moves to the end.
pub fn take_buffer_delta(data: &Vec<u8>, cursor: &mut usize) -> (r: Vec<u8>)
    ensures
        r@ == if *old(cursor) <= data@.len() {
            data@.skip(*old(cursor) as int)
        } else {
            Seq::empty()
        },
        *final(cursor) == data@.len(),
{
    let mut r: Vec<u8> = Vec::new();
    if *cursor <= data.len() {
        let mut i = *cursor;
        while i < data.len()
            invariant
                *cursor <= i <= data@.len(),
                r@ == data@.subrange(*cursor as int, i as int),
            decreases data@.len() - i,
        {
            r.push(data[i]);
            i += 1;
            assert(r@ =~= data@.subrange(*cursor as int, i as int));
        }
        assert(data@.subrange(*cursor as int, data@.len() as int) =~= data@.skip(*cursor as int));
    }
    *cursor = data.len();
    r
}

/// The text of the bytes with each invalid UTF-8 sequence replaced, as
/// `String::from_utf8_lossy` gives it.
pub uninterp spec fn lossy_text(bytes: Seq<u8>) -> Seq<char>;

/// `String::from_utf8_lossy`, owned. Claimed: the text is the one named by
/// `lossy_text`, a function of the bytes alone.
#[verifier::external_body]
pub(crate) fn utf8_lossy(bytes: &[u8]) -> (r: String)
    ensures
        r@ == lossy_text(bytes@),
{
    String::from_utf8_lossy(bytes).to_string()
}

/// `text` cut to `max_chars` characters, with a note of how many were cut.
pub open spec fn truncated_spec(text: Seq<char>, max_chars: nat) -> Seq<char> {
    if text.len() <= max_chars {
        text
    } else {
        text.take(max_chars as int) + "\n... truncated "@ + decimal((text.len() - max_chars) as nat)
            + " chars ..."@
    }
}

pub fn truncate_output(text: &str, max_chars: usize) -> (r: String)
    ensures
        r@ == truncated_spec(text@, max_chars as nat),
{
    let chars = to_chars(text);
    let count = chars.len();
    if count <= max_chars {
        return owned(text);
    }
    let mut out = from_chars(&slice_vec(&chars, 0, max_chars));
    push_str(&mut out, "\n... truncated ");
    let n = usize_to_string(count - max_chars);
    push_str(&mut out, n.as_str());
    push_str(&mut out, " chars ...");
    out
}

/// The output cut to twelve thousand characters.
pub fn trimmed_output(text: &str) -> (r: String)
    ensures
        r@ == truncated_spec(text@, 12000),
{
    truncate_output(text, 12000)
}

/// The last `max_chars` characters of `text`.
pub open spec fn tail_spec(text: Seq<char>, max_chars: nat) -> Seq<char> {
    if text.len() <= max_chars {
        text
    } else {
        text.skip(text.len() - max_chars)
    }
}

pub fn tail(text: &str, max_chars: usize) -> (r: String)
    ensures
        r@ == tail_spec(text@, max_chars as nat),
{
    let chars = to_chars(text);
    let count = chars.len();
    if count <= max_chars {
        return owned(text);
    }
    let r = from_chars(&slice_vec(&chars, count - max_chars, count));
    assert(chars@.subrange(count - max_chars, count as int) =~= chars@.skip(count - max_chars));
    r
}

/// `{:?}` of an exit code.
pub open spec fn exit_code_debug(code: Option<i32>) -> Seq<char> {
    match code {
        Some(c) => "Some("@ + signed_decimal(c as int) + ")"@,
        None => "None"@,
    }
}

fn push_exit_code_debug(out: &mut String, code: Option<i32>)
    ensures
        final(out)@ == old(out)@ + exit_code_debug(code),
{
    match code {
        Some(c) => {
            push_str(out, "Some(");
            let s = i64_to_string(c as i64);
            push_str(out, s.as_str());
            push_str(out, ")");
        },
        None => push_str(out, "None"),
    }
}

/// The one-line summary of a shell run for the tool log.
pub open spec fn shell_summary_spec(status: ShellStatus, exit_code: Option<i32>, duration_ms: u64, label: Seq<char>) -> Seq<char> {
    let tail = " (exit "@ + exit_code_debug(exit_code) + ", "@ + decimal(duration_ms as nat) + " ms)"@;
    match status {
        ShellStatus::Running => "Started background shell task for "@ + label,
        ShellStatus::Completed => "Shell command completed for "@ + label + tail,
        ShellStatus::Failed => "Shell command failed for "@ + label + tail,
        ShellStatus::Killed => "Shell task canceled for "@ + label + tail,
        ShellStatus::TimedOut => "Shell command timed out for "@ + label + " after "@ + decimal(duration_ms as nat) + " ms"@,
    }
}

pub fn shell_result_summary(result: &ShellResult, label: &str) -> (r: String)
    ensures
        r@ == shell_summary_spec(result.status, result.exit_code, result.duration_ms, label@),
{
    let mut out = String::new();
    match result.status {
        ShellStatus::Running => {
            push_str(&mut out, "Started background shell task for ");
            push_str(&mut out, label);
            return out;
        },
        ShellStatus::Completed => push_str(&mut out, "Shell command completed for "),
        ShellStatus::Failed => push_str(&mut out, "Shell command failed for "),
        ShellStatus::Killed => push_str(&mut out, "Shell task canceled for "),
        ShellStatus::TimedOut => {
            push_str(&mut out, "Shell command timed out for ");
            push_str(&mut out, label);
            push_str(&mut out, " after ");
            let d = u64_to_string(result.duration_ms);
            push_str(&mut out, d.as_str());
            push_str(&mut out, " ms");
            return out;
        },
    }
    push_str(&mut out, label);
    push_str(&mut out, " (exit ");
    push_exit_code_debug(&mut out, result.exit_code);
    push_str(&mut out, ", ");
    let d = u64_to_string(result.duration_ms);
    push_str(&mut out, d.as_str());
    push_str(&mut out, " ms)");
    out
}

/// The text that a shell tool call returns to the model.
pub open spec fn render_spec(result: ShellResult, timeout_ms: u64) -> Seq<char> {
    let out = truncated_spec(result.stdout@, 12000);
    let err = truncated_spec(result.stderr@, 12000);
    match result.status {
        ShellStatus::Running => "Background shell task started: "@ + match result.task_id {
            Some(t) => t@,
            None => "<unknown>"@,
        },
        ShellStatus::TimedOut => "Command timed out after "@ + decimal(timeout_ms as nat) + "ms.\n\nSTDOUT:\n"@ + out
            + "\n\nSTDERR:\n"@ + err,
        ShellStatus::Completed if result.stdout@.len() == 0 && result.stderr@.len() == 0 => "(no output)"@,
        ShellStatus::Completed if result.stderr@.len() == 0 => out,
        _ => "STDOUT:\n"@ + out + "\n\nSTDERR:\n"@ + err,
    }
}

pub fn render_shell_result(result: &ShellResult, timeout_ms: u64) -> (r: String)
    ensures
        r@ == render_spec(*result, timeout_ms),
{
    let no_out = to_chars(result.stdout.as_str()).len() == 0;
    let no_err = to_chars(result.stderr.as_str()).len() == 0;
    match result.status {
        ShellStatus::Running => {
            let mut out = owned("Background shell task started: ");
            match &result.task_id {
                Some(t) => push_str(&mut out, t.as_str()),
                None => push_str(&mut out, "<unknown>"),
            }
            out
        },
        ShellStatus::TimedOut => {
            let mut out = owned("Command timed out after ");
            let t = u64_to_string(timeout_ms);
            push_str(&mut out, t.as_str());
            push_str(&mut out, "ms.\n\nSTDOUT:\n");
            let o = trimmed_output(result.stdout.as_str());
            push_str(&mut out, o.as_str());
            push_str(&mut out, "\n\nSTDERR:\n");
            let e = trimmed_output(result.stderr.as_str());
            push_str(&mut out, e.as_str());
            out
        },
        ShellStatus::Completed if no_out && no_err => owned("(no output)"),
        ShellStatus::Completed if no_err => trimmed_output(result.stdout.as_str()),
        _ => {
            let mut out = owned("STDOUT:\n");
            let o = trimmed_output(result.stdout.as_str());
            push_str(&mut out, o.as_str());
            push_str(&mut out, "\n\nSTDERR:\n");
            let e = trimmed_output(result.stderr.as_str());
            push_str(&mut out, e.as_str());
            out
        },
    }
}

/// The text that a look at a background shell returns to the model.
pub open spec fn wait_render_spec(result: ShellResult) -> Seq<char> {
    let a = if result.stdout@.len() > 0 {
        "STDOUT:\n"@ + truncated_spec(result.stdout@, 12000)
    } else {
        Seq::empty()
    };
    let b = if result.stderr@.len() > 0 {
        (if a.len() > 0 {
            "\n\n"@
        } else {
            Seq::empty()
        }) + "STDERR:\n"@ + truncated_spec(result.stderr@, 12000)
    } else {
        Seq::empty()
    };
    if (a + b).len() > 0 {
        a + b
    } else {
        match result.status {
            ShellStatus::Running => "Background shell task is still running."@,
            ShellStatus::Completed => "Background shell task completed with no new output."@,
            ShellStatus::Failed => "Background shell task failed with no new output."@,
            ShellStatus::Killed => "Background shell task was canceled."@,
            ShellStatus::TimedOut => "Background shell task wait timed out."@,
        }
    }
}

pub fn render_shell_wait_result(result: &ShellResult) -> (r: String)
    ensures
        r@ == wait_render_spec(*result),
{
    let mut output = String::new();
    if to_chars(result.stdout.as_str()).len() > 0 {
        push_str(&mut output, "STDOUT:\n");
        let o = trimmed_output(result.stdout.as_str());
        push_str(&mut output, o.as_str());
    }
    if to_chars(result.stderr.as_str()).len() > 0 {
        if to_chars(output.as_str()).len() > 0 {
            push_str(&mut output, "\n\n");
        }
        push_str(&mut output, "STDERR:\n");
        let e = trimmed_output(result.stderr.as_str());
        push_str(&mut output, e.as_str());
    }
    if to_chars(output.as_str()).len() == 0 {
        output = match result.status {
            ShellStatus::Running => owned("Background shell task is still running."),
            ShellStatus::Completed => owned("Background shell task completed with no new output."),
            ShellStatus::Failed => owned("Background shell task failed with no new output."),
            ShellStatus::Killed => owned("Background shell task was canceled."),
            ShellStatus::TimedOut => owned("Background shell task wait timed out."),
        };
    }
    output
}

/// The name that `{:?}` gives a status.
pub open spec fn status_name(status: ShellStatus) -> Seq<char> {
    match status {
        ShellStatus::Running => "Running"@,
        ShellStatus::Completed => "Completed"@,
        ShellStatus::Failed => "Failed"@,
        ShellStatus::Killed => "Killed"@,
        ShellStatus::TimedOut => "TimedOut"@,
    }
}

/// The report of a shell run that the interface shows in its tool panel.
pub open spec fn report_spec(result: ShellResult) -> Seq<char> {
    "status: "@ + status_name(result.status) + "\nexit_code: "@ + match result.exit_code {
        Some(c) => signed_decimal(c as int),
        None => "none"@,
    } + "\nduration_ms: "@ + decimal(result.duration_ms as nat) + match result.task_id {
        Some(t) => "\ntask_id: "@ + t@,
        None => Seq::empty(),
    } + if trim(result.stdout@).len() > 0 {
        "\n\nstdout:\n"@ + result.stdout@
    } else {
        Seq::empty()
    } + if trim(result.stderr@).len() > 0 {
        "\n\nstderr:\n"@ + result.stderr@
    } else {
        Seq::empty()
    }
}

fn status_text(status: ShellStatus) -> (r: &'static str)
    ensures
        r@ == status_name(status),
{
    match status {
        ShellStatus::Running => "Running",
        ShellStatus::Completed => "Completed",
        ShellStatus::Failed => "Failed",
        ShellStatus::Killed => "Killed",
        ShellStatus::TimedOut => "TimedOut",
    }
}

fn exit_code_text(code: Option<i32>) -> (r: String)
    ensures
        r@ == match code {
            Some(c) => signed_decimal(c as int),
            None => "none"@,
        },
{
    match code {
        Some(c) => i64_to_string(c as i64),
        None => owned("none"),
    }
}

fn stream_section(header: &str, text: &String) -> (r: String)
    ensures
        r@ == if trim(text@).len() > 0 {
            header@ + text@
        } else {
            Seq::empty()
        },
{
    if crate::text::trim_str(text.as_str()).len() > 0 {
        let mut s = owned(header);
        push_str(&mut s, text.as_str());
        s
    } else {
        String::new()
    }
}

pub fn shell_result_report(result: &ShellResult) -> (r: String)
    ensures
        r@ == report_spec(*result),
{
    let mut output = owned("status: ");
    push_str(&mut output, status_text(result.status));
    push_str(&mut output, "\nexit_code: ");
    let code = exit_code_text(result.exit_code);
    push_str(&mut output, code.as_str());
    push_str(&mut output, "\nduration_ms: ");
    let d = u64_to_string(result.duration_ms);
    push_str(&mut output, d.as_str());
    match &result.task_id {
        Some(t) => {
            push_str(&mut output, "\ntask_id: ");
            push_str(&mut output, t.as_str());
        },
        None => {},
    }
    let out = stream_section("\n\nstdout:\n", &result.stdout);
    push_str(&mut output, out.as_str());
    let err = stream_section("\n\nstderr:\n", &result.stderr);
    push_str(&mut output, err.as_str());
    output
}

/// The shortest and the longest time a command may run, in milliseconds.
pub const MIN_SHELL_TIMEOUT_MS: u64 = 100;
pub const MAX_SHELL_TIMEOUT_MS: u64 = 600000;

/// The timeout actually used for a requested one: kept between 100 ms and
/// ten minutes.
pub open spec fn clamped_timeout(timeout_ms: u64) -> u64 {
    if timeout_ms < MIN_SHELL_TIMEOUT_MS {
        MIN_SHELL_TIMEOUT_MS
    } else if timeout_ms > MAX_SHELL_TIMEOUT_MS {
        MAX_SHELL_TIMEOUT_MS
    } else {
        timeout_ms
    }
}

pub fn clamp_timeout_ms(timeout_ms: u64) -> (r: u64)
    ensures
        r == clamped_timeout(timeout_ms),
        MIN_SHELL_TIMEOUT_MS <= r <= MAX_SHELL_TIMEOUT_MS,
{
    if timeout_ms < MIN_SHELL_TIMEOUT_MS {
        MIN_SHELL_TIMEOUT_MS
    } else if timeout_ms > MAX_SHELL_TIMEOUT_MS {
        MAX_SHELL_TIMEOUT_MS
    } else {
        timeout_ms
    }
}

/// What one look at a foreground command finds: it has exited, or it is
/// still running after `elapsed_ms` and may have been cancelled.
#[derive(Debug, Clone, Copy, PartialEq, Eq, Structural)]
pub enum ForegroundPoll {
    Exited { success: bool, exit_code: Option<i32> },
    Running { elapsed_ms: u64, cancelled: bool },
}

/// What to do next with a foreground command: report it finished, kill it
/// and report it with the status, or look again after a pause.
#[derive(Debug, Clone, Copy, PartialEq, Eq, Structural)]
pub enum ForegroundStep {
    Finish { status: ShellStatus, exit_code: Option<i32> },
    Kill(ShellStatus),
    Sleep(u64),
}

/// The milliseconds between two looks at a running command.
pub const SHELL_POLL_INTERVAL_MS: u64 = 50;

pub open spec fn foreground_step_spec(poll: ForegroundPoll, timeout_ms: u64) -> ForegroundStep {
    match poll {
        ForegroundPoll::Exited { success, exit_code } => ForegroundStep::Finish {
            status: if success {
                ShellStatus::Completed
            } else {
                ShellStatus::Failed
            },
            exit_code,
        },
        ForegroundPoll::Running { elapsed_ms, cancelled } => if elapsed_ms >= clamped_timeout(
            timeout_ms,
        ) {
            ForegroundStep::Kill(ShellStatus::TimedOut)
        } else if cancelled {
            ForegroundStep::Kill(ShellStatus::Killed)
        } else {
            ForegroundStep::Sleep(SHELL_POLL_INTERVAL_MS)
        },
    }
}

/// The decision after one look at a foreground command run with the
/// requested timeout: an exit is reported as completed or failed; past the
/// timeout the command is killed as timed out, when cancelled it is killed;
/// otherwise the runner waits and looks again.
pub fn foreground_step(poll: ForegroundPoll, timeout_ms: u64) -> (r: ForegroundStep)
    ensures
        r == foreground_step_spec(poll, timeout_ms),
{
    match poll {
        ForegroundPoll::Exited { success, exit_code } => ForegroundStep::Finish {
            status: if success {
                ShellStatus::Completed
            } else {
                ShellStatus::Failed
            },
            exit_code,
        },
        ForegroundPoll::Running { elapsed_ms, cancelled } => {
            if elapsed_ms >= clamp_timeout_ms(timeout_ms) {
                ForegroundStep::Kill(ShellStatus::TimedOut)
            } else if cancelled {
                ForegroundStep::Kill(ShellStatus::Killed)
            } else {
                ForegroundStep::Sleep(SHELL_POLL_INTERVAL_MS)
            }
        },
    }
}

/// Whether waiting on a background command stops: it has exited, new
/// output arrived, or the deadline passed.
pub fn wait_should_stop(exited: bool, has_new_output: bool, past_deadline: bool) -> (r: bool)
    ensures
        r == (exited || has_new_output || past_deadline),
{
    exited || has_new_output || past_deadline
}

/// The id of the `n`-th background command.
pub fn shell_task_id(n: u64) -> (r: String)
    ensures
        r@ == "shell-"@ + decimal(n as nat),
{
    let mut s = owned("shell-");
    push_str(&mut s, u64_to_string(n).as_str());
    s
}

/// A command that has been given a timeout ends: the runner keeps looking
/// only while the command runs, is not cancelled and is within its time.
pub proof fn law_foreground_ends_by_timeout(elapsed_ms: u64, cancelled: bool, timeout_ms: u64)
    requires
        elapsed_ms >= MAX_SHELL_TIMEOUT_MS,
    ensures
        foreground_step_spec(ForegroundPoll::Running { elapsed_ms, cancelled }, timeout_ms)
            == ForegroundStep::Kill(ShellStatus::TimedOut),
{
}

/// Whether `needle` stands in `hay` at position `p`.
pub open spec fn occurs_at(hay: Seq<char>, needle: Seq<char>, p: int) -> bool {
    0 <= p && p + needle.len() <= hay.len() && hay.subrange(p, p + needle.len()) == needle
}

/// How many characters of an output stream a report shows in full.
pub open spec fn shown_len(text: Seq<char>) -> int {
    if text.len() <= 12000 {
        text.len() as int
    } else {
        12000
    }
}

proof fn lemma_truncated_keeps_head(text: Seq<char>)
    ensures
        truncated_spec(text, 12000).len() >= shown_len(text),
        truncated_spec(text, 12000).take(shown_len(text)) == text.take(shown_len(text)),
{
    reveal_strlit("\n... truncated ");
    reveal_strlit(" chars ...");
    if text.len() <= 12000 {
        assert(truncated_spec(text, 12000).take(shown_len(text)) =~= text.take(shown_len(text)));
    } else {
        let t = truncated_spec(text, 12000);
        assert(t.take(12000) =~= text.take(12000));
    }
}

/// A completed command is reported as "(no output)" when it wrote nothing on
/// either stream, and never when it wrote something to standard error.
pub proof fn law_completed_reports_no_output_only_when_silent(result: ShellResult, timeout_ms: u64)
    requires
        result.status == ShellStatus::Completed,
    ensures
        result.stdout@.len() == 0 && result.stderr@.len() == 0 ==> render_spec(result, timeout_ms)
            == "(no output)"@,
        result.stderr@.len() > 0 ==> render_spec(result, timeout_ms) != "(no output)"@,
{
    reveal_strlit("(no output)");
    reveal_strlit("STDOUT:\n");
    if result.stderr@.len() > 0 {
        let r = render_spec(result, timeout_ms);
        assert(r[0] == 'S');
        assert("(no output)"@[0] == '(');
    }
}

/// Whatever a finished command wrote is shown to the model: the start of its
/// standard output (up to 12000 characters) stands in the report, and so does
/// the start of its standard error, under an `STDERR:` heading.
pub proof fn law_render_shows_both_streams(result: ShellResult, timeout_ms: u64)
    requires
        result.status != ShellStatus::Running,
    ensures
        result.stdout@.len() > 0 ==> exists|p: int|
            occurs_at(
                render_spec(result, timeout_ms),
                result.stdout@.take(shown_len(result.stdout@)),
                p,
            ),
        result.stderr@.len() > 0 ==> exists|p: int|
            occurs_at(
                render_spec(result, timeout_ms),
                "STDERR:\n"@ + result.stderr@.take(shown_len(result.stderr@)),
                p,
            ),
{
    reveal_strlit("Command timed out after ");
    reveal_strlit("ms.\n\nSTDOUT:\n");
    reveal_strlit("\n\nSTDERR:\n");
    reveal_strlit("STDOUT:\n");
    reveal_strlit("STDERR:\n");
    let r = render_spec(result, timeout_ms);
    let out = truncated_spec(result.stdout@, 12000);
    let err = truncated_spec(result.stderr@, 12000);
    lemma_truncated_keeps_head(result.stdout@);
    lemma_truncated_keeps_head(result.stderr@);
    let ko = shown_len(result.stdout@);
    let ke = shown_len(result.stderr@);
    let so = result.stdout@.take(ko);
    let se = "STDERR:\n"@ + result.stderr@.take(ke);
    let tail = "\n\nSTDERR:\n"@ + err;
    if result.status == ShellStatus::TimedOut {
        let head = "Command timed out after "@ + decimal(timeout_ms as nat) + "ms.\n\nSTDOUT:\n"@;
        assert(r == head + out + tail);
        if result.stdout@.len() > 0 {
            let p = head.len() as int;
            assert(r.subrange(p, p + so.len()) =~= so);
            assert(occurs_at(r, so, p));
        }
        if result.stderr@.len() > 0 {
            let p = (head.len() + out.len() + 2) as int;
            assert(r.subrange(p, p + se.len()) =~= se);
            assert(occurs_at(r, se, p));
        }
    } else if result.status == ShellStatus::Completed && result.stderr@.len() == 0 {
        if result.stdout@.len() > 0 {
            assert(r == out);
            assert(r.subrange(0, so.len() as int) =~= so);
            assert(occurs_at(r, so, 0));
        }
    } else {
        let head = "STDOUT:\n"@;
        assert(r == head + out + tail);
        if result.stdout@.len() > 0 {
            let p = head.len() as int;
            assert(r.subrange(p, p + so.len()) =~= so);
            assert(occurs_at(r, so, p));
        }
        if result.stderr@.len() > 0 {
            let p = (head.len() + out.len() + 2) as int;
            assert(r.subrange(p, p + se.len()) =~= se);
            assert(occurs_at(r, se, p));
        }
    }
}

/// Runs a shell command in the workspace.
pub struct ExecShellTool;

/// Waits for a background shell command.
pub struct ShellWaitTool;

/// Sends input to a background shell command.
pub struct ShellInteractTool;

/// Cancels a background shell command.
pub struct ShellCancelTool;

impl ExecShellTool {
    pub fn name(&self) -> (r: &'static str)
        ensures
            r@ == "exec_shell"@,
    {
        "exec_shell"
    }

    pub fn description(&self) -> (r: &'static str)
        ensures
            r@ == "Run a shell command inside the workspace. Use background=true for long-running commands."@,
    {
        "Run a shell command inside the workspace. Use background=true for long-running commands."
    }

    pub fn kind(&self) -> (r: crate::tooling::ToolKind)
        ensures
            r == crate::tooling::ToolKind::Shell,
    {
        crate::tooling::ToolKind::Shell
    }

    pub fn approval_requirement(&self) -> (r: crate::tooling::ApprovalRequirement)
        ensures
            r == crate::tooling::ApprovalRequirement::Prompt,
    {
        crate::tooling::ApprovalRequirement::Prompt
    }

    /// The one-line summary of a call; `command` is the input's field.
    pub fn summarize(&self, command: Option<&str>) -> (r: String)
        ensures
            r@ == crate::file_tools::labelled(
                "Run shell command: "@,
                crate::file_tools::opt_str_view(command),
                "<missing>"@,
            ),
    {
        crate::file_tools::label("Run shell command: ", command, "<missing>")
    }
}

impl ShellWaitTool {
    pub fn name(&self) -> (r: &'static str)
        ensures
            r@ == "exec_shell_wait"@,
    {
        "exec_shell_wait"
    }

    pub fn description(&self) -> (r: &'static str)
        ensures
            r@ == "Wait for a background shell command and return new output."@,
    {
        "Wait for a background shell command and return new output."
    }

    pub fn kind(&self) -> (r: crate::tooling::ToolKind)
        ensures
            r == crate::tooling::ToolKind::Shell,
    {
        crate::tooling::ToolKind::Shell
    }

    pub fn approval_requirement(&self) -> (r: crate::tooling::ApprovalRequirement)
        ensures
            r == crate::tooling::ApprovalRequirement::Auto,
    {
        crate::tooling::ApprovalRequirement::Auto
    }

    pub fn summarize(&self, task_id: Option<&str>) -> (r: String)
        ensures
            r@ == crate::file_tools::labelled(
                "Wait for shell task "@,
                crate::file_tools::opt_str_view(task_id),
                "<missing>"@,
            ),
    {
        crate::file_tools::label("Wait for shell task ", task_id, "<missing>")
    }
}

impl ShellInteractTool {
    pub fn name(&self) -> (r: &'static str)
        ensures
            r@ == "exec_shell_interact"@,
    {
        "exec_shell_interact"
    }

    pub fn description(&self) -> (r: &'static str)
        ensures
            r@ == "Send stdin to a background shell command and return new output."@,
    {
        "Send stdin to a background shell command and return new output."
    }

    pub fn kind(&self) -> (r: crate::tooling::ToolKind)
        ensures
            r == crate::tooling::ToolKind::Shell,
    {
        crate::tooling::ToolKind::Shell
    }

    pub fn approval_requirement(&self) -> (r: crate::tooling::ApprovalRequirement)
        ensures
            r == crate::tooling::ApprovalRequirement::Prompt,
    {
        crate::tooling::ApprovalRequirement::Prompt
    }

    pub fn summarize(&self, task_id: Option<&str>) -> (r: String)
        ensures
            r@ == crate::file_tools::labelled(
                "Send input to shell task "@,
                crate::file_tools::opt_str_view(task_id),
                "<missing>"@,
            ),
    {
        crate::file_tools::label("Send input to shell task ", task_id, "<missing>")
    }
}

impl ShellCancelTool {
    pub fn name(&self) -> (r: &'static str)
        ensures
            r@ == "exec_shell_cancel"@,
    {
        "exec_shell_cancel"
    }

    pub fn description(&self) -> (r: &'static str)
        ensures
            r@ == "Cancel a running background shell command."@,
    {
        "Cancel a running background shell command."
    }

    pub fn kind(&self) -> (r: crate::tooling::ToolKind)
        ensures
            r == crate::tooling::ToolKind::Shell,
    {
        crate::tooling::ToolKind::Shell
    }

    pub fn approval_requirement(&self) -> (r: crate::tooling::ApprovalRequirement)
        ensures
            r == crate::tooling::ApprovalRequirement::Prompt,
    {
        crate::tooling::ApprovalRequirement::Prompt
    }

    pub fn summarize(&self, task_id: Option<&str>) -> (r: String)
        ensures
            r@ == crate::file_tools::labelled(
                "Cancel shell task "@,
                crate::file_tools::opt_str_view(task_id),
                "<missing>"@,
            ),
    {
        crate::file_tools::label("Cancel shell task ", task_id, "<missing>")
    }
}

/// One line of the `/jobs` list.
pub open spec fn job_line(job: ShellJobSnapshot) -> Seq<char> {
    "- "@ + job.id@ + " | "@ + status_name(job.status) + " | stdin="@ + if job.stdin_available {
        "true"@
    } else {
        "false"@
    } + " | "@ + job.command@ + "\n"@
}

pub open spec fn job_lines(jobs: Seq<ShellJobSnapshot>) -> Seq<char>
    decreases jobs.len(),
{
    if jobs.len() == 0 {
        Seq::empty()
    } else {
        job_lines(jobs.drop_last()) + job_line(jobs.last())
    }
}

/// The text and the status line that `/jobs` shows for the background
/// jobs.
pub fn jobs_list_report(jobs: &Vec<ShellJobSnapshot>) -> (r: (String, String))
    ensures
        r.0@ == if jobs@.len() == 0 {
            "Shell jobs\n\nNo background shell jobs."@
        } else {
            crate::text::trim_end("Shell jobs\n\n"@ + job_lines(jobs@))
        },
        r.1@ == "Shell jobs listed"@,
{
    if jobs.len() == 0 {
        return (owned("Shell jobs\n\nNo background shell jobs."), owned("Shell jobs listed"));
    }
    let mut out = owned("Shell jobs\n\n");
    let ghost head = out@;
    let mut i: usize = 0;
    while i < jobs.len()
        invariant
            i <= jobs@.len(),
            head == "Shell jobs\n\n"@,
            out@ == head + job_lines(jobs@.take(i as int)),
        decreases jobs@.len() - i,
    {
        let job = &jobs[i];
        assert(jobs@.take(i + 1).drop_last() =~= jobs@.take(i as int));
        assert(jobs@.take(i + 1).last() == *job);
        push_str(&mut out, "- ");
        push_str(&mut out, job.id.as_str());
        push_str(&mut out, " | ");
        push_str(&mut out, status_text(job.status));
        push_str(&mut out, " | stdin=");
        push_str(&mut out, if job.stdin_available { "true" } else { "false" });
        push_str(&mut out, " | ");
        push_str(&mut out, job.command.as_str());
        push_str(&mut out, "\n");
        assert(out@ =~= head + job_lines(jobs@.take(i + 1)));
        i += 1;
    }
    assert(jobs@.take(i as int) =~= jobs@);
    let text = from_chars(&crate::text::trim_end_vec(&to_chars(out.as_str())));
    (text, owned("Shell jobs listed"))
}

/// What a `/jobs` command did to a job.
#[derive(Debug, Clone, Copy, PartialEq, Eq, Structural)]
pub enum JobAction {
    Poll,
    Wait,
    Stdin,
    Cancel,
}

pub open spec fn job_action_texts(action: JobAction) -> (Seq<char>, Seq<char>) {
    match action {
        JobAction::Poll => ("Shell job poll\n\n"@, "Polled shell job "@),
        JobAction::Wait => ("Shell job wait\n\n"@, "Waited on shell job "@),
        JobAction::Stdin => ("Shell job stdin\n\n"@, "Sent stdin to shell job "@),
        JobAction::Cancel => ("Shell job cancelled\n\n"@, "Cancelled shell job "@),
    }
}

/// The text and the status line that `/jobs` shows after acting on job
/// `id`.
pub fn job_action_report(action: JobAction, id: &str, result: &ShellResult) -> (r: (String, String))
    ensures
        r.0@ == job_action_texts(action).0 + report_spec(*result),
        r.1@ == job_action_texts(action).1 + id@,
{
    let (head, status) = match action {
        JobAction::Poll => ("Shell job poll\n\n", "Polled shell job "),
        JobAction::Wait => ("Shell job wait\n\n", "Waited on shell job "),
        JobAction::Stdin => ("Shell job stdin\n\n", "Sent stdin to shell job "),
        JobAction::Cancel => ("Shell job cancelled\n\n", "Cancelled shell job "),
    };
    let mut text = owned(head);
    push_str(&mut text, shell_result_report(result).as_str());
    let mut line = owned(status);
    push_str(&mut line, id);
    (text, line)
}

} // verus!
