use mimo_tui::agent::{runs_without_asking, AgentError, AgentTurn, ToolOutcome, MAX_TOOL_ROUNDS};
use mimo_tui::client::AssistantResponse;
use mimo_tui::protocol::{ChatMessage, Role, ToolCall, ToolFunction};
use mimo_tui::shell::{
    clamp_timeout_ms, foreground_step, shell_task_id, wait_should_stop, ExecShellTool,
    ForegroundPoll, ForegroundStep, ShellCancelTool, ShellInteractTool, ShellStatus, ShellWaitTool,
};
use mimo_tui::tooling::ApprovalRequirement;

fn call(id: &str) -> ToolCall {
    ToolCall {
        id: id.to_string(),
        kind: "function".to_string(),
        function: ToolFunction {
            name: "read_file".to_string(),
            arguments: "{}".to_string(),
        },
    }
}

#[test]
fn a_reply_without_tools_ends_the_turn() {
    let mut turn = AgentTurn::new(vec![ChatMessage::user("hi")]);
    assert!(turn.begin_round().is_ok());
    let calls = turn.accept_reply(AssistantResponse {
        content: "hello".to_string(),
        tool_calls: Vec::new(),
    });
    assert!(calls.is_empty());
    assert_eq!(turn.messages.len(), 2);
    assert_eq!(turn.messages[1], ChatMessage::assistant("hello"));

    let mut quiet = AgentTurn::new(Vec::new());
    quiet.accept_reply(AssistantResponse {
        content: String::new(),
        tool_calls: Vec::new(),
    });
    assert!(quiet.messages.is_empty());
}

#[test]
fn each_tool_call_gets_one_tool_message() {
    let mut turn = AgentTurn::new(vec![ChatMessage::user("go")]);
    turn.begin_round().unwrap();
    let calls = turn.accept_reply(AssistantResponse {
        content: String::new(),
        tool_calls: vec![call("a"), call("b"), call("c")],
    });
    assert_eq!(calls.len(), 3);
    assert_eq!(turn.messages[1].role, Role::Assistant);
    assert_eq!(turn.messages[1].tool_calls.as_ref().map(|c| c.len()), Some(3));
    turn.record_outcome("a", ToolOutcome::Succeeded("data".to_string()));
    turn.record_outcome("b", ToolOutcome::Denied("Write file x".to_string()));
    turn.record_outcome("c", ToolOutcome::Failed("boom".to_string()));
    assert_eq!(turn.messages[2], ChatMessage::tool("a", "data"));
    assert_eq!(
        turn.messages[3],
        ChatMessage::tool("b", "Tool request denied by the user: Write file x")
    );
    assert_eq!(turn.messages[4], ChatMessage::tool("c", "Tool error: boom"));
}

#[test]
fn a_turn_stops_after_the_round_limit() {
    let mut turn = AgentTurn::new(Vec::new());
    for _ in 0..MAX_TOOL_ROUNDS {
        assert!(turn.begin_round().is_ok());
    }
    assert_eq!(turn.begin_round(), Err(AgentError::RoundLimit));
    assert_eq!(
        AgentError::RoundLimit.message(),
        "agent exceeded 25 tool-call rounds; possible infinite loop"
    );
    assert!(runs_without_asking(ApprovalRequirement::Auto));
    assert!(!runs_without_asking(ApprovalRequirement::Prompt));
}

#[test]
fn foreground_commands_finish_time_out_or_are_killed() {
    assert_eq!(clamp_timeout_ms(5), 100);
    assert_eq!(clamp_timeout_ms(10_000_000), 600_000);
    assert_eq!(clamp_timeout_ms(2_000), 2_000);
    assert_eq!(
        foreground_step(ForegroundPoll::Exited { success: true, exit_code: Some(0) }, 1000),
        ForegroundStep::Finish { status: ShellStatus::Completed, exit_code: Some(0) }
    );
    assert_eq!(
        foreground_step(ForegroundPoll::Exited { success: false, exit_code: Some(2) }, 1000),
        ForegroundStep::Finish { status: ShellStatus::Failed, exit_code: Some(2) }
    );
    assert_eq!(
        foreground_step(ForegroundPoll::Running { elapsed_ms: 100, cancelled: false }, 1),
        ForegroundStep::Kill(ShellStatus::TimedOut)
    );
    assert_eq!(
        foreground_step(ForegroundPoll::Running { elapsed_ms: 10, cancelled: true }, 1000),
        ForegroundStep::Kill(ShellStatus::Killed)
    );
    assert_eq!(
        foreground_step(ForegroundPoll::Running { elapsed_ms: 10, cancelled: false }, 1000),
        ForegroundStep::Sleep(50)
    );
    assert!(wait_should_stop(false, true, false));
    assert!(!wait_should_stop(false, false, false));
    assert_eq!(shell_task_id(7), "shell-7");
}

#[test]
fn shell_tools_name_themselves() {
    assert_eq!(ExecShellTool.name(), "exec_shell");
    assert_eq!(ShellWaitTool.name(), "exec_shell_wait");
    assert_eq!(ShellInteractTool.name(), "exec_shell_interact");
    assert_eq!(ShellCancelTool.name(), "exec_shell_cancel");
    assert_eq!(ShellWaitTool.approval_requirement(), ApprovalRequirement::Auto);
    assert_eq!(ShellCancelTool.approval_requirement(), ApprovalRequirement::Prompt);
    assert_eq!(ExecShellTool.summarize(Some("ls")), "Run shell command: ls");
    assert_eq!(ShellWaitTool.summarize(None), "Wait for shell task <missing>");
}
