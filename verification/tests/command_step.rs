use mimo_tui::command_step::{command_step, CommandAction, CommandState};
use mimo_tui::commands::{parse_slash_command, ModeName, PlanCommand, SlashCommand};
use mimo_tui::models::AppMode;
use mimo_tui::tooling::ApprovalMode;

fn state() -> CommandState {
    CommandState {
        mode: AppMode::Agent,
        approval_mode: ApprovalMode::Prompt,
        plan_items: Vec::new(),
        status: "Ready".to_string(),
        streaming: false,
        last_prompt: Some("fix the build".to_string()),
        help_open: false,
        help_filter: String::new(),
    }
}

#[test]
fn mode_commands_switch_mode_and_approval() {
    let mut s = state();
    let command = parse_slash_command("/mode yolo").expect("parse");
    assert!(matches!(command_step(&mut s, command), CommandAction::Continue));
    assert_eq!(s.mode, AppMode::Yolo);
    assert_eq!(s.approval_mode, ApprovalMode::Auto);
    assert_eq!(s.status, "Mode switched to yolo");
    command_step(&mut s, SlashCommand::Mode { mode: None });
    assert_eq!(s.status, "Current mode: yolo");
    command_step(&mut s, SlashCommand::Mode { mode: Some(ModeName::Plan) });
    assert_eq!(s.approval_mode, ApprovalMode::ReadOnly);
}

#[test]
fn retry_and_clear_respect_streaming() {
    let mut s = state();
    match command_step(&mut s, SlashCommand::Retry) {
        CommandAction::Resend(prompt) => assert_eq!(prompt, "fix the build"),
        _ => panic!("expected a resend"),
    }
    s.streaming = true;
    assert!(matches!(command_step(&mut s, SlashCommand::Clear), CommandAction::Continue));
    assert_eq!(s.status, "Cannot clear while MiMo is responding");
    s.streaming = false;
    assert!(matches!(command_step(&mut s, SlashCommand::Clear), CommandAction::ClearConversation));
    assert_eq!(s.last_prompt, None);
    command_step(&mut s, SlashCommand::Retry);
    assert_eq!(s.status, "No prompt available to retry");
}

#[test]
fn help_plan_exit_and_outside_commands() {
    let mut s = state();
    match command_step(&mut s, SlashCommand::Help { topic: Some("mode".to_string()) }) {
        CommandAction::ShowMessage(text) => assert!(text.contains("/mode")),
        _ => panic!("expected help text"),
    }
    assert!(s.help_open);
    assert_eq!(s.help_filter, "mode");
    command_step(&mut s, SlashCommand::Plan(PlanCommand::Add("write tests".to_string())));
    assert_eq!(s.plan_items.len(), 1);
    assert_eq!(s.status, "Added plan item: write tests");
    assert!(matches!(command_step(&mut s, SlashCommand::Exit), CommandAction::Quit));
    match command_step(&mut s, SlashCommand::Diff) {
        CommandAction::Outside(SlashCommand::Diff) => {}
        _ => panic!("expected the command handed on"),
    }
    assert_eq!(s.status, "Added plan item: write tests");
}
