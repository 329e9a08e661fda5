use mimo_tui::commands::{
    command_help, filtered_commands, find_command, help_overlay_lines, parse_slash_command,
    CommandParseError, ConfigCommand, JobsCommand, LspCommand, McpCommand, MemoryCommand,
    ModeName, PlanCommand, ReviewCommand, SkillCommand, SlashCommand, TaskCommand,
};

#[test]
fn parses_core_commands() {
    assert_eq!(
        parse_slash_command("/help clear"),
        Ok(SlashCommand::Help {
            topic: Some("clear".to_string())
        })
    );
    assert_eq!(
        parse_slash_command("/Mode plan"),
        Ok(SlashCommand::Mode {
            mode: Some(ModeName::Plan)
        })
    );
    assert_eq!(
        parse_slash_command("/config model mimo-v2-flash"),
        Ok(SlashCommand::Config(ConfigCommand::SetModel(
            "mimo-v2-flash".to_string()
        )))
    );
    assert_eq!(
        parse_slash_command("/plan add Build slash menu"),
        Ok(SlashCommand::Plan(PlanCommand::Add(
            "Build slash menu".to_string()
        )))
    );
    assert_eq!(
        parse_slash_command("/memory path"),
        Ok(SlashCommand::Memory(MemoryCommand::Path))
    );
    assert_eq!(
        parse_slash_command("/branch"),
        Ok(SlashCommand::Branch {
            message_index: None
        })
    );
    assert_eq!(
        parse_slash_command("/branch 2"),
        Ok(SlashCommand::Branch {
            message_index: Some(2)
        })
    );
    assert_eq!(
        parse_slash_command("/b 2"),
        Ok(SlashCommand::Branch {
            message_index: Some(2)
        })
    );
    assert_eq!(parse_slash_command("/branches"), Ok(SlashCommand::Branches));
    assert_eq!(
        parse_slash_command("/switch branch-2"),
        Ok(SlashCommand::Switch {
            branch_id: "branch-2".to_string()
        })
    );
    assert_eq!(
        parse_slash_command("/jobs stdin shell-1 y{enter}"),
        Ok(SlashCommand::Jobs(JobsCommand::Stdin {
            id: "shell-1".to_string(),
            input: "y{enter}".to_string()
        }))
    );
    assert_eq!(
        parse_slash_command("/task add Review the latest diff"),
        Ok(SlashCommand::Task(TaskCommand::Add(
            "Review the latest diff".to_string()
        )))
    );
    assert_eq!(
        parse_slash_command("/restore snapshot-2"),
        Ok(SlashCommand::Restore {
            id: Some("snapshot-2".to_string())
        })
    );
    assert_eq!(parse_slash_command("/skills"), Ok(SlashCommand::Skills));
    assert_eq!(
        parse_slash_command("/skill install ./skills/review.md"),
        Ok(SlashCommand::Skill(SkillCommand::Install(
            "./skills/review.md".to_string()
        )))
    );
    assert_eq!(
        parse_slash_command("/skill review"),
        Ok(SlashCommand::Skill(SkillCommand::Toggle(
            "review".to_string()
        )))
    );
    assert_eq!(
        parse_slash_command("/mcp add stdio repo-lsp rust-analyzer --stdio"),
        Ok(SlashCommand::Mcp(McpCommand::AddStdio {
            name: "repo-lsp".to_string(),
            command: "rust-analyzer".to_string(),
            args: vec!["--stdio".to_string()],
        }))
    );
    assert_eq!(
        parse_slash_command("/mcp enable repo-lsp"),
        Ok(SlashCommand::Mcp(McpCommand::Enable(
            "repo-lsp".to_string()
        )))
    );
    assert_eq!(
        parse_slash_command("/review staged"),
        Ok(SlashCommand::Review(ReviewCommand::Staged))
    );
    assert_eq!(
        parse_slash_command("/review path src/main.rs"),
        Ok(SlashCommand::Review(ReviewCommand::Path(
            "src/main.rs".to_string()
        )))
    );
    assert_eq!(
        parse_slash_command("/lsp"),
        Ok(SlashCommand::Lsp(LspCommand::Status))
    );
    assert_eq!(
        parse_slash_command("/lsp on"),
        Ok(SlashCommand::Lsp(LspCommand::On))
    );
}

#[test]
fn reports_usage_errors() {
    assert_eq!(
        parse_slash_command("/clear now"),
        Err(CommandParseError::Usage("/clear"))
    );
    assert_eq!(
        parse_slash_command("/mode fast"),
        Err(CommandParseError::Usage("/mode [agent|plan]"))
    );
    assert_eq!(
        parse_slash_command("/mode 3"),
        Err(CommandParseError::Usage("/mode [agent|plan]"))
    );
    assert_eq!(
        parse_slash_command("/branch nope"),
        Err(CommandParseError::Usage("/branch [message-number]"))
    );
    assert_eq!(
        parse_slash_command("/branch 1 extra"),
        Err(CommandParseError::Usage("/branch [message-number]"))
    );
    assert_eq!(
        parse_slash_command("/switch"),
        Err(CommandParseError::Usage("/switch <branch-id>"))
    );
    assert_eq!(
        parse_slash_command("/switch branch-1 extra"),
        Err(CommandParseError::Usage("/switch <branch-id>"))
    );
}

#[test]
fn non_commands_and_unknown_names() {
    assert_eq!(parse_slash_command("hello"), Err(CommandParseError::NotACommand));
    assert_eq!(parse_slash_command("   "), Err(CommandParseError::NotACommand));
    assert_eq!(
        parse_slash_command("/frobnicate now"),
        Err(CommandParseError::UnknownCommand("frobnicate".to_string()))
    );
    assert_eq!(parse_slash_command("  /  quit  "), Ok(SlashCommand::Exit));
}

#[test]
fn parses_sub_commands() {
    assert_eq!(
        parse_slash_command("/config"),
        Ok(SlashCommand::Config(ConfigCommand::Show))
    );
    assert_eq!(
        parse_slash_command("/config clear-api-key"),
        Ok(SlashCommand::Config(ConfigCommand::ClearApiKey))
    );
    assert_eq!(
        parse_slash_command("/config api-key"),
        Err(CommandParseError::Usage(
            "/config [show|api-key <key>|clear-api-key|base-url <url>|model <id>|temperature <value>]"
        ))
    );
    assert_eq!(
        parse_slash_command("/plan done 3"),
        Ok(SlashCommand::Plan(PlanCommand::Done(3)))
    );
    assert_eq!(
        parse_slash_command("/plan done x"),
        Err(CommandParseError::Usage(
            "/plan [show|add <text>|done <n>|undo <n>|remove <n>|clear]"
        ))
    );
    assert_eq!(
        parse_slash_command("/mode 1"),
        Ok(SlashCommand::Mode {
            mode: Some(ModeName::Plan)
        })
    );
    assert_eq!(
        parse_slash_command("/mode chat"),
        Ok(SlashCommand::Mode {
            mode: Some(ModeName::Agent)
        })
    );
    assert_eq!(
        parse_slash_command("/jobs stdin shell-1"),
        Err(CommandParseError::Usage(
            "/jobs [list|show <id>|poll <id>|wait <id>|stdin <id> <input>|cancel <id>]"
        ))
    );
    assert_eq!(
        parse_slash_command("/mcp add http docs https://example.com/mcp"),
        Ok(SlashCommand::Mcp(McpCommand::AddHttp {
            name: "docs".to_string(),
            url: "https://example.com/mcp".to_string()
        }))
    );
    assert_eq!(
        parse_slash_command("/note"),
        Err(CommandParseError::Usage("/note <text>"))
    );
    assert_eq!(
        parse_slash_command("/recall  needle "),
        Ok(SlashCommand::Recall {
            query: "needle".to_string()
        })
    );
}

#[test]
fn finds_commands_by_name_and_alias() {
    assert_eq!(find_command("/quit").map(|info| info.name), Some("exit"));
    assert_eq!(find_command("B").map(|info| info.name), Some("branch"));
    assert_eq!(find_command("nothing").map(|info| info.name), None);
    let jobs = filtered_commands("JOB");
    assert!(jobs.iter().any(|info| info.name == "jobs"));
    assert!(filtered_commands("").len() > 30);
}

#[test]
fn help_texts() {
    assert_eq!(
        command_help(Some("clear")),
        "clear\n\nClear the current conversation history.\n\nUsage: /clear"
    );
    assert_eq!(
        command_help(Some("exit")),
        "exit\n\nQuit MiMo TUI.\n\nUsage: /exit\nAliases: quit, q"
    );
    assert_eq!(command_help(Some("zzz")), "Unknown command /zzz");
    assert!(command_help(None).starts_with("MiMo TUI commands\n\n/help [command] Show"));
    let lines = help_overlay_lines("quit");
    assert_eq!(lines[0], "Commands");
    assert_eq!(lines[1], "  /exit            Quit MiMo TUI.  [quit, q]");
    assert_eq!(lines[2], "");
    assert_eq!(lines[3], "Keybindings");
    assert!(lines.iter().any(|line| line.contains("Esc / Ctrl+C")));
}

#[test]
fn yolo_mode_is_named_by_the_mode_command() {
    assert_eq!(
        parse_slash_command("/mode YOLO"),
        Ok(SlashCommand::Mode {
            mode: Some(ModeName::Yolo)
        })
    );
    assert_eq!(
        mimo_tui::tooling::app_mode_for(ModeName::Yolo),
        mimo_tui::models::AppMode::Yolo
    );
}
