//! Slash commands: the command table, the parser and the help texts.
use vstd::prelude::*;

use crate::branch::opt_view;
use crate::ids::views;
use crate::keybindings::{KeybindingInfo, keybinding_table, keybindings};
use crate::text::{
    after_token, chars_eq, contains, contains_chars, eq_str, join, join_strings, push_str, from_chars, head_token, lower, lower_vec, parse_usize, parse_usize_spec,
    slice_vec, split_token, split_words, string_views, to_chars, token_len, token_length, trim,
    trim_start, trim_start_index, trim_vec, words,
};

verus! {

#[derive(Debug, Clone, Copy, PartialEq, Eq, Structural)]
pub enum ModeName {
    Agent,
    Plan,
    Yolo,
}

#[derive(Debug, Clone, PartialEq)]
pub enum SlashCommand {
    Help { topic: Option<String> },
    Clear,
    Exit,
    Model { model: Option<String> },
    Models,
    Save { path: Option<String> },
    Load { path: Option<String> },
    Sessions,
    Export { path: Option<String> },
    Config(ConfigCommand),
    Status,
    Retry,
    Context,
    Branch { message_index: Option<usize> },
    Branches,
    Switch { branch_id: String },
    Mode { mode: Option<ModeName> },
    Plan(PlanCommand),
    Jobs(JobsCommand),
    Task(TaskCommand),
    Diff,
    Undo,
    Restore { id: Option<String> },
    Note { text: String },
    Memory(MemoryCommand),
    Recall { query: String },
    Compact,
    Review(ReviewCommand),
    Lsp(LspCommand),
    Skills,
    Skill(SkillCommand),
    Mcp(McpCommand),
}

#[derive(Debug, Clone, PartialEq)]
pub enum ConfigCommand {
    Show,
    SetApiKey(String),
    ClearApiKey,
    SetBaseUrl(String),
    SetModel(String),
    SetTemperature(String),
}

#[derive(Debug, Clone, PartialEq, Eq)]
pub enum PlanCommand {
    Show,
    Add(String),
    Done(usize),
    Undo(usize),
    Remove(usize),
    Clear,
}

#[derive(Debug, Clone, Copy, PartialEq, Eq, Structural)]
pub enum MemoryCommand {
    Show,
    Path,
    Clear,
    Help,
}

#[derive(Debug, Clone, PartialEq, Eq)]
pub enum JobsCommand {
    List,
    Show(String),
    Poll(String),
    Wait(String),
    Stdin { id: String, input: String },
    Cancel(String),
}

#[derive(Debug, Clone, PartialEq, Eq)]
pub enum TaskCommand {
    Add(String),
    List,
    Show(String),
    Cancel(String),
}

#[derive(Debug, Clone, PartialEq, Eq)]
pub enum ReviewCommand {
    Workspace,
    Staged,
    Path(String),
}

#[derive(Debug, Clone, Copy, PartialEq, Eq, Structural)]
pub enum LspCommand {
    Status,
    Run,
    Show,
    Clear,
    On,
    Off,
}

#[derive(Debug, Clone, PartialEq, Eq)]
pub enum SkillCommand {
    Toggle(String),
    Install(String),
    Show(String),
    Uninstall(String),
}

#[derive(Debug, Clone, PartialEq, Eq)]
pub enum McpCommand {
    List,
    Show(String),
    AddStdio { name: String, command: String, args: Vec<String> },
    AddHttp { name: String, url: String },
    Enable(String),
    Disable(String),
    Remove(String),
}

#[derive(Debug, Clone, Copy, PartialEq, Eq)]
pub struct CommandInfo {
    pub name: &'static str,
    pub aliases: &'static [&'static str],
    pub usage: &'static str,
    pub description: &'static str,
}

/// The slash commands, in the order in which help lists them.
pub open spec fn command_table() -> Seq<CommandInfo> {
    seq![
        CommandInfo {
            name: "help",
            aliases: &["?"],
            usage: "/help [command]",
            description: "Show command help or open the help overlay.",
        },
        CommandInfo {
            name: "clear",
            aliases: &[],
            usage: "/clear",
            description: "Clear the current conversation history.",
        },
        CommandInfo {
            name: "exit",
            aliases: &["quit", "q"],
            usage: "/exit",
            description: "Quit MiMo TUI.",
        },
        CommandInfo {
            name: "model",
            aliases: &[],
            usage: "/model [id|auto]",
            description: "Show or switch the current mode's MiMo model.",
        },
        CommandInfo {
            name: "models",
            aliases: &[],
            usage: "/models",
            description: "Open the MiMo model picker for the current mode and refresh it from the API when possible.",
        },
        CommandInfo {
            name: "save",
            aliases: &[],
            usage: "/save [path]",
            description: "Save the current conversation to a local JSON session file.",
        },
        CommandInfo {
            name: "load",
            aliases: &[],
            usage: "/load [path]",
            description: "Load a local JSON session file, or the most recent saved session.",
        },
        CommandInfo {
            name: "sessions",
            aliases: &["resume"],
            usage: "/sessions",
            description: "Open the local saved-session picker.",
        },
        CommandInfo {
            name: "export",
            aliases: &[],
            usage: "/export [path]",
            description: "Export the current conversation as Markdown.",
        },
        CommandInfo {
            name: "config",
            aliases: &[],
            usage: "/config [show|api-key <key>|clear-api-key|base-url <url>|model <id>|temperature <value>]",
            description: "Show or update local MiMo-TUI configuration, including the current mode's model.",
        },
        CommandInfo {
            name: "status",
            aliases: &[],
            usage: "/status",
            description: "Show current runtime state and configuration summary.",
        },
        CommandInfo {
            name: "retry",
            aliases: &[],
            usage: "/retry",
            description: "Resend the last non-command prompt.",
        },
        CommandInfo {
            name: "context",
            aliases: &[],
            usage: "/context",
            description: "Summarize the current project directory in read-only form.",
        },
        CommandInfo {
            name: "branch",
            aliases: &["b"],
            usage: "/branch [message-number]",
            description: "Create a new conversation branch from a visible message.",
        },
        CommandInfo {
            name: "branches",
            aliases: &[],
            usage: "/branches",
            description: "List conversation branches.",
        },
        CommandInfo {
            name: "switch",
            aliases: &[],
            usage: "/switch <branch-id>",
            description: "Switch to a conversation branch.",
        },
        CommandInfo {
            name: "mode",
            aliases: &[],
            usage: "/mode [agent|plan|yolo]",
            description: "Show or switch the current MiMo interaction mode.",
        },
        CommandInfo {
            name: "plan",
            aliases: &[],
            usage: "/plan [show|add <text>|done <n>|undo <n>|remove <n>|clear]",
            description: "Inspect or update the local plan checklist.",
        },
        CommandInfo {
            name: "jobs",
            aliases: &["job"],
            usage: "/jobs [list|show <id>|poll <id>|wait <id>|stdin <id> <input>|cancel <id>]",
            description: "Inspect or control background shell jobs started by tools.",
        },
        CommandInfo {
            name: "task",
            aliases: &["tasks"],
            usage: "/task [add <prompt>|list|show <id>|cancel <id>]",
            description: "Queue or inspect durable background MiMo tasks.",
        },
        CommandInfo {
            name: "diff",
            aliases: &[],
            usage: "/diff",
            description: "Show the current workspace diff and tracked restore snapshots.",
        },
        CommandInfo {
            name: "undo",
            aliases: &[],
            usage: "/undo",
            description: "Restore the latest tracked workspace snapshot.",
        },
        CommandInfo {
            name: "restore",
            aliases: &[],
            usage: "/restore [snapshot-id]",
            description: "Restore a tracked workspace snapshot by id, or the latest one.",
        },
        CommandInfo {
            name: "note",
            aliases: &[],
            usage: "/note <text>",
            description: "Add a persistent memory note that is injected into later requests.",
        },
        CommandInfo {
            name: "memory",
            aliases: &[],
            usage: "/memory [show|path|clear|help]",
            description: "Inspect or clear the persistent MiMo memory file.",
        },
        CommandInfo {
            name: "recall",
            aliases: &[],
            usage: "/recall <query>",
            description: "Search the current transcript and memory notes for a query.",
        },
        CommandInfo {
            name: "compact",
            aliases: &[],
            usage: "/compact",
            description: "Compact older transcript messages into a local summary.",
        },
        CommandInfo {
            name: "review",
            aliases: &[],
            usage: "/review [workspace|staged|path <path>]",
            description: "Show a lightweight review context from git diff plus cached diagnostics.",
        },
        CommandInfo {
            name: "lsp",
            aliases: &[],
            usage: "/lsp [status|run|show|clear|on|off]",
            description: "Manage cached diagnostics and automatic refresh after file-tool edits.",
        },
        CommandInfo {
            name: "skills",
            aliases: &[],
            usage: "/skills",
            description: "List installed local skills and show which ones are active.",
        },
        CommandInfo {
            name: "skill",
            aliases: &[],
            usage: "/skill [name|install <path-or-url>|show <name>|uninstall <name>]",
            description: "Toggle, install, inspect, or uninstall a local skill.",
        },
        CommandInfo {
            name: "mcp",
            aliases: &[],
            usage: "/mcp [list|show <name>|add stdio <name> <command> [args...]|add http <name> <url>|enable <name>|disable <name>|remove <name>]",
            description: "Manage local MCP server definitions for future tool integrations.",
        },
    ]
}

/// The slash commands, in the order in which help lists them.
pub fn commands() -> (r: Vec<CommandInfo>)
    ensures
        r@ == command_table(),
{
    vec![
        CommandInfo {
            name: "help",
            aliases: &["?"],
            usage: "/help [command]",
            description: "Show command help or open the help overlay.",
        },
        CommandInfo {
            name: "clear",
            aliases: &[],
            usage: "/clear",
            description: "Clear the current conversation history.",
        },
        CommandInfo {
            name: "exit",
            aliases: &["quit", "q"],
            usage: "/exit",
            description: "Quit MiMo TUI.",
        },
        CommandInfo {
            name: "model",
            aliases: &[],
            usage: "/model [id|auto]",
            description: "Show or switch the current mode's MiMo model.",
        },
        CommandInfo {
            name: "models",
            aliases: &[],
            usage: "/models",
            description: "Open the MiMo model picker for the current mode and refresh it from the API when possible.",
        },
        CommandInfo {
            name: "save",
            aliases: &[],
            usage: "/save [path]",
            description: "Save the current conversation to a local JSON session file.",
        },
        CommandInfo {
            name: "load",
            aliases: &[],
            usage: "/load [path]",
            description: "Load a local JSON session file, or the most recent saved session.",
        },
        CommandInfo {
            name: "sessions",
            aliases: &["resume"],
            usage: "/sessions",
            description: "Open the local saved-session picker.",
        },
        CommandInfo {
            name: "export",
            aliases: &[],
            usage: "/export [path]",
            description: "Export the current conversation as Markdown.",
        },
        CommandInfo {
            name: "config",
            aliases: &[],
            usage: "/config [show|api-key <key>|clear-api-key|base-url <url>|model <id>|temperature <value>]",
            description: "Show or update local MiMo-TUI configuration, including the current mode's model.",
        },
        CommandInfo {
            name: "status",
            aliases: &[],
            usage: "/status",
            description: "Show current runtime state and configuration summary.",
        },
        CommandInfo {
            name: "retry",
            aliases: &[],
            usage: "/retry",
            description: "Resend the last non-command prompt.",
        },
        CommandInfo {
            name: "context",
            aliases: &[],
            usage: "/context",
            description: "Summarize the current project directory in read-only form.",
        },
        CommandInfo {
            name: "branch",
            aliases: &["b"],
            usage: "/branch [message-number]",
            description: "Create a new conversation branch from a visible message.",
        },
        CommandInfo {
            name: "branches",
            aliases: &[],
            usage: "/branches",
            description: "List conversation branches.",
        },
        CommandInfo {
            name: "switch",
            aliases: &[],
            usage: "/switch <branch-id>",
            description: "Switch to a conversation branch.",
        },
        CommandInfo {
            name: "mode",
            aliases: &[],
            usage: "/mode [agent|plan|yolo]",
            description: "Show or switch the current MiMo interaction mode.",
        },
        CommandInfo {
            name: "plan",
            aliases: &[],
            usage: "/plan [show|add <text>|done <n>|undo <n>|remove <n>|clear]",
            description: "Inspect or update the local plan checklist.",
        },
        CommandInfo {
            name: "jobs",
            aliases: &["job"],
            usage: "/jobs [list|show <id>|poll <id>|wait <id>|stdin <id> <input>|cancel <id>]",
            description: "Inspect or control background shell jobs started by tools.",
        },
        CommandInfo {
            name: "task",
            aliases: &["tasks"],
            usage: "/task [add <prompt>|list|show <id>|cancel <id>]",
            description: "Queue or inspect durable background MiMo tasks.",
        },
        CommandInfo {
            name: "diff",
            aliases: &[],
            usage: "/diff",
            description: "Show the current workspace diff and tracked restore snapshots.",
        },
        CommandInfo {
            name: "undo",
            aliases: &[],
            usage: "/undo",
            description: "Restore the latest tracked workspace snapshot.",
        },
        CommandInfo {
            name: "restore",
            aliases: &[],
            usage: "/restore [snapshot-id]",
            description: "Restore a tracked workspace snapshot by id, or the latest one.",
        },
        CommandInfo {
            name: "note",
            aliases: &[],
            usage: "/note <text>",
            description: "Add a persistent memory note that is injected into later requests.",
        },
        CommandInfo {
            name: "memory",
            aliases: &[],
            usage: "/memory [show|path|clear|help]",
            description: "Inspect or clear the persistent MiMo memory file.",
        },
        CommandInfo {
            name: "recall",
            aliases: &[],
            usage: "/recall <query>",
            description: "Search the current transcript and memory notes for a query.",
        },
        CommandInfo {
            name: "compact",
            aliases: &[],
            usage: "/compact",
            description: "Compact older transcript messages into a local summary.",
        },
        CommandInfo {
            name: "review",
            aliases: &[],
            usage: "/review [workspace|staged|path <path>]",
            description: "Show a lightweight review context from git diff plus cached diagnostics.",
        },
        CommandInfo {
            name: "lsp",
            aliases: &[],
            usage: "/lsp [status|run|show|clear|on|off]",
            description: "Manage cached diagnostics and automatic refresh after file-tool edits.",
        },
        CommandInfo {
            name: "skills",
            aliases: &[],
            usage: "/skills",
            description: "List installed local skills and show which ones are active.",
        },
        CommandInfo {
            name: "skill",
            aliases: &[],
            usage: "/skill [name|install <path-or-url>|show <name>|uninstall <name>]",
            description: "Toggle, install, inspect, or uninstall a local skill.",
        },
        CommandInfo {
            name: "mcp",
            aliases: &[],
            usage: "/mcp [list|show <name>|add stdio <name> <command> [args...]|add http <name> <url>|enable <name>|disable <name>|remove <name>]",
            description: "Manage local MCP server definitions for future tool integrations.",
        },
    ]
}

#[derive(Debug, Clone, PartialEq, Eq)]
pub enum CommandParseError {
    NotACommand,
    UnknownCommand(String),
    Usage(&'static str),
}

pub ghost enum ConfigView {
    Show,
    SetApiKey(Seq<char>),
    ClearApiKey,
    SetBaseUrl(Seq<char>),
    SetModel(Seq<char>),
    SetTemperature(Seq<char>),
}

pub ghost enum PlanView {
    Show,
    Add(Seq<char>),
    Done(usize),
    Undo(usize),
    Remove(usize),
    Clear,
}

pub ghost enum JobsView {
    List,
    Show(Seq<char>),
    Poll(Seq<char>),
    Wait(Seq<char>),
    Stdin { id: Seq<char>, input: Seq<char> },
    Cancel(Seq<char>),
}

pub ghost enum TaskView {
    Add(Seq<char>),
    List,
    Show(Seq<char>),
    Cancel(Seq<char>),
}

pub ghost enum ReviewView {
    Workspace,
    Staged,
    Path(Seq<char>),
}

pub ghost enum SkillView {
    Toggle(Seq<char>),
    Install(Seq<char>),
    Show(Seq<char>),
    Uninstall(Seq<char>),
}

pub ghost enum McpView {
    List,
    Show(Seq<char>),
    AddStdio { name: Seq<char>, command: Seq<char>, args: Seq<Seq<char>> },
    AddHttp { name: Seq<char>, url: Seq<char> },
    Enable(Seq<char>),
    Disable(Seq<char>),
    Remove(Seq<char>),
}

pub ghost enum CommandView {
    Help { topic: Option<Seq<char>> },
    Clear,
    Exit,
    Model { model: Option<Seq<char>> },
    Models,
    Save { path: Option<Seq<char>> },
    Load { path: Option<Seq<char>> },
    Sessions,
    Export { path: Option<Seq<char>> },
    Config(ConfigView),
    Status,
    Retry,
    Context,
    Branch { message_index: Option<usize> },
    Branches,
    Switch { branch_id: Seq<char> },
    Mode { mode: Option<ModeName> },
    Plan(PlanView),
    Jobs(JobsView),
    Task(TaskView),
    Diff,
    Undo,
    Restore { id: Option<Seq<char>> },
    Note { text: Seq<char> },
    Memory(MemoryCommand),
    Recall { query: Seq<char> },
    Compact,
    Review(ReviewView),
    Lsp(LspCommand),
    Skills,
    Skill(SkillView),
    Mcp(McpView),
}

pub ghost enum ParseErrorView {
    NotACommand,
    UnknownCommand(Seq<char>),
    Usage(Seq<char>),
}

impl View for ConfigCommand {
    type V = ConfigView;

    open spec fn view(&self) -> ConfigView {
        match self {
            ConfigCommand::Show => ConfigView::Show,
            ConfigCommand::SetApiKey(s) => ConfigView::SetApiKey(s@),
            ConfigCommand::ClearApiKey => ConfigView::ClearApiKey,
            ConfigCommand::SetBaseUrl(s) => ConfigView::SetBaseUrl(s@),
            ConfigCommand::SetModel(s) => ConfigView::SetModel(s@),
            ConfigCommand::SetTemperature(s) => ConfigView::SetTemperature(s@),
        }
    }
}

impl View for PlanCommand {
    type V = PlanView;

    open spec fn view(&self) -> PlanView {
        match self {
            PlanCommand::Show => PlanView::Show,
            PlanCommand::Add(s) => PlanView::Add(s@),
            PlanCommand::Done(n) => PlanView::Done(*n),
            PlanCommand::Undo(n) => PlanView::Undo(*n),
            PlanCommand::Remove(n) => PlanView::Remove(*n),
            PlanCommand::Clear => PlanView::Clear,
        }
    }
}

impl View for JobsCommand {
    type V = JobsView;

    open spec fn view(&self) -> JobsView {
        match self {
            JobsCommand::List => JobsView::List,
            JobsCommand::Show(s) => JobsView::Show(s@),
            JobsCommand::Poll(s) => JobsView::Poll(s@),
            JobsCommand::Wait(s) => JobsView::Wait(s@),
            JobsCommand::Stdin { id, input } => JobsView::Stdin { id: id@, input: input@ },
            JobsCommand::Cancel(s) => JobsView::Cancel(s@),
        }
    }
}

impl View for TaskCommand {
    type V = TaskView;

    open spec fn view(&self) -> TaskView {
        match self {
            TaskCommand::Add(s) => TaskView::Add(s@),
            TaskCommand::List => TaskView::List,
            TaskCommand::Show(s) => TaskView::Show(s@),
            TaskCommand::Cancel(s) => TaskView::Cancel(s@),
        }
    }
}

impl View for ReviewCommand {
    type V = ReviewView;

    open spec fn view(&self) -> ReviewView {
        match self {
            ReviewCommand::Workspace => ReviewView::Workspace,
            ReviewCommand::Staged => ReviewView::Staged,
            ReviewCommand::Path(s) => ReviewView::Path(s@),
        }
    }
}

impl View for SkillCommand {
    type V = SkillView;

    open spec fn view(&self) -> SkillView {
        match self {
            SkillCommand::Toggle(s) => SkillView::Toggle(s@),
            SkillCommand::Install(s) => SkillView::Install(s@),
            SkillCommand::Show(s) => SkillView::Show(s@),
            SkillCommand::Uninstall(s) => SkillView::Uninstall(s@),
        }
    }
}

impl View for McpCommand {
    type V = McpView;

    open spec fn view(&self) -> McpView {
        match self {
            McpCommand::List => McpView::List,
            McpCommand::Show(s) => McpView::Show(s@),
            McpCommand::AddStdio { name, command, args } => McpView::AddStdio {
                name: name@,
                command: command@,
                args: views(args@),
            },
            McpCommand::AddHttp { name, url } => McpView::AddHttp { name: name@, url: url@ },
            McpCommand::Enable(s) => McpView::Enable(s@),
            McpCommand::Disable(s) => McpView::Disable(s@),
            McpCommand::Remove(s) => McpView::Remove(s@),
        }
    }
}

impl View for SlashCommand {
    type V = CommandView;

    open spec fn view(&self) -> CommandView {
        match self {
            SlashCommand::Help { topic } => CommandView::Help { topic: opt_view(*topic) },
            SlashCommand::Clear => CommandView::Clear,
            SlashCommand::Exit => CommandView::Exit,
            SlashCommand::Model { model } => CommandView::Model { model: opt_view(*model) },
            SlashCommand::Models => CommandView::Models,
            SlashCommand::Save { path } => CommandView::Save { path: opt_view(*path) },
            SlashCommand::Load { path } => CommandView::Load { path: opt_view(*path) },
            SlashCommand::Sessions => CommandView::Sessions,
            SlashCommand::Export { path } => CommandView::Export { path: opt_view(*path) },
            SlashCommand::Config(c) => CommandView::Config(c@),
            SlashCommand::Status => CommandView::Status,
            SlashCommand::Retry => CommandView::Retry,
            SlashCommand::Context => CommandView::Context,
            SlashCommand::Branch { message_index } => CommandView::Branch { message_index: *message_index },
            SlashCommand::Branches => CommandView::Branches,
            SlashCommand::Switch { branch_id } => CommandView::Switch { branch_id: branch_id@ },
            SlashCommand::Mode { mode } => CommandView::Mode { mode: *mode },
            SlashCommand::Plan(c) => CommandView::Plan(c@),
            SlashCommand::Jobs(c) => CommandView::Jobs(c@),
            SlashCommand::Task(c) => CommandView::Task(c@),
            SlashCommand::Diff => CommandView::Diff,
            SlashCommand::Undo => CommandView::Undo,
            SlashCommand::Restore { id } => CommandView::Restore { id: opt_view(*id) },
            SlashCommand::Note { text } => CommandView::Note { text: text@ },
            SlashCommand::Memory(c) => CommandView::Memory(*c),
            SlashCommand::Recall { query } => CommandView::Recall { query: query@ },
            SlashCommand::Compact => CommandView::Compact,
            SlashCommand::Review(c) => CommandView::Review(c@),
            SlashCommand::Lsp(c) => CommandView::Lsp(*c),
            SlashCommand::Skills => CommandView::Skills,
            SlashCommand::Skill(c) => CommandView::Skill(c@),
            SlashCommand::Mcp(c) => CommandView::Mcp(c@),
        }
    }
}

impl View for CommandParseError {
    type V = ParseErrorView;

    open spec fn view(&self) -> ParseErrorView {
        match self {
            CommandParseError::NotACommand => ParseErrorView::NotACommand,
            CommandParseError::UnknownCommand(s) => ParseErrorView::UnknownCommand(s@),
            CommandParseError::Usage(s) => ParseErrorView::Usage(s@),
        }
    }
}

pub open spec fn parsed_view(r: Result<SlashCommand, CommandParseError>) -> Result<CommandView, ParseErrorView> {
    match r {
        Ok(c) => Ok(c@),
        Err(e) => Err(e@),
    }
}

pub open spec fn mcp_parsed_view(r: Result<McpCommand, CommandParseError>) -> Result<McpView, ParseErrorView> {
    match r {
        Ok(c) => Ok(c@),
        Err(e) => Err(e@),
    }
}

/// `value.trim()` when it is not empty.
pub open spec fn non_empty_spec(s: Seq<char>) -> Option<Seq<char>> {
    if trim(s).len() > 0 {
        Some(trim(s))
    } else {
        None
    }
}

/// Name and argument text of a slash command: after the `/`, the first
/// run of non-white-space characters, then the rest, trimmed.
pub open spec fn command_parts_spec(input: Seq<char>) -> Option<(Seq<char>, Seq<char>)> {
    let t = trim(input);
    if t.len() > 0 && t[0] == '/' {
        let c = trim_start(t.drop_first());
        Some((head_token(c), trim(c.skip(token_len(c) as int))))
    } else {
        None
    }
}

/// Lower-cased first word and trimmed remainder of `t`.
pub open spec fn action_of(t: Seq<char>) -> Seq<char> {
    lower(head_token(t))
}

pub open spec fn rest_of(t: Seq<char>) -> Seq<char> {
    trim(after_token(t))
}

pub open spec fn no_args_spec(args: Seq<char>, command: CommandView, usage: Seq<char>) -> Result<
    CommandView,
    ParseErrorView,
> {
    if trim(args).len() == 0 {
        Ok(command)
    } else {
        Err(ParseErrorView::Usage(usage))
    }
}

pub open spec fn config_usage() -> Seq<char> {
    "/config [show|api-key <key>|clear-api-key|base-url <url>|model <id>|temperature <value>]"@
}

pub open spec fn plan_usage() -> Seq<char> {
    "/plan [show|add <text>|done <n>|undo <n>|remove <n>|clear]"@
}

pub open spec fn jobs_usage() -> Seq<char> {
    "/jobs [list|show <id>|poll <id>|wait <id>|stdin <id> <input>|cancel <id>]"@
}

pub open spec fn mcp_usage() -> Seq<char> {
    "/mcp [list|show <name>|add stdio <name> <command> [args...]|add http <name> <url>|enable <name>|disable <name>|remove <name>]"@
}

pub open spec fn skill_usage() -> Seq<char> {
    "/skill [name|install <path-or-url>|show <name>|uninstall <name>]"@
}

pub open spec fn config_spec(args: Seq<char>) -> Result<CommandView, ParseErrorView> {
    let t = trim(args);
    let a = action_of(t);
    let v = rest_of(t);
    if t.len() == 0 || lower(t) == "show"@ {
        Ok(CommandView::Config(ConfigView::Show))
    } else if a == "api-key"@ && v.len() > 0 {
        Ok(CommandView::Config(ConfigView::SetApiKey(v)))
    } else if a == "clear-api-key"@ && v.len() == 0 {
        Ok(CommandView::Config(ConfigView::ClearApiKey))
    } else if a == "base-url"@ && v.len() > 0 {
        Ok(CommandView::Config(ConfigView::SetBaseUrl(v)))
    } else if a == "model"@ && v.len() > 0 {
        Ok(CommandView::Config(ConfigView::SetModel(v)))
    } else if a == "temperature"@ && v.len() > 0 {
        Ok(CommandView::Config(ConfigView::SetTemperature(v)))
    } else {
        Err(ParseErrorView::Usage(config_usage()))
    }
}

pub open spec fn mode_spec(args: Seq<char>) -> Result<CommandView, ParseErrorView> {
    let l = lower(trim(args));
    if trim(args).len() == 0 {
        Ok(CommandView::Mode { mode: None })
    } else if l == "plan"@ {
        Ok(CommandView::Mode { mode: Some(ModeName::Plan) })
    } else if l == "agent"@ || l == "chat"@ || l == "2"@ {
        Ok(CommandView::Mode { mode: Some(ModeName::Agent) })
    } else if l == "1"@ {
        Ok(CommandView::Mode { mode: Some(ModeName::Plan) })
    } else if l == "yolo"@ {
        Ok(CommandView::Mode { mode: Some(ModeName::Yolo) })
    } else {
        Err(ParseErrorView::Usage("/mode [agent|plan]"@))
    }
}

pub open spec fn branch_spec(args: Seq<char>) -> Result<CommandView, ParseErrorView> {
    let t = trim(args);
    if t.len() == 0 {
        Ok(CommandView::Branch { message_index: None })
    } else if words(t).len() != 1 {
        Err(ParseErrorView::Usage("/branch [message-number]"@))
    } else {
        match parse_usize_spec(t) {
            Some(n) => Ok(CommandView::Branch { message_index: Some(n) }),
            None => Err(ParseErrorView::Usage("/branch [message-number]"@)),
        }
    }
}

pub open spec fn switch_spec(args: Seq<char>) -> Result<CommandView, ParseErrorView> {
    let t = trim(args);
    if t.len() == 0 || words(t).len() != 1 {
        Err(ParseErrorView::Usage("/switch <branch-id>"@))
    } else {
        Ok(CommandView::Switch { branch_id: t })
    }
}

pub open spec fn index_spec(v: Seq<char>) -> Result<usize, ParseErrorView> {
    match parse_usize_spec(v) {
        Some(n) => Ok(n),
        None => Err(ParseErrorView::Usage(plan_usage())),
    }
}

pub open spec fn plan_spec(args: Seq<char>) -> Result<CommandView, ParseErrorView> {
    let t = trim(args);
    let a = action_of(t);
    let v = rest_of(t);
    if t.len() == 0 || lower(t) == "show"@ {
        Ok(CommandView::Plan(PlanView::Show))
    } else if a == "add"@ && v.len() > 0 {
        Ok(CommandView::Plan(PlanView::Add(v)))
    } else if a == "done"@ {
        match index_spec(v) {
            Ok(n) => Ok(CommandView::Plan(PlanView::Done(n))),
            Err(e) => Err(e),
        }
    } else if a == "undo"@ {
        match index_spec(v) {
            Ok(n) => Ok(CommandView::Plan(PlanView::Undo(n))),
            Err(e) => Err(e),
        }
    } else if a == "remove"@ {
        match index_spec(v) {
            Ok(n) => Ok(CommandView::Plan(PlanView::Remove(n))),
            Err(e) => Err(e),
        }
    } else if a == "clear"@ && v.len() == 0 {
        Ok(CommandView::Plan(PlanView::Clear))
    } else {
        Err(ParseErrorView::Usage(plan_usage()))
    }
}

pub open spec fn jobs_spec(args: Seq<char>) -> Result<CommandView, ParseErrorView> {
    let t = trim(args);
    let a = action_of(t);
    let r = rest_of(t);
    if t.len() == 0 || lower(t) == "list"@ {
        Ok(CommandView::Jobs(JobsView::List))
    } else if a == "show"@ && r.len() > 0 {
        Ok(CommandView::Jobs(JobsView::Show(r)))
    } else if a == "poll"@ && r.len() > 0 {
        Ok(CommandView::Jobs(JobsView::Poll(r)))
    } else if a == "wait"@ && r.len() > 0 {
        Ok(CommandView::Jobs(JobsView::Wait(r)))
    } else if a == "cancel"@ && r.len() > 0 {
        Ok(CommandView::Jobs(JobsView::Cancel(r)))
    } else if a == "stdin"@ {
        let id = trim(head_token(r));
        let input = after_token(r);
        if id.len() == 0 || input.len() == 0 {
            Err(ParseErrorView::Usage(jobs_usage()))
        } else {
            Ok(CommandView::Jobs(JobsView::Stdin { id, input }))
        }
    } else {
        Err(ParseErrorView::Usage(jobs_usage()))
    }
}

pub open spec fn task_spec(args: Seq<char>) -> Result<CommandView, ParseErrorView> {
    let t = trim(args);
    let a = action_of(t);
    let v = rest_of(t);
    if t.len() == 0 || lower(t) == "list"@ {
        Ok(CommandView::Task(TaskView::List))
    } else if a == "add"@ && v.len() > 0 {
        Ok(CommandView::Task(TaskView::Add(v)))
    } else if a == "show"@ && v.len() > 0 {
        Ok(CommandView::Task(TaskView::Show(v)))
    } else if a == "cancel"@ && v.len() > 0 {
        Ok(CommandView::Task(TaskView::Cancel(v)))
    } else {
        Err(ParseErrorView::Usage("/task [add <prompt>|list|show <id>|cancel <id>]"@))
    }
}

pub open spec fn memory_spec(args: Seq<char>) -> Result<CommandView, ParseErrorView> {
    let l = lower(trim(args));
    if l.len() == 0 || l == "show"@ {
        Ok(CommandView::Memory(MemoryCommand::Show))
    } else if l == "path"@ {
        Ok(CommandView::Memory(MemoryCommand::Path))
    } else if l == "clear"@ {
        Ok(CommandView::Memory(MemoryCommand::Clear))
    } else if l == "help"@ {
        Ok(CommandView::Memory(MemoryCommand::Help))
    } else {
        Err(ParseErrorView::Usage("/memory [show|path|clear|help]"@))
    }
}

pub open spec fn review_spec(args: Seq<char>) -> Result<CommandView, ParseErrorView> {
    let t = trim(args);
    let a = action_of(t);
    let v = rest_of(t);
    if t.len() == 0 || lower(t) == "workspace"@ {
        Ok(CommandView::Review(ReviewView::Workspace))
    } else if lower(t) == "staged"@ {
        Ok(CommandView::Review(ReviewView::Staged))
    } else if a == "path"@ && v.len() > 0 {
        Ok(CommandView::Review(ReviewView::Path(v)))
    } else {
        Err(ParseErrorView::Usage("/review [workspace|staged|path <path>]"@))
    }
}

pub open spec fn lsp_spec(args: Seq<char>) -> Result<CommandView, ParseErrorView> {
    let l = lower(trim(args));
    if l.len() == 0 || l == "status"@ {
        Ok(CommandView::Lsp(LspCommand::Status))
    } else if l == "run"@ {
        Ok(CommandView::Lsp(LspCommand::Run))
    } else if l == "show"@ {
        Ok(CommandView::Lsp(LspCommand::Show))
    } else if l == "clear"@ {
        Ok(CommandView::Lsp(LspCommand::Clear))
    } else if l == "on"@ {
        Ok(CommandView::Lsp(LspCommand::On))
    } else if l == "off"@ {
        Ok(CommandView::Lsp(LspCommand::Off))
    } else {
        Err(ParseErrorView::Usage("/lsp [status|run|show|clear|on|off]"@))
    }
}

pub open spec fn skill_spec(args: Seq<char>) -> Result<CommandView, ParseErrorView> {
    match non_empty_spec(trim(args)) {
        None => Err(ParseErrorView::Usage(skill_usage())),
        Some(value) => {
            let a = action_of(value);
            let r = rest_of(value);
            if a == "install"@ && r.len() > 0 {
                Ok(CommandView::Skill(SkillView::Install(r)))
            } else if a == "show"@ && r.len() > 0 {
                Ok(CommandView::Skill(SkillView::Show(r)))
            } else if a == "uninstall"@ && r.len() > 0 {
                Ok(CommandView::Skill(SkillView::Uninstall(r)))
            } else {
                Ok(CommandView::Skill(SkillView::Toggle(value)))
            }
        },
    }
}

/// The `i`-th whitespace-separated word, or the empty sequence.
pub open spec fn word_or_empty(ws: Seq<Seq<char>>, i: int) -> Seq<char> {
    if i < ws.len() {
        ws[i]
    } else {
        Seq::empty()
    }
}

pub open spec fn mcp_add_spec(args: Seq<char>) -> Result<McpView, ParseErrorView> {
    let ws = words(args);
    let transport = lower(word_or_empty(ws, 0));
    let name = word_or_empty(ws, 1);
    let third = word_or_empty(ws, 2);
    if name.len() == 0 {
        Err(ParseErrorView::Usage(mcp_usage()))
    } else if transport == "stdio"@ {
        if third.len() == 0 {
            Err(ParseErrorView::Usage(mcp_usage()))
        } else {
            Ok(McpView::AddStdio { name, command: third, args: ws.skip(3) })
        }
    } else if transport == "http"@ {
        if third.len() == 0 {
            Err(ParseErrorView::Usage(mcp_usage()))
        } else {
            Ok(McpView::AddHttp { name, url: third })
        }
    } else {
        Err(ParseErrorView::Usage(mcp_usage()))
    }
}

pub open spec fn mcp_spec(args: Seq<char>) -> Result<CommandView, ParseErrorView> {
    let t = trim(args);
    let a = action_of(t);
    let r = rest_of(t);
    if t.len() == 0 || lower(t) == "list"@ {
        Ok(CommandView::Mcp(McpView::List))
    } else if a == "show"@ && r.len() > 0 {
        Ok(CommandView::Mcp(McpView::Show(r)))
    } else if a == "enable"@ && r.len() > 0 {
        Ok(CommandView::Mcp(McpView::Enable(r)))
    } else if a == "disable"@ && r.len() > 0 {
        Ok(CommandView::Mcp(McpView::Disable(r)))
    } else if a == "remove"@ && r.len() > 0 {
        Ok(CommandView::Mcp(McpView::Remove(r)))
    } else if a == "add"@ {
        match mcp_add_spec(r) {
            Ok(c) => Ok(CommandView::Mcp(c)),
            Err(e) => Err(e),
        }
    } else {
        Err(ParseErrorView::Usage(mcp_usage()))
    }
}

/// What `parse_slash_command` gives for `input`.
pub open spec fn parse_spec(input: Seq<char>) -> Result<CommandView, ParseErrorView> {
    match command_parts_spec(input) {
        None => Err(ParseErrorView::NotACommand),
        Some((name, args)) => {
            let n = lower(name);
            if n == "help"@ || n == "?"@ {
                Ok(CommandView::Help { topic: non_empty_spec(args) })
            } else if n == "clear"@ {
                no_args_spec(args, CommandView::Clear, "/clear"@)
            } else if n == "exit"@ || n == "quit"@ || n == "q"@ {
                no_args_spec(args, CommandView::Exit, "/exit"@)
            } else if n == "model"@ {
                Ok(CommandView::Model { model: non_empty_spec(args) })
            } else if n == "models"@ {
                no_args_spec(args, CommandView::Models, "/models"@)
            } else if n == "save"@ {
                Ok(CommandView::Save { path: non_empty_spec(args) })
            } else if n == "load"@ {
                Ok(CommandView::Load { path: non_empty_spec(args) })
            } else if n == "sessions"@ || n == "resume"@ {
                no_args_spec(args, CommandView::Sessions, "/sessions"@)
            } else if n == "export"@ {
                Ok(CommandView::Export { path: non_empty_spec(args) })
            } else if n == "config"@ {
                config_spec(args)
            } else if n == "status"@ {
                no_args_spec(args, CommandView::Status, "/status"@)
            } else if n == "retry"@ {
                no_args_spec(args, CommandView::Retry, "/retry"@)
            } else if n == "context"@ {
                no_args_spec(args, CommandView::Context, "/context"@)
            } else if n == "branch"@ || n == "b"@ {
                branch_spec(args)
            } else if n == "branches"@ {
                no_args_spec(args, CommandView::Branches, "/branches"@)
            } else if n == "switch"@ {
                switch_spec(args)
            } else if n == "mode"@ {
                mode_spec(args)
            } else if n == "plan"@ {
                plan_spec(args)
            } else if n == "jobs"@ || n == "job"@ {
                jobs_spec(args)
            } else if n == "task"@ || n == "tasks"@ {
                task_spec(args)
            } else if n == "diff"@ {
                no_args_spec(args, CommandView::Diff, "/diff"@)
            } else if n == "undo"@ {
                no_args_spec(args, CommandView::Undo, "/undo"@)
            } else if n == "restore"@ {
                Ok(CommandView::Restore { id: non_empty_spec(args) })
            } else if n == "note"@ {
                match non_empty_spec(args) {
                    Some(text) => Ok(CommandView::Note { text }),
                    None => Err(ParseErrorView::Usage("/note <text>"@)),
                }
            } else if n == "memory"@ {
                memory_spec(args)
            } else if n == "recall"@ {
                match non_empty_spec(args) {
                    Some(query) => Ok(CommandView::Recall { query }),
                    None => Err(ParseErrorView::Usage("/recall <query>"@)),
                }
            } else if n == "compact"@ {
                no_args_spec(args, CommandView::Compact, "/compact"@)
            } else if n == "review"@ {
                review_spec(args)
            } else if n == "lsp"@ {
                lsp_spec(args)
            } else if n == "skills"@ {
                no_args_spec(args, CommandView::Skills, "/skills"@)
            } else if n == "skill"@ {
                skill_spec(args)
            } else if n == "mcp"@ {
                mcp_spec(args)
            } else {
                Err(ParseErrorView::UnknownCommand(name))
            }
        },
    }
}

fn string_of(v: &Vec<char>) -> (r: String)
    ensures
        r@ == v@,
{
    from_chars(v.as_slice())
}

/// `value.trim()` when it is not empty.
fn non_empty(value: &[char]) -> (r: Option<Vec<char>>)
    ensures
        match r {
            Some(t) => non_empty_spec(value@) == Some(t@),
            None => non_empty_spec(value@) is None,
        },
{
    let t = trim_vec(value);
    if t.len() > 0 {
        Some(t)
    } else {
        None
    }
}

fn non_empty_string(value: &[char]) -> (r: Option<String>)
    ensures
        opt_view(r) == non_empty_spec(value@),
{
    match non_empty(value) {
        Some(t) => Some(string_of(&t)),
        None => None,
    }
}

/// Name and argument text of a slash command.
fn command_parts(input: &[char]) -> (r: Option<(Vec<char>, Vec<char>)>)
    ensures
        match r {
            Some((n, a)) => command_parts_spec(input@) == Some((n@, a@)),
            None => command_parts_spec(input@) is None,
        },
{
    let t = trim_vec(input);
    if t.len() == 0 || t[0] != '/' {
        return None;
    }
    let rest = slice_vec(&t, 1, t.len());
    assert(rest@ == t@.drop_first());
    let (start, _) = trim_start_index(&rest);
    let c = slice_vec(&rest, start, rest.len());
    assert(c@ == rest@.skip(start as int));
    let n = token_length(&c);
    proof {
        crate::text::lemma_token_len(c@);
    }
    let name = slice_vec(&c, 0, n);
    let tail = slice_vec(&c, n, c.len());
    assert(tail@ == c@.skip(n as int));
    let args = trim_vec(&tail);
    Some((name, args))
}

/// The lower-cased first word of `t` and the trimmed remainder.
fn action_rest(t: &[char]) -> (r: (Vec<char>, Vec<char>))
    ensures
        r.0@ == action_of(t@),
        r.1@ == rest_of(t@),
{
    let (head, tail) = split_token(t);
    (lower_vec(&head), trim_vec(&tail))
}

fn require_no_args(args: &[char], command: SlashCommand, usage: &'static str) -> (r: Result<
    SlashCommand,
    CommandParseError,
>)
    ensures
        parsed_view(r) == no_args_spec(args@, command@, usage@),
{
    let t = trim_vec(args);
    if t.len() == 0 {
        Ok(command)
    } else {
        Err(CommandParseError::Usage(usage))
    }
}

fn parse_config_command(args: &[char]) -> (r: Result<SlashCommand, CommandParseError>)
    ensures
        parsed_view(r) == config_spec(args@),
{
    let t = trim_vec(args);
    let (a, v) = action_rest(&t);
    if t.len() == 0 || eq_str(&lower_vec(&t), "show") {
        Ok(SlashCommand::Config(ConfigCommand::Show))
    } else if eq_str(&a, "api-key") && v.len() > 0 {
        Ok(SlashCommand::Config(ConfigCommand::SetApiKey(string_of(&v))))
    } else if eq_str(&a, "clear-api-key") && v.len() == 0 {
        Ok(SlashCommand::Config(ConfigCommand::ClearApiKey))
    } else if eq_str(&a, "base-url") && v.len() > 0 {
        Ok(SlashCommand::Config(ConfigCommand::SetBaseUrl(string_of(&v))))
    } else if eq_str(&a, "model") && v.len() > 0 {
        Ok(SlashCommand::Config(ConfigCommand::SetModel(string_of(&v))))
    } else if eq_str(&a, "temperature") && v.len() > 0 {
        Ok(SlashCommand::Config(ConfigCommand::SetTemperature(string_of(&v))))
    } else {
        Err(
            CommandParseError::Usage(
                "/config [show|api-key <key>|clear-api-key|base-url <url>|model <id>|temperature <value>]",
            ),
        )
    }
}

fn parse_mode_command(args: &[char]) -> (r: Result<SlashCommand, CommandParseError>)
    ensures
        parsed_view(r) == mode_spec(args@),
{
    let t = trim_vec(args);
    let l = lower_vec(&t);
    if t.len() == 0 {
        Ok(SlashCommand::Mode { mode: None })
    } else if eq_str(&l, "plan") {
        Ok(SlashCommand::Mode { mode: Some(ModeName::Plan) })
    } else if eq_str(&l, "agent") || eq_str(&l, "chat") || eq_str(&l, "2") {
        Ok(SlashCommand::Mode { mode: Some(ModeName::Agent) })
    } else if eq_str(&l, "1") {
        Ok(SlashCommand::Mode { mode: Some(ModeName::Plan) })
    } else if eq_str(&l, "yolo") {
        Ok(SlashCommand::Mode { mode: Some(ModeName::Yolo) })
    } else {
        Err(CommandParseError::Usage("/mode [agent|plan]"))
    }
}

fn parse_branch_command(args: &[char]) -> (r: Result<SlashCommand, CommandParseError>)
    ensures
        parsed_view(r) == branch_spec(args@),
{
    let t = trim_vec(args);
    if t.len() == 0 {
        return Ok(SlashCommand::Branch { message_index: None });
    }
    let ws = split_words(&t);
    if ws.len() != 1 {
        return Err(CommandParseError::Usage("/branch [message-number]"));
    }
    match parse_usize(&t) {
        Some(n) => Ok(SlashCommand::Branch { message_index: Some(n) }),
        None => Err(CommandParseError::Usage("/branch [message-number]")),
    }
}

fn parse_switch_command(args: &[char]) -> (r: Result<SlashCommand, CommandParseError>)
    ensures
        parsed_view(r) == switch_spec(args@),
{
    let t = trim_vec(args);
    let ws = split_words(&t);
    if t.len() == 0 || ws.len() != 1 {
        return Err(CommandParseError::Usage("/switch <branch-id>"));
    }
    Ok(SlashCommand::Switch { branch_id: string_of(&t) })
}

fn parse_index(value: &[char]) -> (r: Result<usize, CommandParseError>)
    ensures
        match r {
            Ok(n) => index_spec(value@) == Ok::<usize, ParseErrorView>(n),
            Err(e) => index_spec(value@) == Err::<usize, ParseErrorView>(e@),
        },
{
    match parse_usize(value) {
        Some(n) => Ok(n),
        None => Err(CommandParseError::Usage("/plan [show|add <text>|done <n>|undo <n>|remove <n>|clear]")),
    }
}

fn parse_plan_command(args: &[char]) -> (r: Result<SlashCommand, CommandParseError>)
    ensures
        parsed_view(r) == plan_spec(args@),
{
    let t = trim_vec(args);
    let (a, v) = action_rest(&t);
    if t.len() == 0 || eq_str(&lower_vec(&t), "show") {
        Ok(SlashCommand::Plan(PlanCommand::Show))
    } else if eq_str(&a, "add") && v.len() > 0 {
        Ok(SlashCommand::Plan(PlanCommand::Add(string_of(&v))))
    } else if eq_str(&a, "done") {
        match parse_index(&v) {
            Ok(n) => Ok(SlashCommand::Plan(PlanCommand::Done(n))),
            Err(e) => Err(e),
        }
    } else if eq_str(&a, "undo") {
        match parse_index(&v) {
            Ok(n) => Ok(SlashCommand::Plan(PlanCommand::Undo(n))),
            Err(e) => Err(e),
        }
    } else if eq_str(&a, "remove") {
        match parse_index(&v) {
            Ok(n) => Ok(SlashCommand::Plan(PlanCommand::Remove(n))),
            Err(e) => Err(e),
        }
    } else if eq_str(&a, "clear") && v.len() == 0 {
        Ok(SlashCommand::Plan(PlanCommand::Clear))
    } else {
        Err(CommandParseError::Usage("/plan [show|add <text>|done <n>|undo <n>|remove <n>|clear]"))
    }
}

fn parse_jobs_command(args: &[char]) -> (r: Result<SlashCommand, CommandParseError>)
    ensures
        parsed_view(r) == jobs_spec(args@),
{
    let t = trim_vec(args);
    let (a, rest) = action_rest(&t);
    if t.len() == 0 || eq_str(&lower_vec(&t), "list") {
        Ok(SlashCommand::Jobs(JobsCommand::List))
    } else if eq_str(&a, "show") && rest.len() > 0 {
        Ok(SlashCommand::Jobs(JobsCommand::Show(string_of(&rest))))
    } else if eq_str(&a, "poll") && rest.len() > 0 {
        Ok(SlashCommand::Jobs(JobsCommand::Poll(string_of(&rest))))
    } else if eq_str(&a, "wait") && rest.len() > 0 {
        Ok(SlashCommand::Jobs(JobsCommand::Wait(string_of(&rest))))
    } else if eq_str(&a, "cancel") && rest.len() > 0 {
        Ok(SlashCommand::Jobs(JobsCommand::Cancel(string_of(&rest))))
    } else if eq_str(&a, "stdin") {
        let (head, input) = split_token(&rest);
        let id = trim_vec(&head);
        if id.len() == 0 || input.len() == 0 {
            Err(
                CommandParseError::Usage(
                    "/jobs [list|show <id>|poll <id>|wait <id>|stdin <id> <input>|cancel <id>]",
                ),
            )
        } else {
            Ok(SlashCommand::Jobs(JobsCommand::Stdin { id: string_of(&id), input: string_of(&input) }))
        }
    } else {
        Err(
            CommandParseError::Usage(
                "/jobs [list|show <id>|poll <id>|wait <id>|stdin <id> <input>|cancel <id>]",
            ),
        )
    }
}

fn parse_task_command(args: &[char]) -> (r: Result<SlashCommand, CommandParseError>)
    ensures
        parsed_view(r) == task_spec(args@),
{
    let t = trim_vec(args);
    let (a, v) = action_rest(&t);
    if t.len() == 0 || eq_str(&lower_vec(&t), "list") {
        Ok(SlashCommand::Task(TaskCommand::List))
    } else if eq_str(&a, "add") && v.len() > 0 {
        Ok(SlashCommand::Task(TaskCommand::Add(string_of(&v))))
    } else if eq_str(&a, "show") && v.len() > 0 {
        Ok(SlashCommand::Task(TaskCommand::Show(string_of(&v))))
    } else if eq_str(&a, "cancel") && v.len() > 0 {
        Ok(SlashCommand::Task(TaskCommand::Cancel(string_of(&v))))
    } else {
        Err(CommandParseError::Usage("/task [add <prompt>|list|show <id>|cancel <id>]"))
    }
}

fn parse_memory_command(args: &[char]) -> (r: Result<SlashCommand, CommandParseError>)
    ensures
        parsed_view(r) == memory_spec(args@),
{
    let l = lower_vec(&trim_vec(args));
    if l.len() == 0 || eq_str(&l, "show") {
        Ok(SlashCommand::Memory(MemoryCommand::Show))
    } else if eq_str(&l, "path") {
        Ok(SlashCommand::Memory(MemoryCommand::Path))
    } else if eq_str(&l, "clear") {
        Ok(SlashCommand::Memory(MemoryCommand::Clear))
    } else if eq_str(&l, "help") {
        Ok(SlashCommand::Memory(MemoryCommand::Help))
    } else {
        Err(CommandParseError::Usage("/memory [show|path|clear|help]"))
    }
}

fn parse_note_command(args: &[char]) -> (r: Result<SlashCommand, CommandParseError>)
    ensures
        parsed_view(r) == (match non_empty_spec(args@) {
            Some(text) => Ok(CommandView::Note { text }),
            None => Err(ParseErrorView::Usage("/note <text>"@)),
        }),
{
    match non_empty(args) {
        Some(t) => Ok(SlashCommand::Note { text: string_of(&t) }),
        None => Err(CommandParseError::Usage("/note <text>")),
    }
}

fn parse_recall_command(args: &[char]) -> (r: Result<SlashCommand, CommandParseError>)
    ensures
        parsed_view(r) == (match non_empty_spec(args@) {
            Some(query) => Ok(CommandView::Recall { query }),
            None => Err(ParseErrorView::Usage("/recall <query>"@)),
        }),
{
    match non_empty(args) {
        Some(t) => Ok(SlashCommand::Recall { query: string_of(&t) }),
        None => Err(CommandParseError::Usage("/recall <query>")),
    }
}

fn parse_review_command(args: &[char]) -> (r: Result<SlashCommand, CommandParseError>)
    ensures
        parsed_view(r) == review_spec(args@),
{
    let t = trim_vec(args);
    let l = lower_vec(&t);
    let (a, v) = action_rest(&t);
    if t.len() == 0 || eq_str(&l, "workspace") {
        Ok(SlashCommand::Review(ReviewCommand::Workspace))
    } else if eq_str(&l, "staged") {
        Ok(SlashCommand::Review(ReviewCommand::Staged))
    } else if eq_str(&a, "path") && v.len() > 0 {
        Ok(SlashCommand::Review(ReviewCommand::Path(string_of(&v))))
    } else {
        Err(CommandParseError::Usage("/review [workspace|staged|path <path>]"))
    }
}

fn parse_lsp_command(args: &[char]) -> (r: Result<SlashCommand, CommandParseError>)
    ensures
        parsed_view(r) == lsp_spec(args@),
{
    let l = lower_vec(&trim_vec(args));
    if l.len() == 0 || eq_str(&l, "status") {
        Ok(SlashCommand::Lsp(LspCommand::Status))
    } else if eq_str(&l, "run") {
        Ok(SlashCommand::Lsp(LspCommand::Run))
    } else if eq_str(&l, "show") {
        Ok(SlashCommand::Lsp(LspCommand::Show))
    } else if eq_str(&l, "clear") {
        Ok(SlashCommand::Lsp(LspCommand::Clear))
    } else if eq_str(&l, "on") {
        Ok(SlashCommand::Lsp(LspCommand::On))
    } else if eq_str(&l, "off") {
        Ok(SlashCommand::Lsp(LspCommand::Off))
    } else {
        Err(CommandParseError::Usage("/lsp [status|run|show|clear|on|off]"))
    }
}

fn parse_skill_command(args: &[char]) -> (r: Result<SlashCommand, CommandParseError>)
    ensures
        parsed_view(r) == skill_spec(args@),
{
    let t = trim_vec(args);
    match non_empty(&t) {
        None => Err(CommandParseError::Usage("/skill [name|install <path-or-url>|show <name>|uninstall <name>]")),
        Some(value) => {
            let (a, rest) = action_rest(&value);
            if eq_str(&a, "install") && rest.len() > 0 {
                Ok(SlashCommand::Skill(SkillCommand::Install(string_of(&rest))))
            } else if eq_str(&a, "show") && rest.len() > 0 {
                Ok(SlashCommand::Skill(SkillCommand::Show(string_of(&rest))))
            } else if eq_str(&a, "uninstall") && rest.len() > 0 {
                Ok(SlashCommand::Skill(SkillCommand::Uninstall(string_of(&rest))))
            } else {
                Ok(SlashCommand::Skill(SkillCommand::Toggle(string_of(&value))))
            }
        },
    }
}

/// The `i`-th word, or an empty string.
fn word_at(ws: &Vec<String>, i: usize) -> (r: Vec<char>)
    ensures
        r@ == word_or_empty(string_views(ws@), i as int),
{
    if i < ws.len() {
        to_chars(ws[i].as_str())
    } else {
        Vec::new()
    }
}

fn parse_mcp_add_command(args: &[char]) -> (r: Result<McpCommand, CommandParseError>)
    ensures
        mcp_parsed_view(r) == mcp_add_spec(args@),
{
    let ws = split_words(args);
    let transport = lower_vec(&word_at(&ws, 0));
    let name = word_at(&ws, 1);
    let third = word_at(&ws, 2);
    if name.len() == 0 {
        return Err(
            CommandParseError::Usage(
                "/mcp [list|show <name>|add stdio <name> <command> [args...]|add http <name> <url>|enable <name>|disable <name>|remove <name>]",
            ),
        );
    }
    if eq_str(&transport, "stdio") {
        if third.len() == 0 {
            return Err(
                CommandParseError::Usage(
                    "/mcp [list|show <name>|add stdio <name> <command> [args...]|add http <name> <url>|enable <name>|disable <name>|remove <name>]",
                ),
            );
        }
        let mut rest: Vec<String> = Vec::new();
        let mut i: usize = 3;
        while i < ws.len()
            invariant
                3 <= i <= ws@.len(),
                views(rest@) == string_views(ws@).subrange(3, i as int),
            decreases ws@.len() - i,
        {
            let ghost before = rest@;
            let w = ws[i].clone();
            rest.push(w);
            proof {
                assert(views(rest@) =~= views(before).push(ws@[i as int]@));
                assert(string_views(ws@).subrange(3, i + 1) =~= string_views(ws@).subrange(3, i as int).push(
                    string_views(ws@)[i as int],
                ));
            }
            i += 1;
        }
        assert(string_views(ws@).subrange(3, ws@.len() as int) =~= string_views(ws@).skip(3));
        Ok(McpCommand::AddStdio { name: string_of(&name), command: string_of(&third), args: rest })
    } else if eq_str(&transport, "http") {
        if third.len() == 0 {
            return Err(
                CommandParseError::Usage(
                    "/mcp [list|show <name>|add stdio <name> <command> [args...]|add http <name> <url>|enable <name>|disable <name>|remove <name>]",
                ),
            );
        }
        Ok(McpCommand::AddHttp { name: string_of(&name), url: string_of(&third) })
    } else {
        Err(
            CommandParseError::Usage(
                "/mcp [list|show <name>|add stdio <name> <command> [args...]|add http <name> <url>|enable <name>|disable <name>|remove <name>]",
            ),
        )
    }
}

fn parse_mcp_command(args: &[char]) -> (r: Result<SlashCommand, CommandParseError>)
    ensures
        parsed_view(r) == mcp_spec(args@),
{
    let t = trim_vec(args);
    let (a, rest) = action_rest(&t);
    if t.len() == 0 || eq_str(&lower_vec(&t), "list") {
        Ok(SlashCommand::Mcp(McpCommand::List))
    } else if eq_str(&a, "show") && rest.len() > 0 {
        Ok(SlashCommand::Mcp(McpCommand::Show(string_of(&rest))))
    } else if eq_str(&a, "enable") && rest.len() > 0 {
        Ok(SlashCommand::Mcp(McpCommand::Enable(string_of(&rest))))
    } else if eq_str(&a, "disable") && rest.len() > 0 {
        Ok(SlashCommand::Mcp(McpCommand::Disable(string_of(&rest))))
    } else if eq_str(&a, "remove") && rest.len() > 0 {
        Ok(SlashCommand::Mcp(McpCommand::Remove(string_of(&rest))))
    } else if eq_str(&a, "add") {
        match parse_mcp_add_command(&rest) {
            Ok(c) => Ok(SlashCommand::Mcp(c)),
            Err(e) => Err(e),
        }
    } else {
        Err(
            CommandParseError::Usage(
                "/mcp [list|show <name>|add stdio <name> <command> [args...]|add http <name> <url>|enable <name>|disable <name>|remove <name>]",
            ),
        )
    }
}

/// `s` without its leading `/` characters.
pub open spec fn strip_slashes(s: Seq<char>) -> Seq<char>
    decreases s.len(),
{
    if s.len() > 0 && s[0] == '/' {
        strip_slashes(s.drop_first())
    } else {
        s
    }
}

pub open spec fn str_views(v: Seq<&str>) -> Seq<Seq<char>> {
    v.map_values(|s: &str| s@)
}

/// `c` is called `n`, by its name or, ignoring ASCII case, by an alias.
pub open spec fn name_matches(c: CommandInfo, n: Seq<char>) -> bool {
    ||| c.name@ == n
    ||| exists|k: int| 0 <= k < c.aliases@.len() && lower(#[trigger] c.aliases@[k]@) == lower(n)
}

/// The first command of `t` called `n`.
pub open spec fn first_named(t: Seq<CommandInfo>, n: Seq<char>) -> Option<CommandInfo>
    decreases t.len(),
{
    if t.len() == 0 {
        None
    } else if name_matches(t[0], n) {
        Some(t[0])
    } else {
        first_named(t.drop_first(), n)
    }
}

/// `c` matches the lower-case filter `f`.
pub open spec fn command_matches(c: CommandInfo, f: Seq<char>) -> bool {
    ||| f.len() == 0
    ||| contains(c.name@, f)
    ||| contains(lower(c.usage@), f)
    ||| contains(lower(c.description@), f)
    ||| exists|k: int| 0 <= k < c.aliases@.len() && contains(lower(#[trigger] c.aliases@[k]@), f)
}

/// The commands of `t` that match `f`, in order.
pub open spec fn select_commands(t: Seq<CommandInfo>, f: Seq<char>) -> Seq<CommandInfo>
    decreases t.len(),
{
    if t.len() == 0 {
        Seq::empty()
    } else if command_matches(t.last(), f) {
        select_commands(t.drop_last(), f).push(t.last())
    } else {
        select_commands(t.drop_last(), f)
    }
}

/// `s` padded with spaces to `width` characters, as `{:<width}` writes it.
pub open spec fn pad(s: Seq<char>, width: nat) -> Seq<char> {
    if s.len() >= width {
        s
    } else {
        s + Seq::new((width - s.len()) as nat, |i: int| ' ')
    }
}

pub open spec fn aliases_text(c: CommandInfo) -> Seq<char> {
    join(str_views(c.aliases@), ", "@)
}

/// The help page of one command.
pub open spec fn command_detail(c: CommandInfo) -> Seq<char> {
    c.name@ + "\n\n"@ + c.description@ + "\n\nUsage: "@ + c.usage@ + if c.aliases@.len() > 0 {
        "\nAliases: "@ + aliases_text(c)
    } else {
        Seq::empty()
    }
}

/// One line per command: usage, padded, and description.
pub open spec fn command_listing(t: Seq<CommandInfo>) -> Seq<char>
    decreases t.len(),
{
    if t.len() == 0 {
        Seq::empty()
    } else {
        command_listing(t.drop_last()) + pad(t.last().usage@, 14) + " "@ + t.last().description@ + "\n"@
    }
}

/// What `command_help` gives for `topic`.
pub open spec fn help_text(topic: Option<Seq<char>>) -> Seq<char> {
    let q = match topic {
        Some(t) => non_empty_spec(t),
        None => None,
    };
    match q {
        Some(q) => match first_named(command_table(), lower(strip_slashes(q))) {
            Some(c) => command_detail(c),
            None => "Unknown command /"@ + q,
        },
        None => "MiMo TUI commands\n\n"@ + command_listing(command_table()),
    }
}

pub open spec fn overlay_line(c: CommandInfo) -> Seq<char> {
    "  "@ + pad(c.usage@, 16) + " "@ + c.description@ + if c.aliases@.len() > 0 {
        "  ["@ + aliases_text(c) + "]"@
    } else {
        Seq::empty()
    }
}

pub open spec fn key_matches(k: KeybindingInfo, f: Seq<char>) -> bool {
    f.len() == 0 || contains(lower(k.chord@), f) || contains(lower(k.description@), f)
}

pub open spec fn select_keys(t: Seq<KeybindingInfo>, f: Seq<char>) -> Seq<KeybindingInfo>
    decreases t.len(),
{
    if t.len() == 0 {
        Seq::empty()
    } else if key_matches(t.last(), f) {
        select_keys(t.drop_last(), f).push(t.last())
    } else {
        select_keys(t.drop_last(), f)
    }
}

pub open spec fn key_line(k: KeybindingInfo) -> Seq<char> {
    "  "@ + pad(k.chord@, 16) + " "@ + k.description@
}

/// What `help_overlay_lines` gives for `filter`.
pub open spec fn overlay_lines(filter: Seq<char>) -> Seq<Seq<char>> {
    let f = lower(filter);
    seq!["Commands"@] + select_commands(command_table(), f).map_values(|c: CommandInfo| overlay_line(c))
        + seq![Seq::<char>::empty(), "Keybindings"@] + select_keys(keybinding_table(), f).map_values(
        |k: KeybindingInfo| key_line(k),
    )
}

/// Whether `c` is called `n`.
fn command_named(c: &CommandInfo, n: &[char]) -> (r: bool)
    ensures
        r == name_matches(*c, n@),
{
    if eq_str(n, c.name) {
        return true;
    }
    let ln = lower_vec(n);
    let mut k: usize = 0;
    while k < c.aliases.len()
        invariant
            k <= c.aliases@.len(),
            ln@ == lower(n@),
            forall|j: int| 0 <= j < k ==> lower(#[trigger] c.aliases@[j]@) != lower(n@),
        decreases c.aliases@.len() - k,
    {
        let a = lower_vec(&to_chars(c.aliases[k]));
        if chars_eq(&a, &ln) {
            return true;
        }
        k += 1;
    }
    false
}

/// The command called `name`, with or without leading `/`, by name or alias.
pub fn find_command(name: &str) -> (r: Option<CommandInfo>)
    ensures
        r == first_named(command_table(), lower(strip_slashes(name@))),
{
    let chars = to_chars(name);
    let mut s: usize = 0;
    assert(chars@.skip(0) == chars@);
    while s < chars.len() && chars[s] == '/'
        invariant
            s <= chars@.len(),
            strip_slashes(chars@) == strip_slashes(chars@.skip(s as int)),
        decreases chars@.len() - s,
    {
        assert(chars@.skip(s as int).drop_first() == chars@.skip(s + 1));
        s += 1;
    }
    let n = lower_vec(&slice_vec(&chars, s, chars.len()));
    assert(chars@.subrange(s as int, chars@.len() as int) == chars@.skip(s as int));
    assert(strip_slashes(chars@.skip(s as int)) == chars@.skip(s as int));
    assert(n@ == lower(strip_slashes(name@)));
    let table = commands();
    let mut i: usize = 0;
    assert(table@.skip(0) == table@);
    while i < table.len()
        invariant
            table@ == command_table(),
            i <= table@.len(),
            first_named(command_table(), n@) == first_named(table@.skip(i as int), n@),
            n@ == lower(strip_slashes(name@)),
        decreases table@.len() - i,
    {
        assert(table@.skip(i as int)[0] == table@[i as int]);
        if command_named(&table[i], &n) {
            let found = table[i];
            assert(first_named(table@.skip(i as int), n@) == Some(table@.skip(i as int)[0]));
            return Some(found);
        }
        assert(table@.skip(i as int).drop_first() == table@.skip(i + 1));
        i += 1;
    }
    None
}

/// Whether `c` matches the lower-case filter `f`.
fn command_filter_matches(c: &CommandInfo, f: &[char]) -> (r: bool)
    ensures
        r == command_matches(*c, f@),
{
    if f.len() == 0 || contains_chars(&to_chars(c.name), f) || contains_chars(
        &lower_vec(&to_chars(c.usage)),
        f,
    ) || contains_chars(&lower_vec(&to_chars(c.description)), f) {
        return true;
    }
    let mut k: usize = 0;
    while k < c.aliases.len()
        invariant
            k <= c.aliases@.len(),
            forall|j: int| 0 <= j < k ==> !contains(lower(#[trigger] c.aliases@[j]@), f@),
        decreases c.aliases@.len() - k,
    {
        if contains_chars(&lower_vec(&to_chars(c.aliases[k])), f) {
            return true;
        }
        k += 1;
    }
    false
}

/// The commands whose name, usage, description or an alias contain the
/// filter, ignoring ASCII case; all of them for an empty filter.
pub fn filtered_commands(filter: &str) -> (r: Vec<CommandInfo>)
    ensures
        r@ == select_commands(command_table(), lower(filter@)),
{
    let f = lower_vec(&to_chars(filter));
    let table = commands();
    let mut r: Vec<CommandInfo> = Vec::new();
    let mut i: usize = 0;
    while i < table.len()
        invariant
            table@ == command_table(),
            i <= table@.len(),
            r@ == select_commands(table@.take(i as int), f@),
        decreases table@.len() - i,
    {
        assert(table@.take(i + 1).drop_last() == table@.take(i as int));
        assert(table@.take(i + 1).last() == table@[i as int]);
        if command_filter_matches(&table[i], &f) {
            r.push(table[i]);
        }
        i += 1;
    }
    assert(table@.take(table@.len() as int) == table@);
    r
}

/// Appends `s` padded with spaces to `width` characters.
fn push_padded(out: &mut String, s: &str, width: usize)
    ensures
        final(out)@ == old(out)@ + pad(s@, width as nat),
{
    let chars = to_chars(s);
    push_str(out, s);
    let mut n = chars.len();
    let ghost base = out@;
    while n < width
        invariant
            chars@ == s@,
            chars@.len() <= n <= width || (n == chars@.len() && n >= width),
            out@ == base + Seq::new((n - chars@.len()) as nat, |i: int| ' '),
        decreases width - n,
    {
        crate::text::push_char(out, ' ');
        n += 1;
        assert(Seq::new((n - chars@.len()) as nat, |i: int| ' ') =~= Seq::new(
            (n - 1 - chars@.len()) as nat,
            |i: int| ' ',
        ).push(' '));
    }
    proof {
        if chars@.len() >= width {
            assert(Seq::new(0, |i: int| ' ') =~= Seq::<char>::empty());
            assert(out@ =~= base);
        }
        assert(base == old(out)@ + s@);
        assert(out@ =~= old(out)@ + pad(s@, width as nat));
    }
}

/// The aliases of `c` joined with `, `.
fn aliases_joined(c: &CommandInfo) -> (r: String)
    ensures
        r@ == aliases_text(*c),
{
    let mut parts: Vec<String> = Vec::new();
    let mut k: usize = 0;
    while k < c.aliases.len()
        invariant
            k <= c.aliases@.len(),
            string_views(parts@) == str_views(c.aliases@).take(k as int),
        decreases c.aliases@.len() - k,
    {
        let ghost before = parts@;
        let a = crate::text::owned(c.aliases[k]);
        parts.push(a);
        proof {
            assert(string_views(parts@) =~= string_views(before).push(c.aliases@[k as int]@));
            assert(str_views(c.aliases@).take(k + 1) =~= str_views(c.aliases@).take(k as int).push(
                c.aliases@[k as int]@,
            ));
        }
        k += 1;
    }
    assert(str_views(c.aliases@).take(k as int) =~= str_views(c.aliases@));
    join_strings(parts.as_slice(), ", ")
}

/// Help for one command, or the list of all commands.
pub fn command_help(topic: Option<&str>) -> (r: String)
    ensures
        r@ == help_text(match topic {
            Some(t) => Some(t@),
            None => None,
        }),
{
    let q = match topic {
        Some(t) => non_empty(&to_chars(t)),
        None => None,
    };
    match q {
        Some(q) => {
            let qs = string_of(&q);
            match find_command(qs.as_str()) {
                Some(info) => {
                    let mut help = String::new();
                    push_str(&mut help, info.name);
                    push_str(&mut help, "\n\n");
                    push_str(&mut help, info.description);
                    push_str(&mut help, "\n\nUsage: ");
                    push_str(&mut help, info.usage);
                    if info.aliases.len() > 0 {
                        push_str(&mut help, "\nAliases: ");
                        let joined = aliases_joined(&info);
                        push_str(&mut help, joined.as_str());
                    }
                    help
                },
                None => {
                    let mut out = String::new();
                    push_str(&mut out, "Unknown command /");
                    push_str(&mut out, qs.as_str());
                    out
                },
            }
        },
        None => {
            let mut out = String::new();
            push_str(&mut out, "MiMo TUI commands\n\n");
            let table = commands();
            let mut i: usize = 0;
            let ghost head = out@;
            while i < table.len()
                invariant
                    table@ == command_table(),
                    i <= table@.len(),
                    head == "MiMo TUI commands\n\n"@,
                    out@ == head + command_listing(table@.take(i as int)),
                decreases table@.len() - i,
            {
                assert(table@.take(i + 1).drop_last() == table@.take(i as int));
                assert(table@.take(i + 1).last() == table@[i as int]);
                push_padded(&mut out, table[i].usage, 14);
                push_str(&mut out, " ");
                push_str(&mut out, table[i].description);
                push_str(&mut out, "\n");
                i += 1;
            }
            assert(table@.take(table@.len() as int) == table@);
            out
        },
    }
}

fn overlay_line_of(c: &CommandInfo) -> (r: String)
    ensures
        r@ == overlay_line(*c),
{
    let mut line = String::new();
    push_str(&mut line, "  ");
    push_padded(&mut line, c.usage, 16);
    push_str(&mut line, " ");
    push_str(&mut line, c.description);
    if c.aliases.len() > 0 {
        push_str(&mut line, "  [");
        let joined = aliases_joined(c);
        push_str(&mut line, joined.as_str());
        push_str(&mut line, "]");
    }
    line
}

/// The lines of the help overlay: the matching commands, then the matching
/// key bindings.
pub fn help_overlay_lines(filter: &str) -> (r: Vec<String>)
    ensures
        string_views(r@) == overlay_lines(filter@),
{
    let f = lower_vec(&to_chars(filter));
    let mut lines: Vec<String> = Vec::new();
    lines.push(crate::text::owned("Commands"));
    assert(string_views(lines@) =~= seq!["Commands"@]);
    let selected = filtered_commands(filter);
    let ghost first = string_views(lines@);
    let mut i: usize = 0;
    while i < selected.len()
        invariant
            i <= selected@.len(),
            string_views(lines@) == first + selected@.take(i as int).map_values(|c: CommandInfo| overlay_line(c)),
        decreases selected@.len() - i,
    {
        let line = overlay_line_of(&selected[i]);
        let ghost before = lines@;
        lines.push(line);
        assert(string_views(lines@) =~= string_views(before).push(overlay_line(selected@[i as int])));
        i += 1;
        assert(selected@.take(i as int).map_values(|c: CommandInfo| overlay_line(c)) =~= selected@.take(
            (i - 1) as int,
        ).map_values(|c: CommandInfo| overlay_line(c)).push(overlay_line(selected@[i - 1])));
        assert(string_views(lines@) =~= first + selected@.take(i as int).map_values(|c: CommandInfo| overlay_line(c)));
    }
    assert(selected@.take(selected@.len() as int) == selected@);
    let ghost mid = lines@;
    lines.push(String::new());
    lines.push(crate::text::owned("Keybindings"));
    assert(string_views(lines@) =~= string_views(mid) + seq![Seq::<char>::empty(), "Keybindings"@]);
    let ghost second = string_views(lines@);
    assert(Seq::<KeybindingInfo>::empty().map_values(|b: KeybindingInfo| key_line(b)) =~= Seq::<Seq<char>>::empty());
    let keys = keybindings();
    let mut k: usize = 0;
    let mut chosen: Vec<KeybindingInfo> = Vec::new();
    assert(keys@.take(0) =~= Seq::<KeybindingInfo>::empty());
    assert(string_views(lines@) =~= second + chosen@.map_values(|b: KeybindingInfo| key_line(b)));
    while k < keys.len()
        invariant
            keys@ == keybinding_table(),
            k <= keys@.len(),
            chosen@ == select_keys(keys@.take(k as int), f@),
            string_views(lines@) == second + chosen@.map_values(|b: KeybindingInfo| key_line(b)),
        decreases keys@.len() - k,
    {
        assert(keys@.take(k + 1).drop_last() == keys@.take(k as int));
        assert(keys@.take(k + 1).last() == keys@[k as int]);
        let b = keys[k];
        if f.len() == 0 || contains_chars(&lower_vec(&to_chars(b.chord)), &f) || contains_chars(
            &lower_vec(&to_chars(b.description)),
            &f,
        ) {
            let mut line = String::new();
            push_str(&mut line, "  ");
            push_padded(&mut line, b.chord, 16);
            push_str(&mut line, " ");
            push_str(&mut line, b.description);
            let ghost before = chosen@;
            let ghost before_lines = lines@;
            let ghost lv = line@;
            chosen.push(b);
            lines.push(line);
            assert(string_views(lines@) =~= string_views(before_lines).push(lv));
            assert(chosen@.map_values(|b: KeybindingInfo| key_line(b)) =~= before.map_values(
                |b: KeybindingInfo| key_line(b),
            ).push(key_line(b)));
            assert(string_views(lines@) =~= second + chosen@.map_values(|b: KeybindingInfo| key_line(b)));
        }
        k += 1;
    }
    assert(keys@.take(keys@.len() as int) == keys@);
    assert(string_views(lines@) =~= overlay_lines(filter@));
    lines
}

/// Parses a line that starts with `/` into a command.
pub fn parse_slash_command(input: &str) -> (r: Result<SlashCommand, CommandParseError>)
    ensures
        parsed_view(r) == parse_spec(input@),
{
    let chars = to_chars(input);
    let (name, args) = match command_parts(&chars) {
        Some(parts) => parts,
        None => {
            return Err(CommandParseError::NotACommand);
        },
    };
    let n = lower_vec(&name);
    if eq_str(&n, "help") || eq_str(&n, "?") {
        Ok(SlashCommand::Help { topic: non_empty_string(&args) })
    } else if eq_str(&n, "clear") {
        require_no_args(&args, SlashCommand::Clear, "/clear")
    } else if eq_str(&n, "exit") || eq_str(&n, "quit") || eq_str(&n, "q") {
        require_no_args(&args, SlashCommand::Exit, "/exit")
    } else if eq_str(&n, "model") {
        Ok(SlashCommand::Model { model: non_empty_string(&args) })
    } else if eq_str(&n, "models") {
        require_no_args(&args, SlashCommand::Models, "/models")
    } else if eq_str(&n, "save") {
        Ok(SlashCommand::Save { path: non_empty_string(&args) })
    } else if eq_str(&n, "load") {
        Ok(SlashCommand::Load { path: non_empty_string(&args) })
    } else if eq_str(&n, "sessions") || eq_str(&n, "resume") {
        require_no_args(&args, SlashCommand::Sessions, "/sessions")
    } else if eq_str(&n, "export") {
        Ok(SlashCommand::Export { path: non_empty_string(&args) })
    } else if eq_str(&n, "config") {
        parse_config_command(&args)
    } else if eq_str(&n, "status") {
        require_no_args(&args, SlashCommand::Status, "/status")
    } else if eq_str(&n, "retry") {
        require_no_args(&args, SlashCommand::Retry, "/retry")
    } else if eq_str(&n, "context") {
        require_no_args(&args, SlashCommand::Context, "/context")
    } else if eq_str(&n, "branch") || eq_str(&n, "b") {
        parse_branch_command(&args)
    } else if eq_str(&n, "branches") {
        require_no_args(&args, SlashCommand::Branches, "/branches")
    } else if eq_str(&n, "switch") {
        parse_switch_command(&args)
    } else if eq_str(&n, "mode") {
        parse_mode_command(&args)
    } else if eq_str(&n, "plan") {
        parse_plan_command(&args)
    } else if eq_str(&n, "jobs") || eq_str(&n, "job") {
        parse_jobs_command(&args)
    } else if eq_str(&n, "task") || eq_str(&n, "tasks") {
        parse_task_command(&args)
    } else if eq_str(&n, "diff") {
        require_no_args(&args, SlashCommand::Diff, "/diff")
    } else if eq_str(&n, "undo") {
        require_no_args(&args, SlashCommand::Undo, "/undo")
    } else if eq_str(&n, "restore") {
        Ok(SlashCommand::Restore { id: non_empty_string(&args) })
    } else if eq_str(&n, "note") {
        parse_note_command(&args)
    } else if eq_str(&n, "memory") {
        parse_memory_command(&args)
    } else if eq_str(&n, "recall") {
        parse_recall_command(&args)
    } else if eq_str(&n, "compact") {
        require_no_args(&args, SlashCommand::Compact, "/compact")
    } else if eq_str(&n, "review") {
        parse_review_command(&args)
    } else if eq_str(&n, "lsp") {
        parse_lsp_command(&args)
    } else if eq_str(&n, "skills") {
        require_no_args(&args, SlashCommand::Skills, "/skills")
    } else if eq_str(&n, "skill") {
        parse_skill_command(&args)
    } else if eq_str(&n, "mcp") {
        parse_mcp_command(&args)
    } else {
        Err(CommandParseError::UnknownCommand(string_of(&name)))
    }
}

/// `a` is `b` with some of its lines left out, the rest in their order.
pub open spec fn subsequence_of(a: Seq<Seq<char>>, b: Seq<Seq<char>>) -> bool {
    exists|idx: Seq<int>| #[trigger] picks(idx, a, b)
}

/// `idx` picks the lines of `a` out of `b`, at increasing positions.
pub open spec fn picks(idx: Seq<int>, a: Seq<Seq<char>>, b: Seq<Seq<char>>) -> bool {
    &&& idx.len() == a.len()
    &&& forall|i: int| 0 <= i < idx.len() ==> 0 <= #[trigger] idx[i] < b.len() && a[i] == b[idx[i]]
    &&& forall|i: int, j: int| 0 <= i < j < idx.len() ==> #[trigger] idx[i] < #[trigger] idx[j]
}

proof fn lemma_picks_concat(
    i1: Seq<int>,
    a1: Seq<Seq<char>>,
    b1: Seq<Seq<char>>,
    i2: Seq<int>,
    a2: Seq<Seq<char>>,
    b2: Seq<Seq<char>>,
) -> (idx: Seq<int>)
    requires
        picks(i1, a1, b1),
        picks(i2, a2, b2),
    ensures
        picks(idx, a1 + a2, b1 + b2),
{
    let idx = i1 + i2.map_values(|x: int| x + b1.len());
    assert forall|i: int| 0 <= i < idx.len() implies 0 <= #[trigger] idx[i] < (b1 + b2).len() && (a1
        + a2)[i] == (b1 + b2)[idx[i]] by {
        if i >= i1.len() {
            assert(idx[i] == i2[i - i1.len()] + b1.len());
        }
    }
    assert forall|i: int, j: int| 0 <= i < j < idx.len() implies #[trigger] idx[i] < #[trigger] idx[j] by {
        if j < i1.len() {
        } else if i < i1.len() {
            assert(idx[j] == i2[j - i1.len()] + b1.len());
        } else {
            assert(idx[i] == i2[i - i1.len()] + b1.len());
            assert(idx[j] == i2[j - i1.len()] + b1.len());
        }
    }
    idx
}

proof fn lemma_picks_same(a: Seq<Seq<char>>) -> (idx: Seq<int>)
    ensures
        picks(idx, a, a),
{
    Seq::new(a.len(), |i: int| i)
}

proof fn lemma_select_commands_picks(t: Seq<CommandInfo>, f: Seq<char>) -> (idx: Seq<int>)
    ensures
        picks(
            idx,
            select_commands(t, f).map_values(|c: CommandInfo| overlay_line(c)),
            t.map_values(|c: CommandInfo| overlay_line(c)),
        ),
    decreases t.len(),
{
    if t.len() == 0 {
        assert(select_commands(t, f).map_values(|c: CommandInfo| overlay_line(c)) =~= Seq::<Seq<char>>::empty());
        Seq::empty()
    } else {
        let prev = lemma_select_commands_picks(t.drop_last(), f);
        let full = t.map_values(|c: CommandInfo| overlay_line(c));
        assert(t.drop_last().map_values(|c: CommandInfo| overlay_line(c)) =~= full.drop_last());
        if command_matches(t.last(), f) {
            let idx = prev.push(t.len() - 1);
            let sel = select_commands(t, f).map_values(|c: CommandInfo| overlay_line(c));
            assert(sel =~= select_commands(t.drop_last(), f).map_values(|c: CommandInfo| overlay_line(c)).push(
                overlay_line(t.last()),
            ));
            assert forall|i: int| 0 <= i < idx.len() implies 0 <= #[trigger] idx[i] < full.len() && sel[i]
                == full[idx[i]] by {
                if i < prev.len() {
                    assert(full.drop_last()[prev[i]] == full[prev[i]]);
                }
            }
            idx
        } else {
            let sel = select_commands(t, f).map_values(|c: CommandInfo| overlay_line(c));
            assert forall|i: int| 0 <= i < prev.len() implies 0 <= #[trigger] prev[i] < full.len() && sel[i]
                == full[prev[i]] by {
                assert(full.drop_last()[prev[i]] == full[prev[i]]);
            }
            prev
        }
    }
}

proof fn lemma_select_keys_picks(t: Seq<KeybindingInfo>, f: Seq<char>) -> (idx: Seq<int>)
    ensures
        picks(
            idx,
            select_keys(t, f).map_values(|k: KeybindingInfo| key_line(k)),
            t.map_values(|k: KeybindingInfo| key_line(k)),
        ),
    decreases t.len(),
{
    if t.len() == 0 {
        assert(select_keys(t, f).map_values(|k: KeybindingInfo| key_line(k)) =~= Seq::<Seq<char>>::empty());
        Seq::empty()
    } else {
        let prev = lemma_select_keys_picks(t.drop_last(), f);
        let full = t.map_values(|k: KeybindingInfo| key_line(k));
        assert(t.drop_last().map_values(|k: KeybindingInfo| key_line(k)) =~= full.drop_last());
        if key_matches(t.last(), f) {
            let idx = prev.push(t.len() - 1);
            let sel = select_keys(t, f).map_values(|k: KeybindingInfo| key_line(k));
            assert(sel =~= select_keys(t.drop_last(), f).map_values(|k: KeybindingInfo| key_line(k)).push(
                key_line(t.last()),
            ));
            assert forall|i: int| 0 <= i < idx.len() implies 0 <= #[trigger] idx[i] < full.len() && sel[i]
                == full[idx[i]] by {
                if i < prev.len() {
                    assert(full.drop_last()[prev[i]] == full[prev[i]]);
                }
            }
            idx
        } else {
            let sel = select_keys(t, f).map_values(|k: KeybindingInfo| key_line(k));
            assert forall|i: int| 0 <= i < prev.len() implies 0 <= #[trigger] prev[i] < full.len() && sel[i]
                == full[prev[i]] by {
                assert(full.drop_last()[prev[i]] == full[prev[i]]);
            }
            prev
        }
    }
}

proof fn lemma_select_commands_all(t: Seq<CommandInfo>)
    ensures
        select_commands(t, Seq::empty()) == t,
    decreases t.len(),
{
    if t.len() > 0 {
        lemma_select_commands_all(t.drop_last());
        assert(t.drop_last().push(t.last()) =~= t);
    }
}

proof fn lemma_select_keys_all(t: Seq<KeybindingInfo>)
    ensures
        select_keys(t, Seq::empty()) == t,
    decreases t.len(),
{
    if t.len() > 0 {
        lemma_select_keys_all(t.drop_last());
        assert(t.drop_last().push(t.last()) =~= t);
    }
}

/// A first word that lower-cases to `word` is not the whole of a text that
/// lower-cases to another word of the same length.
proof fn lemma_action_word(t: Seq<char>, word: Seq<char>)
    requires
        action_of(t) == word,
        word.len() > 0,
    ensures
        t.len() >= word.len(),
        lower(t).take(word.len() as int) == word,
{
    crate::text::lemma_token_len(t);
    let k = token_len(t) as int;
    assert(head_token(t).len() == k);
    assert(lower(t).take(k) =~= lower(head_token(t)));
}

/// `/plan undo <n>` and `/plan done <n>` read their step number the same
/// way and differ only in what they do with it: with the same text after
/// the action word, the first gives `Undo(n)` exactly when the second gives
/// `Done(n)`, both fail together, and the two never give the same command.
/// Undoing never gives a `Done`, and the number is the one written.
pub proof fn law_plan_undo_mirrors_done(undo_args: Seq<char>, done_args: Seq<char>)
    requires
        action_of(trim(undo_args)) == "undo"@,
        action_of(trim(done_args)) == "done"@,
        rest_of(trim(undo_args)) == rest_of(trim(done_args)),
    ensures
        forall|n: usize|
            plan_spec(undo_args) == Ok::<CommandView, ParseErrorView>(CommandView::Plan(PlanView::Undo(n)))
                <==> plan_spec(done_args) == Ok::<CommandView, ParseErrorView>(
                CommandView::Plan(PlanView::Done(n)),
            ),
        plan_spec(undo_args) is Err <==> plan_spec(done_args) is Err,
        plan_spec(undo_args) != plan_spec(done_args) || plan_spec(undo_args) is Err,
        plan_spec(undo_args) is Ok ==> plan_spec(undo_args) == Ok::<CommandView, ParseErrorView>(
            CommandView::Plan(PlanView::Undo(parse_usize_spec(rest_of(trim(undo_args))).unwrap())),
        ),
        plan_spec(undo_args) is Ok <==> parse_usize_spec(rest_of(trim(undo_args))) is Some,
{
    reveal_strlit("undo");
    reveal_strlit("done");
    reveal_strlit("show");
    reveal_strlit("add");
    lemma_action_word(trim(undo_args), "undo"@);
    lemma_action_word(trim(done_args), "done"@);
    assert(lower(trim(undo_args)) != "show"@) by {
        let l = lower(trim(undo_args));
        assert(l.take(4)[0] == l[0]);
        assert("undo"@[0] == 'u');
        assert("show"@[0] == 's');
    }
    assert(lower(trim(done_args)) != "show"@) by {
        let l = lower(trim(done_args));
        assert(l.take(4)[0] == l[0]);
        assert("done"@[0] == 'd');
        assert("show"@[0] == 's');
    }
    assert("undo"@ != "add"@);
    assert("undo"@ != "done"@) by {
        assert("undo"@[0] != "done"@[0]);
    }
    assert("done"@ != "add"@);
}

/// A command named `plan` in any case is read by the `/plan` rules.
proof fn lemma_parse_plan(input: Seq<char>)
    requires
        command_parts_spec(input) is Some,
        lower(command_parts_spec(input).unwrap().0) == "plan"@,
    ensures
        parse_spec(input) == plan_spec(command_parts_spec(input).unwrap().1),
{
    reveal_strlit("plan");
    reveal_strlit("help");
    reveal_strlit("?");
    reveal_strlit("clear");
    reveal_strlit("exit");
    reveal_strlit("quit");
    reveal_strlit("q");
    reveal_strlit("model");
    reveal_strlit("models");
    reveal_strlit("save");
    reveal_strlit("load");
    reveal_strlit("sessions");
    reveal_strlit("resume");
    reveal_strlit("export");
    reveal_strlit("config");
    reveal_strlit("status");
    reveal_strlit("retry");
    reveal_strlit("context");
    reveal_strlit("branch");
    reveal_strlit("b");
    reveal_strlit("branches");
    reveal_strlit("switch");
    reveal_strlit("mode");
    let n = "plan"@;
    assert(n[0] == 'p');
    assert(n != "help"@) by { assert("help"@[0] == 'h'); }
    assert(n != "exit"@) by { assert("exit"@[0] == 'e'); }
    assert(n != "quit"@) by { assert("quit"@[0] == 'q'); }
    assert(n != "save"@) by { assert("save"@[0] == 's'); }
    assert(n != "load"@) by { assert("load"@[0] == 'l'); }
    assert(n != "mode"@) by { assert("mode"@[0] == 'm'); }
}

/// `/plan undo <n>` and `/plan done <n>`, typed as whole commands, mirror each
/// other: with the same text after the action word, the first parses to
/// `Undo(n)` exactly when the second parses to `Done(n)`, they fail
/// together, and they never parse to the same command.
pub proof fn law_plan_command_undo_mirrors_done(undo_input: Seq<char>, done_input: Seq<char>)
    requires
        command_parts_spec(undo_input) is Some,
        command_parts_spec(done_input) is Some,
        lower(command_parts_spec(undo_input).unwrap().0) == "plan"@,
        lower(command_parts_spec(done_input).unwrap().0) == "plan"@,
        action_of(trim(command_parts_spec(undo_input).unwrap().1)) == "undo"@,
        action_of(trim(command_parts_spec(done_input).unwrap().1)) == "done"@,
        rest_of(trim(command_parts_spec(undo_input).unwrap().1)) == rest_of(
            trim(command_parts_spec(done_input).unwrap().1),
        ),
    ensures
        forall|n: usize|
            parse_spec(undo_input) == Ok::<CommandView, ParseErrorView>(CommandView::Plan(PlanView::Undo(n)))
                <==> parse_spec(done_input) == Ok::<CommandView, ParseErrorView>(
                CommandView::Plan(PlanView::Done(n)),
            ),
        parse_spec(undo_input) is Err <==> parse_spec(done_input) is Err,
        parse_spec(undo_input) != parse_spec(done_input) || parse_spec(undo_input) is Err,
{
    lemma_parse_plan(undo_input);
    lemma_parse_plan(done_input);
    law_plan_undo_mirrors_done(
        command_parts_spec(undo_input).unwrap().1,
        command_parts_spec(done_input).unwrap().1,
    );
}

/// A filter only leaves lines of the help overlay out: the filtered overlay
/// keeps the headings and is the unfiltered one with some command and key
/// lines dropped; the unfiltered one has every command and every key
/// binding, plus its three heading lines.
pub proof fn law_help_filter_only_drops_lines(filter: Seq<char>)
    ensures
        overlay_lines(filter)[0] == "Commands"@,
        overlay_lines(filter).contains(Seq::<char>::empty()),
        overlay_lines(filter).contains("Keybindings"@),
        subsequence_of(overlay_lines(filter), overlay_lines(Seq::empty())),
        overlay_lines(Seq::empty()).len() == command_table().len() + keybinding_table().len() + 3,
{
    let f = lower(filter);
    let e = lower(Seq::<char>::empty());
    assert(e =~= Seq::<char>::empty());
    lemma_select_commands_all(command_table());
    lemma_select_keys_all(keybinding_table());
    let cs = select_commands(command_table(), f).map_values(|c: CommandInfo| overlay_line(c));
    let ks = select_keys(keybinding_table(), f).map_values(|k: KeybindingInfo| key_line(k));
    let all_cs = command_table().map_values(|c: CommandInfo| overlay_line(c));
    let all_ks = keybinding_table().map_values(|k: KeybindingInfo| key_line(k));
    let heads = seq!["Commands"@];
    let mids = seq![Seq::<char>::empty(), "Keybindings"@];
    assert(overlay_lines(filter) == heads + cs + mids + ks);
    assert(overlay_lines(Seq::empty()) == heads + all_cs + mids + all_ks);
    assert((heads + cs + mids + ks)[0] == "Commands"@);
    assert((heads + cs + mids + ks)[1 + cs.len() as int] == Seq::<char>::empty());
    assert((heads + cs + mids + ks)[2 + cs.len() as int] == "Keybindings"@);
    let p1 = lemma_picks_same(heads);
    let p2 = lemma_select_commands_picks(command_table(), f);
    let p3 = lemma_picks_same(mids);
    let p4 = lemma_select_keys_picks(keybinding_table(), f);
    let q1 = lemma_picks_concat(p1, heads, heads, p2, cs, all_cs);
    let q2 = lemma_picks_concat(q1, heads + cs, heads + all_cs, p3, mids, mids);
    let q3 = lemma_picks_concat(q2, heads + cs + mids, heads + all_cs + mids, p4, ks, all_ks);
    assert(picks(q3, overlay_lines(filter), overlay_lines(Seq::empty())));
}

} // verus!
