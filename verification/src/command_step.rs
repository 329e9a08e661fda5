//! What a parsed slash command does to the interface state that lives in
//! memory (mode, plan, help, retry), and which commands are handed on
//! because they need files, the network or saved sessions.
use vstd::prelude::*;

use crate::commands::{command_help, help_text, SlashCommand};
use crate::models::{AppMode, PlanItem};
use crate::session::{apply_plan_command, item_views, CommandReply};
use crate::text::{owned, push_str};
use crate::tooling::{app_mode_for, approval_of, mode_approval_mode, ApprovalMode};

verus! {

/// The part of the interface state that in-memory commands change.
pub struct CommandState {
    pub mode: AppMode,
    pub approval_mode: ApprovalMode,
    pub plan_items: Vec<PlanItem>,
    pub status: String,
    pub streaming: bool,
    pub last_prompt: Option<String>,
    pub help_open: bool,
    pub help_filter: String,
}

/// What the interface does after a command.
pub enum CommandAction {
    Continue,
    Quit,
    /// Add this system message to the conversation.
    ShowMessage(String),
    /// Empty the conversation and forget the reply being tracked.
    ClearConversation,
    /// Send this prompt again.
    Resend(String),
    /// The command needs outside work: it is handled there.
    Outside(SlashCommand),
}

/// The name of a mode as the status line shows it.
pub open spec fn mode_label_text(mode: AppMode) -> Seq<char> {
    match mode {
        AppMode::Agent => "agent"@,
        AppMode::Plan => "plan"@,
        AppMode::Yolo => "yolo"@,
    }
}

pub fn mode_label(mode: AppMode) -> (r: &'static str)
    ensures
        r@ == mode_label_text(mode),
{
    match mode {
        AppMode::Agent => "agent",
        AppMode::Plan => "plan",
        AppMode::Yolo => "yolo",
    }
}

/// Only the status changed.
pub open spec fn status_only(old: CommandState, new: CommandState) -> bool {
    &&& new.mode == old.mode
    &&& new.approval_mode == old.approval_mode
    &&& item_views(new.plan_items@) == item_views(old.plan_items@)
    &&& new.streaming == old.streaming
    &&& new.last_prompt == old.last_prompt
    &&& new.help_open == old.help_open
    &&& new.help_filter@ == old.help_filter@
}

/// Applies a command:
/// - `/help [topic]` opens the help filtered by the topic, and shows the
///   topic's help where one is given;
/// - `/exit` quits;
/// - `/clear` empties the conversation and forgets the last prompt, except
///   while a reply streams;
/// - `/retry` sends the last prompt again, except while a reply streams or
///   where there is none;
/// - `/mode` shows the mode, or switches it and the approval mode with it;
/// - `/plan` updates the checklist;
/// - every other command is handed on unchanged, and the state is kept.
pub fn command_step(state: &mut CommandState, command: SlashCommand) -> (r: CommandAction)
    ensures
        match command {
            SlashCommand::Help { topic } => {
                &&& final(state).help_open
                &&& final(state).help_filter@ == match topic {
                    Some(t) => t@,
                    None => Seq::empty(),
                }
                &&& final(state).status@ == "Help opened"@
                &&& final(state).mode == old(state).mode
                &&& final(state).approval_mode == old(state).approval_mode
                &&& item_views(final(state).plan_items@) == item_views(old(state).plan_items@)
                &&& final(state).streaming == old(state).streaming
                &&& final(state).last_prompt == old(state).last_prompt
                &&& match topic {
                    Some(t) => r matches CommandAction::ShowMessage(m) && m@ == help_text(Some(t@)),
                    None => r is Continue,
                }
            },
            SlashCommand::Exit => r is Quit && final(state).status@ == old(state).status@ && status_only(
                *old(state),
                *final(state),
            ),
            SlashCommand::Clear => status_only(*old(state), CommandState {
                last_prompt: old(state).last_prompt,
                ..*final(state)
            }) && if old(state).streaming {
                &&& r is Continue
                &&& final(state).status@ == "Cannot clear while MiMo is responding"@
                &&& final(state).last_prompt == old(state).last_prompt
            } else {
                &&& r is ClearConversation
                &&& final(state).status@ == "Conversation cleared"@
                &&& final(state).last_prompt is None
            },
            SlashCommand::Retry => status_only(*old(state), *final(state)) && if old(state).streaming {
                &&& r is Continue
                &&& final(state).status@ == "Cannot retry while MiMo is responding"@
            } else {
                match old(state).last_prompt {
                    Some(p) => r matches CommandAction::Resend(q) && q@ == p@ && final(state).status@
                        == old(state).status@,
                    None => r is Continue && final(state).status@ == "No prompt available to retry"@,
                }
            },
            SlashCommand::Mode { mode } => {
                &&& r is Continue
                &&& item_views(final(state).plan_items@) == item_views(old(state).plan_items@)
                &&& final(state).streaming == old(state).streaming
                &&& final(state).last_prompt == old(state).last_prompt
                &&& final(state).help_open == old(state).help_open
                &&& final(state).help_filter@ == old(state).help_filter@
                &&& match mode {
                    Some(m) => {
                        &&& final(state).mode == match m {
                            crate::commands::ModeName::Agent => AppMode::Agent,
                            crate::commands::ModeName::Plan => AppMode::Plan,
                            crate::commands::ModeName::Yolo => AppMode::Yolo,
                        }
                        &&& final(state).approval_mode == approval_of(final(state).mode)
                        &&& final(state).status@ == "Mode switched to "@ + mode_label_text(final(state).mode)
                    },
                    None => {
                        &&& final(state).mode == old(state).mode
                        &&& final(state).approval_mode == old(state).approval_mode
                        &&& final(state).status@ == "Current mode: "@ + mode_label_text(old(state).mode)
                    },
                }
            },
            SlashCommand::Plan(p) => {
                &&& final(state).mode == old(state).mode
                &&& final(state).approval_mode == old(state).approval_mode
                &&& final(state).streaming == old(state).streaming
                &&& final(state).last_prompt == old(state).last_prompt
                &&& final(state).help_open == old(state).help_open
                &&& final(state).help_filter@ == old(state).help_filter@
                &&& (item_views(final(state).plan_items@), match r {
                    CommandAction::ShowMessage(m) => Some(m@),
                    _ => None,
                }, final(state).status@) == crate::session::plan_command_effect(old(state).plan_items@, p)
                &&& (r is Continue || r is ShowMessage)
            },
            _ => r == CommandAction::Outside(command) && final(state).status@ == old(state).status@
                && status_only(*old(state), *final(state)),
        },
{
    match command {
        SlashCommand::Help { topic } => {
            state.help_open = true;
            state.help_filter = match &topic {
                Some(t) => owned(t.as_str()),
                None => String::new(),
            };
            state.status = owned("Help opened");
            match topic {
                Some(t) => CommandAction::ShowMessage(command_help(Some(t.as_str()))),
                None => CommandAction::Continue,
            }
        },
        SlashCommand::Exit => CommandAction::Quit,
        SlashCommand::Clear => {
            if state.streaming {
                state.status = owned("Cannot clear while MiMo is responding");
                CommandAction::Continue
            } else {
                state.last_prompt = None;
                state.status = owned("Conversation cleared");
                CommandAction::ClearConversation
            }
        },
        SlashCommand::Retry => {
            if state.streaming {
                state.status = owned("Cannot retry while MiMo is responding");
                CommandAction::Continue
            } else {
                match &state.last_prompt {
                    Some(p) => CommandAction::Resend(owned(p.as_str())),
                    None => {
                        state.status = owned("No prompt available to retry");
                        CommandAction::Continue
                    },
                }
            }
        },
        SlashCommand::Mode { mode } => {
            match mode {
                Some(m) => {
                    state.mode = app_mode_for(m);
                    state.approval_mode = mode_approval_mode(state.mode);
                    let mut s = owned("Mode switched to ");
                    push_str(&mut s, mode_label(state.mode));
                    state.status = s;
                },
                None => {
                    let mut s = owned("Current mode: ");
                    push_str(&mut s, mode_label(state.mode));
                    state.status = s;
                },
            }
            CommandAction::Continue
        },
        SlashCommand::Plan(plan) => {
            let reply: CommandReply = apply_plan_command(&mut state.plan_items, plan);
            state.status = reply.status;
            match reply.message {
                Some(m) => CommandAction::ShowMessage(m),
                None => CommandAction::Continue,
            }
        },
        other => CommandAction::Outside(other),
    }
}

} // verus!
