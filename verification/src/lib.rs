//! Verified core of a terminal client for Xiaomi MiMo models: the
//! conversation tree, the command parser, the input editor and the rules
//! that the interface applies to text, tools and tasks.
use vstd::prelude::*;

pub mod agent;
pub mod attachment_paths;
pub mod attachment_search;
pub mod attachments;
pub mod branch;
pub mod client;
pub mod command_step;
pub mod commands;
pub mod config;
pub mod diagnostics;
pub mod events;
pub mod file_tools;
pub mod history;
pub mod host_policy;
pub mod ids;
pub mod input;
pub mod keys;
pub mod keybindings;
pub mod markdown;
pub mod memory;
pub mod models;
pub mod prompting;
pub mod picker_view;
pub mod protocol;
pub mod session;
pub mod shell;
pub mod skills;
pub mod slash_menu;
pub mod summaries;
pub mod tasks;
pub mod text;
pub mod tooling;
pub mod ui_state;
pub mod workspace_paths;
pub mod workspace_tree;

verus! {
} // verus!
