//! Tool requests, their approval, and the interaction modes that decide it.
use vstd::prelude::*;

use crate::commands::ModeName;
use crate::models::AppMode;
use crate::text::{eq_str, owned, to_chars};

verus! {

/// Whether a tool runs without asking.
#[derive(Debug, Clone, Copy, PartialEq, Eq, Structural)]
pub enum ApprovalRequirement {
    Auto,
    Prompt,
}

/// What a tool touches.
#[derive(Debug, Clone, Copy, PartialEq, Eq, Structural)]
pub enum ToolKind {
    FileRead,
    FileWrite,
    Search,
    Git,
    Network,
    Project,
    Shell,
}

/// The output of a tool and a one-line summary of it.
#[derive(Debug, Clone)]
pub struct ToolResult {
    pub content: String,
    pub summary: String,
}

impl ToolResult {
    pub fn new(content: &str, summary: &str) -> (r: ToolResult)
        ensures
            r.content@ == content@,
            r.summary@ == summary@,
    {
        ToolResult { content: owned(content), summary: owned(summary) }
    }
}

/// Reading tools run on their own; writing, network and shell tools ask.
pub open spec fn requirement_of(kind: ToolKind) -> ApprovalRequirement {
    match kind {
        ToolKind::FileRead | ToolKind::Search | ToolKind::Git | ToolKind::Project => ApprovalRequirement::Auto,
        ToolKind::FileWrite | ToolKind::Network | ToolKind::Shell => ApprovalRequirement::Prompt,
    }
}

pub fn approval_requirement(kind: ToolKind) -> (r: ApprovalRequirement)
    ensures
        r == requirement_of(kind),
{
    match kind {
        ToolKind::FileRead | ToolKind::Search | ToolKind::Git | ToolKind::Project => ApprovalRequirement::Auto,
        ToolKind::FileWrite | ToolKind::Network | ToolKind::Shell => ApprovalRequirement::Prompt,
    }
}

/// How tool calls are approved in the interface.
#[derive(Debug, Clone, Copy, PartialEq, Eq, Structural)]
pub enum ApprovalMode {
    Prompt,
    ReadOnly,
    Auto,
}

impl Default for ApprovalMode {
    fn default() -> (r: ApprovalMode)
        ensures
            r == ApprovalMode::Prompt,
    {
        ApprovalMode::Prompt
    }
}

#[derive(Debug, Clone, Copy, PartialEq, Eq, Structural)]
pub enum ToolStatus {
    PendingApproval,
    Running,
    Completed,
    Failed,
    Denied,
}

/// A tool call as the interface tracks it.
#[derive(Debug, Clone, PartialEq, Eq)]
pub struct ToolRequest {
    pub id: String,
    pub name: String,
    pub kind: ToolKind,
    pub summary: String,
    pub status: ToolStatus,
}

impl ToolRequest {
    pub fn copy(&self) -> (r: ToolRequest)
        ensures
            r == *self,
    {
        ToolRequest {
            id: self.id.clone(),
            name: self.name.clone(),
            kind: self.kind,
            summary: self.summary.clone(),
            status: self.status,
        }
    }
}

/// The request after the user's answer: running when approved, denied
/// otherwise.
pub fn answered_request(request: &ToolRequest, approve: bool) -> (r: ToolRequest)
    ensures
        r.id == request.id,
        r.name == request.name,
        r.kind == request.kind,
        r.summary == request.summary,
        r.status == if approve {
            ToolStatus::Running
        } else {
            ToolStatus::Denied
        },
{
    let mut r = request.copy();
    r.status = if approve {
        ToolStatus::Running
    } else {
        ToolStatus::Denied
    };
    r
}

/// The most finished requests that are remembered.
pub const MAX_TOOL_HISTORY: usize = 20;

/// Puts a finished request first in the history, keeping at most twenty.
pub fn push_tool_history(history: &mut Vec<ToolRequest>, request: ToolRequest)
    ensures
        final(history)@ == seq![request].add(old(history)@).take(
            if old(history)@.len() + 1 > 20 {
                20
            } else {
                (old(history)@.len() + 1) as int
            },
        ),
{
    let ghost before = history@;
    history.insert(0, request);
    if history.len() > MAX_TOOL_HISTORY {
        history.truncate(MAX_TOOL_HISTORY);
    }
    assert(seq![request].add(before) =~= before.insert(0, request));
}

/// The label of an approval mode.
pub fn approval_mode_label(mode: ApprovalMode) -> (r: &'static str)
    ensures
        r@ == match mode {
            ApprovalMode::Prompt => "prompt"@,
            ApprovalMode::ReadOnly => "read-only"@,
            ApprovalMode::Auto => "auto"@,
        },
{
    match mode {
        ApprovalMode::Prompt => "prompt",
        ApprovalMode::ReadOnly => "read-only",
        ApprovalMode::Auto => "auto",
    }
}

/// Plan reads only, agent asks, yolo approves by itself.
pub open spec fn approval_of(mode: AppMode) -> ApprovalMode {
    match mode {
        AppMode::Plan => ApprovalMode::ReadOnly,
        AppMode::Agent => ApprovalMode::Prompt,
        AppMode::Yolo => ApprovalMode::Auto,
    }
}

pub fn mode_approval_mode(mode: AppMode) -> (r: ApprovalMode)
    ensures
        r == approval_of(mode),
{
    match mode {
        AppMode::Plan => ApprovalMode::ReadOnly,
        AppMode::Agent => ApprovalMode::Prompt,
        AppMode::Yolo => ApprovalMode::Auto,
    }
}

/// The mode that the mode key switches to: agent, plan, yolo, agent, ...
pub open spec fn following_mode(mode: AppMode) -> AppMode {
    match mode {
        AppMode::Agent => AppMode::Plan,
        AppMode::Plan => AppMode::Yolo,
        AppMode::Yolo => AppMode::Agent,
    }
}

pub fn next_mode(mode: AppMode) -> (r: AppMode)
    ensures
        r == following_mode(mode),
{
    match mode {
        AppMode::Agent => AppMode::Plan,
        AppMode::Plan => AppMode::Yolo,
        AppMode::Yolo => AppMode::Agent,
    }
}

/// The interface mode for a mode named in `/mode`.
pub fn app_mode_for(mode: ModeName) -> (r: AppMode)
    ensures
        r == match mode {
            ModeName::Agent => AppMode::Agent,
            ModeName::Plan => AppMode::Plan,
            ModeName::Yolo => AppMode::Yolo,
        },
{
    match mode {
        ModeName::Agent => AppMode::Agent,
        ModeName::Plan => AppMode::Plan,
        ModeName::Yolo => AppMode::Yolo,
    }
}

/// Pressing the mode key three times comes back to the same mode, passing
/// through every mode once.
pub proof fn law_mode_cycle(mode: AppMode)
    ensures
        following_mode(following_mode(following_mode(mode))) == mode,
        following_mode(mode) != mode,
        following_mode(following_mode(mode)) != mode,
        approval_of(following_mode(mode)) != approval_of(mode),
{
}

/// The file tools whose changes call for fresh diagnostics.
pub fn should_refresh_diagnostics(request: &ToolRequest) -> (r: bool)
    ensures
        r == (request.name@ == "write_file"@ || request.name@ == "edit_file"@ || request.name@ == "apply_patch"@),
{
    let name = to_chars(request.name.as_str());
    eq_str(&name, "write_file") || eq_str(&name, "edit_file") || eq_str(&name, "apply_patch")
}

/// How a tool call that needs approval is answered in each approval mode:
/// `Some` where the mode decides by itself, `None` where the user is asked.
pub fn approval_decision(mode: ApprovalMode) -> (r: Option<bool>)
    ensures
        r == match mode {
            ApprovalMode::Auto => Some(true),
            ApprovalMode::ReadOnly => Some(false),
            ApprovalMode::Prompt => None::<bool>,
        },
{
    match mode {
        ApprovalMode::Auto => Some(true),
        ApprovalMode::ReadOnly => Some(false),
        ApprovalMode::Prompt => None,
    }
}

/// The status line while a reply streams; it names the routed model where
/// the configured model is `auto`.
pub fn streaming_status(configured_model: &str, routed_model: &str) -> (r: String)
    ensures
        r@ == if configured_model@ == "auto"@ {
            "Auto routed to "@ + routed_model@ + "; streaming from MiMo..."@
        } else {
            "Streaming from MiMo..."@
        },
{
    if crate::text::eq_str(&crate::text::to_chars(configured_model), "auto") {
        let mut s = crate::text::owned("Auto routed to ");
        crate::text::push_str(&mut s, routed_model);
        crate::text::push_str(&mut s, "; streaming from MiMo...");
        s
    } else {
        crate::text::owned("Streaming from MiMo...")
    }
}

/// The stage of a tool call that the interface reports.
#[derive(Debug, Clone, Copy, PartialEq, Eq, Structural)]
pub enum ToolStage {
    Requested,
    Started,
    Denied,
}

/// The text shown for a tool call at a stage: `Preparing`, `Running` or
/// `Denied` followed by the call's summary.
pub fn tool_stage_text(stage: ToolStage, summary: &str) -> (r: String)
    ensures
        r@ == match stage {
            ToolStage::Requested => "Preparing "@,
            ToolStage::Started => "Running "@,
            ToolStage::Denied => "Denied "@,
        } + summary@,
{
    let mut s = match stage {
        ToolStage::Requested => crate::text::owned("Preparing "),
        ToolStage::Started => crate::text::owned("Running "),
        ToolStage::Denied => crate::text::owned("Denied "),
    };
    crate::text::push_str(&mut s, summary);
    s
}

/// The status line after a tool call finished.
pub fn tool_finished_status(request: &ToolRequest) -> (r: String)
    ensures
        r@ == match request.status {
            ToolStatus::Failed => "Tool failed: "@ + request.summary@,
            ToolStatus::Denied => "Tool denied: "@ + request.summary@,
            _ => request.summary@,
        },
{
    match request.status {
        ToolStatus::Failed => {
            let mut s = owned("Tool failed: ");
            crate::text::push_str(&mut s, request.summary.as_str());
            s
        },
        ToolStatus::Denied => {
            let mut s = owned("Tool denied: ");
            crate::text::push_str(&mut s, request.summary.as_str());
            s
        },
        _ => owned(request.summary.as_str()),
    }
}

/// The status line after the model catalog arrived with `count` models.
pub fn models_loaded_status(count: usize) -> (r: String)
    ensures
        r@ == if count == 0 {
            "MiMo returned an empty model catalog; using local suggestions"@
        } else {
            "Loaded "@ + crate::text::decimal(count as nat) + " models from MiMo API"@
        },
{
    if count == 0 {
        owned("MiMo returned an empty model catalog; using local suggestions")
    } else {
        let mut s = owned("Loaded ");
        crate::text::push_str(&mut s, crate::text::usize_to_string(count).as_str());
        crate::text::push_str(&mut s, " models from MiMo API");
        s
    }
}

/// The status line when a reply finished: a cancellation stays reported,
/// anything else gives way to `Ready`.
pub fn stream_finished_status(current: &str) -> (r: String)
    ensures
        r@ == if current@ == "Generation cancelled"@ {
            current@
        } else {
            "Ready"@
        },
{
    if eq_str(&to_chars(current), "Generation cancelled") {
        owned(current)
    } else {
        owned("Ready")
    }
}

} // verus!
