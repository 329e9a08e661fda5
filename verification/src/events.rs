//! What the interface does with the events that background work sends it:
//! streamed reply text, the end of a reply, the model catalog, status
//! lines, diagnostics, skill installs and tool progress. The work itself
//! runs outside; this decides the next state and what to refresh.
use vstd::prelude::*;

use crate::config::{add_unique_trimmed, normalize_remote_models};
use crate::branch::{ConversationTree, NodeView, TreeView};
use crate::protocol::{message_views, ChatMessage, MessageView};
use crate::text::{decimal, owned, push_str, string_views, to_chars};
use crate::tooling::{
    models_loaded_status, should_refresh_diagnostics, stream_finished_status, tool_finished_status,
    ToolRequest, ToolStatus,
};

verus! {

/// An event from background work.
pub enum UiEvent {
    /// Text streamed for the reply being written.
    Delta(String),
    /// The reply ended, with the error where it failed.
    Finished(Result<(), String>),
    /// The model catalog arrived, or could not be had.
    ModelsLoaded(Result<Vec<String>, String>),
    /// A status line to show.
    Status(String),
    /// A diagnostics run ended: its summary, or the error.
    DiagnosticsFinished(Result<String, String>),
    /// A skill was installed (its name and path), or the install failed.
    SkillInstalled(Result<(String, String), String>),
    /// A tool call started; its summary.
    ToolStarted(String),
    /// A tool call ended.
    ToolFinished(ToolRequest),
}

/// What the interface is asked to do after an event.
#[derive(Debug, Clone, PartialEq, Eq)]
pub enum EventAction {
    Nothing,
    /// Rebuild the model picker from the catalog.
    RefreshModelCatalog,
    /// Reread the installed skills.
    RefreshSkills,
    /// Start a diagnostics run, with the reason given.
    RefreshDiagnostics(String),
}

/// The part of the interface that events change.
pub struct StreamState {
    /// The visible conversation.
    pub messages: Vec<ChatMessage>,
    /// Where the reply being streamed stands in `messages`.
    pub assistant_index: Option<usize>,
    pub streaming: bool,
    pub status: String,
    pub discovered_models: Vec<String>,
    pub models_loading: bool,
    /// Whether diagnostics rerun after tools that change files.
    pub diagnostics_auto_run: bool,
    /// The summary of the last diagnostics run.
    pub diagnostics_summary: Option<String>,
}

/// The state when the interface starts: no conversation and no reply,
/// nothing loading, diagnostics not rerun by themselves, the summary of
/// the saved diagnostics where there is one, and a status that asks for
/// an API key where none is configured.
pub fn initial_state(has_api_key: bool, diagnostics_summary: Option<String>) -> (r: StreamState)
    ensures
        r.messages@.len() == 0,
        r.assistant_index is None,
        !r.streaming,
        r.status@ == if has_api_key {
            "Ready"@
        } else {
            "Missing API key: use /config api-key <key> or edit config.toml"@
        },
        r.discovered_models@.len() == 0,
        !r.models_loading,
        !r.diagnostics_auto_run,
        r.diagnostics_summary == diagnostics_summary,
{
    StreamState {
        messages: Vec::new(),
        assistant_index: None,
        streaming: false,
        status: if has_api_key {
            owned("Ready")
        } else {
            owned("Missing API key: use /config api-key <key> or edit config.toml")
        },
        discovered_models: Vec::new(),
        models_loading: false,
        diagnostics_auto_run: false,
        diagnostics_summary,
    }
}

/// `messages` with `content` of the message at `index` changed by `f`,
/// where that message exists.
pub open spec fn with_content(
    messages: Seq<MessageView>,
    index: Option<usize>,
    content: spec_fn(Seq<char>) -> Seq<char>,
) -> Seq<MessageView> {
    match index {
        Some(i) => if i < messages.len() {
            messages.update(i as int, MessageView { content: content(messages[i as int].content), ..messages[i as int] })
        } else {
            messages
        },
        None => messages,
    }
}

/// Whether the reply being streamed is still empty.
pub open spec fn reply_empty(messages: Seq<MessageView>, index: Option<usize>) -> bool {
    match index {
        Some(i) => i < messages.len() && messages[i as int].content.len() == 0,
        None => false,
    }
}

fn replace_content(messages: &mut Vec<ChatMessage>, i: usize, content: String, append: bool)
    requires
        i < old(messages)@.len(),
    ensures
        message_views(final(messages)@) == message_views(old(messages)@).update(
            i as int,
            MessageView {
                content: if append {
                    old(messages)@[i as int].content@ + content@
                } else {
                    content@
                },
                ..old(messages)@[i as int]@
            },
        ),
{
    let ghost before = messages@;
    let mut m = messages.remove(i);
    if append {
        push_str(&mut m.content, content.as_str());
    } else {
        m.content = content;
    }
    messages.insert(i, m);
    assert(message_views(messages@) =~= message_views(before).update(i as int, messages@[i as int]@));
}

/// Applies an event: the state it leaves, and what to refresh.
///
/// - `Delta`: the text is appended to the reply being streamed.
/// - `Finished(Ok)`: streaming stops, the reply is no longer tracked, and
///   the status is `Ready` unless it reports a cancellation.
/// - `Finished(Err(e))`: streaming stops; an empty reply becomes
///   `Request failed: e`; the status is `e`.
/// - `ModelsLoaded`: loading stops; a catalog replaces the known models
///   (trimmed, without blanks or repeats) and the status counts them; an
///   error keeps them and reports it. Either way the picker is rebuilt.
/// - `Status`: the status is replaced.
/// - `DiagnosticsFinished`: the summary is kept and shown, or the error is.
/// - `SkillInstalled`: the status names the skill and the skills are
///   reread, or the error is shown.
/// - `ToolStarted`: the status is the tool's summary.
/// - `ToolFinished`: the status reports the outcome; diagnostics rerun
///   where they run by themselves and the tool may have changed files.
pub fn apply_event(state: &mut StreamState, event: UiEvent) -> (r: EventAction)
    ensures
        final(state).diagnostics_auto_run == old(state).diagnostics_auto_run,
        match event {
            UiEvent::Delta(d) => {
                &&& message_views(final(state).messages@) == with_content(
                    message_views(old(state).messages@),
                    old(state).assistant_index,
                    |c: Seq<char>| c + d@,
                )
                &&& final(state).assistant_index == old(state).assistant_index
                &&& final(state).streaming == old(state).streaming
                &&& final(state).status@ == old(state).status@
                &&& string_views(final(state).discovered_models@) == string_views(old(state).discovered_models@)
                &&& final(state).models_loading == old(state).models_loading
                &&& final(state).diagnostics_summary == old(state).diagnostics_summary
                &&& r == EventAction::Nothing
            },
            UiEvent::Finished(result) => {
                &&& message_views(final(state).messages@) == match result {
                    Ok(()) => message_views(old(state).messages@),
                    Err(e) => if reply_empty(message_views(old(state).messages@), old(state).assistant_index) {
                        with_content(
                            message_views(old(state).messages@),
                            old(state).assistant_index,
                            |c: Seq<char>| "Request failed: "@ + e@,
                        )
                    } else {
                        message_views(old(state).messages@)
                    },
                }
                &&& final(state).assistant_index is None
                &&& !final(state).streaming
                &&& final(state).status@ == match result {
                    Ok(()) => if old(state).status@ == "Generation cancelled"@ {
                        old(state).status@
                    } else {
                        "Ready"@
                    },
                    Err(e) => e@,
                }
                &&& string_views(final(state).discovered_models@) == string_views(old(state).discovered_models@)
                &&& final(state).models_loading == old(state).models_loading
                &&& final(state).diagnostics_summary == old(state).diagnostics_summary
                &&& r == EventAction::Nothing
            },
            UiEvent::ModelsLoaded(result) => {
                &&& message_views(final(state).messages@) == message_views(old(state).messages@)
                &&& final(state).assistant_index == old(state).assistant_index
                &&& final(state).streaming == old(state).streaming
                &&& !final(state).models_loading
                &&& match result {
                    Ok(models) => {
                        &&& string_views(final(state).discovered_models@) == add_unique_trimmed(
                            Seq::empty(),
                            string_views(models@),
                        )
                        &&& final(state).status@ == if final(state).discovered_models@.len() == 0 {
                            "MiMo returned an empty model catalog; using local suggestions"@
                        } else {
                            "Loaded "@ + decimal(final(state).discovered_models@.len()) + " models from MiMo API"@
                        }
                    },
                    Err(e) => {
                        &&& string_views(final(state).discovered_models@) == string_views(
                            old(state).discovered_models@,
                        )
                        &&& final(state).status@ == "Model refresh failed; using local suggestions ("@ + e@
                            + ")"@
                    },
                }
                &&& final(state).diagnostics_summary == old(state).diagnostics_summary
                &&& r == EventAction::RefreshModelCatalog
            },
            UiEvent::Status(s) => {
                &&& message_views(final(state).messages@) == message_views(old(state).messages@)
                &&& final(state).assistant_index == old(state).assistant_index
                &&& final(state).streaming == old(state).streaming
                &&& final(state).status@ == s@
                &&& string_views(final(state).discovered_models@) == string_views(old(state).discovered_models@)
                &&& final(state).models_loading == old(state).models_loading
                &&& final(state).diagnostics_summary == old(state).diagnostics_summary
                &&& r == EventAction::Nothing
            },
            UiEvent::DiagnosticsFinished(result) => {
                &&& message_views(final(state).messages@) == message_views(old(state).messages@)
                &&& final(state).assistant_index == old(state).assistant_index
                &&& final(state).streaming == old(state).streaming
                &&& string_views(final(state).discovered_models@) == string_views(old(state).discovered_models@)
                &&& final(state).models_loading == old(state).models_loading
                &&& match result {
                    Ok(summary) => {
                        &&& final(state).status@ == summary@
                        &&& final(state).diagnostics_summary == Some(summary)
                    },
                    Err(e) => {
                        &&& final(state).status@ == "Diagnostics failed: "@ + e@
                        &&& final(state).diagnostics_summary == old(state).diagnostics_summary
                    },
                }
                &&& r == EventAction::Nothing
            },
            UiEvent::SkillInstalled(result) => {
                &&& message_views(final(state).messages@) == message_views(old(state).messages@)
                &&& final(state).assistant_index == old(state).assistant_index
                &&& final(state).streaming == old(state).streaming
                &&& string_views(final(state).discovered_models@) == string_views(old(state).discovered_models@)
                &&& final(state).models_loading == old(state).models_loading
                &&& final(state).diagnostics_summary == old(state).diagnostics_summary
                &&& match result {
                    Ok((name, path)) => {
                        &&& final(state).status@ == "Installed skill "@ + name@ + " at "@ + path@
                        &&& r == EventAction::RefreshSkills
                    },
                    Err(e) => {
                        &&& final(state).status@ == "Skill install failed: "@ + e@
                        &&& r == EventAction::Nothing
                    },
                }
            },
            UiEvent::ToolStarted(summary) => {
                &&& message_views(final(state).messages@) == message_views(old(state).messages@)
                &&& final(state).assistant_index == old(state).assistant_index
                &&& final(state).streaming == old(state).streaming
                &&& final(state).status@ == summary@
                &&& string_views(final(state).discovered_models@) == string_views(old(state).discovered_models@)
                &&& final(state).models_loading == old(state).models_loading
                &&& final(state).diagnostics_summary == old(state).diagnostics_summary
                &&& r == EventAction::Nothing
            },
            UiEvent::ToolFinished(request) => {
                &&& message_views(final(state).messages@) == message_views(old(state).messages@)
                &&& final(state).assistant_index == old(state).assistant_index
                &&& final(state).streaming == old(state).streaming
                &&& final(state).status@ == match request.status {
                    ToolStatus::Failed => "Tool failed: "@ + request.summary@,
                    ToolStatus::Denied => "Tool denied: "@ + request.summary@,
                    _ => request.summary@,
                }
                &&& string_views(final(state).discovered_models@) == string_views(old(state).discovered_models@)
                &&& final(state).models_loading == old(state).models_loading
                &&& final(state).diagnostics_summary == old(state).diagnostics_summary
                &&& if old(state).diagnostics_auto_run && (request.name@ == "write_file"@ || request.name@
                    == "edit_file"@ || request.name@ == "apply_patch"@) {
                    r matches EventAction::RefreshDiagnostics(reason) && reason@ == "after "@ + request.name@
                } else {
                    r == EventAction::Nothing
                }
            },
        },
{
    match event {
        UiEvent::Delta(delta) => {
            match state.assistant_index {
                Some(i) => {
                    if i < state.messages.len() {
                        replace_content(&mut state.messages, i, delta, true);
                    }
                },
                None => {},
            }
            proof {
                let ms = message_views(old(state).messages@);
                match old(state).assistant_index {
                    Some(i) => if i < ms.len() {
                        assert(message_views(state.messages@) =~= with_content(
                            ms,
                            old(state).assistant_index,
                            |c: Seq<char>| c + delta@,
                        ));
                    },
                    None => {},
                }
            }
            EventAction::Nothing
        },
        UiEvent::Finished(result) => {
            state.streaming = false;
            match result {
                Ok(()) => {
                    state.status = stream_finished_status(state.status.as_str());
                },
                Err(error) => {
                    let ghost ms = message_views(state.messages@);
                    match state.assistant_index {
                        Some(i) => {
                            if i < state.messages.len() && to_chars(state.messages[i].content.as_str()).len() == 0 {
                                let mut text = owned("Request failed: ");
                                push_str(&mut text, error.as_str());
                                replace_content(&mut state.messages, i, text, false);
                                assert(message_views(state.messages@) =~= with_content(
                                    ms,
                                    Some(i),
                                    |c: Seq<char>| "Request failed: "@ + error@,
                                ));
                            }
                        },
                        None => {},
                    }
                    state.status = error;
                },
            }
            state.assistant_index = None;
            EventAction::Nothing
        },
        UiEvent::ModelsLoaded(result) => {
            state.models_loading = false;
            match result {
                Ok(models) => {
                    state.discovered_models = normalize_remote_models(models);
                    state.status = models_loaded_status(state.discovered_models.len());
                },
                Err(error) => {
                    let mut text = owned("Model refresh failed; using local suggestions (");
                    push_str(&mut text, error.as_str());
                    push_str(&mut text, ")");
                    state.status = text;
                },
            }
            EventAction::RefreshModelCatalog
        },
        UiEvent::Status(status) => {
            state.status = status;
            EventAction::Nothing
        },
        UiEvent::DiagnosticsFinished(result) => {
            match result {
                Ok(summary) => {
                    state.status = owned(summary.as_str());
                    state.diagnostics_summary = Some(summary);
                },
                Err(error) => {
                    let mut text = owned("Diagnostics failed: ");
                    push_str(&mut text, error.as_str());
                    state.status = text;
                },
            }
            EventAction::Nothing
        },
        UiEvent::SkillInstalled(result) => {
            match result {
                Ok((name, path)) => {
                    let mut text = owned("Installed skill ");
                    push_str(&mut text, name.as_str());
                    push_str(&mut text, " at ");
                    push_str(&mut text, path.as_str());
                    state.status = text;
                    EventAction::RefreshSkills
                },
                Err(error) => {
                    let mut text = owned("Skill install failed: ");
                    push_str(&mut text, error.as_str());
                    state.status = text;
                    EventAction::Nothing
                },
            }
        },
        UiEvent::ToolStarted(summary) => {
            state.status = summary;
            EventAction::Nothing
        },
        UiEvent::ToolFinished(request) => {
            state.status = tool_finished_status(&request);
            if state.diagnostics_auto_run && should_refresh_diagnostics(&request) {
                let mut reason = owned("after ");
                push_str(&mut reason, request.name.as_str());
                EventAction::RefreshDiagnostics(reason)
            } else {
                EventAction::Nothing
            }
        },
    }
}

/// Appends streamed text to the tree's copy of the reply being written,
/// where the tree holds that message.
pub fn apply_tree_delta(tree: &mut ConversationTree, message_id: &str, delta: &str)
    requires
        old(tree).wf(),
    ensures
        final(tree).wf(),
        old(tree)@.nodes.dom().contains(message_id@) ==> final(tree)@ == (TreeView {
            nodes: old(tree)@.nodes.insert(
                message_id@,
                NodeView {
                    message: MessageView {
                        content: old(tree)@.nodes[message_id@].message.content + delta@,
                        ..old(tree)@.nodes[message_id@].message
                    },
                    ..old(tree)@.nodes[message_id@]
                },
            ),
            ..old(tree)@
        }),
        !old(tree)@.nodes.dom().contains(message_id@) ==> final(tree)@ == old(tree)@,
{
    match tree.message_mut(message_id) {
        Some(m) => {
            push_str(&mut m.content, delta);
        },
        None => {},
    }
}

} // verus!
