use mimo_tui::events::{apply_event, EventAction, StreamState, UiEvent};
use mimo_tui::protocol::ChatMessage;
use mimo_tui::tooling::{ToolKind, ToolRequest, ToolStatus};

fn streaming_state() -> StreamState {
    StreamState {
        messages: vec![ChatMessage::user("hi"), ChatMessage::assistant("")],
        assistant_index: Some(1),
        streaming: true,
        status: "Streaming from MiMo...".to_string(),
        discovered_models: vec!["mimo-v2-flash".to_string()],
        models_loading: true,
        diagnostics_auto_run: true,
        diagnostics_summary: None,
    }
}

#[test]
fn deltas_extend_the_streamed_reply_and_finishing_stops_it() {
    let mut state = streaming_state();
    assert_eq!(apply_event(&mut state, UiEvent::Delta("Hel".to_string())), EventAction::Nothing);
    apply_event(&mut state, UiEvent::Delta("lo".to_string()));
    assert_eq!(state.messages[1].content, "Hello");
    assert_eq!(state.messages[0].content, "hi");
    apply_event(&mut state, UiEvent::Finished(Ok(())));
    assert!(!state.streaming);
    assert_eq!(state.assistant_index, None);
    assert_eq!(state.status, "Ready");
    // A later delta has no reply to go to.
    apply_event(&mut state, UiEvent::Delta("!".to_string()));
    assert_eq!(state.messages[1].content, "Hello");
}

#[test]
fn a_failed_request_fills_an_empty_reply_and_a_cancellation_stays_reported() {
    let mut state = streaming_state();
    apply_event(&mut state, UiEvent::Finished(Err("timeout".to_string())));
    assert_eq!(state.messages[1].content, "Request failed: timeout");
    assert_eq!(state.status, "timeout");

    let mut state = streaming_state();
    apply_event(&mut state, UiEvent::Delta("partial".to_string()));
    apply_event(&mut state, UiEvent::Finished(Err("timeout".to_string())));
    assert_eq!(state.messages[1].content, "partial");

    let mut state = streaming_state();
    state.status = "Generation cancelled".to_string();
    apply_event(&mut state, UiEvent::Finished(Ok(())));
    assert_eq!(state.status, "Generation cancelled");
}

#[test]
fn model_catalog_events_update_the_known_models() {
    let mut state = streaming_state();
    let action = apply_event(
        &mut state,
        UiEvent::ModelsLoaded(Ok(vec![" a ".to_string(), "".to_string(), "a".to_string(), "b".to_string()])),
    );
    assert_eq!(action, EventAction::RefreshModelCatalog);
    assert_eq!(state.discovered_models, vec!["a".to_string(), "b".to_string()]);
    assert_eq!(state.status, "Loaded 2 models from MiMo API");
    assert!(!state.models_loading);

    apply_event(&mut state, UiEvent::ModelsLoaded(Err("offline".to_string())));
    assert_eq!(state.discovered_models, vec!["a".to_string(), "b".to_string()]);
    assert_eq!(state.status, "Model refresh failed; using local suggestions (offline)");
}

#[test]
fn tool_skill_and_diagnostics_events_set_the_status() {
    let mut state = streaming_state();
    apply_event(&mut state, UiEvent::ToolStarted("Reading src/lib.rs".to_string()));
    assert_eq!(state.status, "Reading src/lib.rs");
    let write = ToolRequest {
        id: "call-1".to_string(),
        name: "write_file".to_string(),
        kind: ToolKind::FileWrite,
        summary: "Write notes.md".to_string(),
        status: ToolStatus::Failed,
    };
    let action = apply_event(&mut state, UiEvent::ToolFinished(write));
    assert_eq!(state.status, "Tool failed: Write notes.md");
    assert_eq!(action, EventAction::RefreshDiagnostics("after write_file".to_string()));
    let read = ToolRequest {
        id: "call-2".to_string(),
        name: "read_file".to_string(),
        kind: ToolKind::FileRead,
        summary: "Read notes.md".to_string(),
        status: ToolStatus::Completed,
    };
    assert_eq!(apply_event(&mut state, UiEvent::ToolFinished(read)), EventAction::Nothing);
    assert_eq!(state.status, "Read notes.md");

    let action = apply_event(
        &mut state,
        UiEvent::SkillInstalled(Ok(("rust".to_string(), "/skills/rust.md".to_string()))),
    );
    assert_eq!(action, EventAction::RefreshSkills);
    assert_eq!(state.status, "Installed skill rust at /skills/rust.md");

    apply_event(&mut state, UiEvent::DiagnosticsFinished(Ok("0 errors".to_string())));
    assert_eq!(state.diagnostics_summary, Some("0 errors".to_string()));
    apply_event(&mut state, UiEvent::DiagnosticsFinished(Err("no cargo".to_string())));
    assert_eq!(state.status, "Diagnostics failed: no cargo");
    apply_event(&mut state, UiEvent::Status("Ready".to_string()));
    assert_eq!(state.status, "Ready");
}

#[test]
fn the_initial_state_asks_for_a_missing_api_key() {
    let state = mimo_tui::events::initial_state(false, None);
    assert_eq!(state.status, "Missing API key: use /config api-key <key> or edit config.toml");
    assert!(state.messages.is_empty() && !state.streaming);
    let ready = mimo_tui::events::initial_state(true, Some("0 errors".to_string()));
    assert_eq!(ready.status, "Ready");
    assert_eq!(ready.diagnostics_summary, Some("0 errors".to_string()));
}
