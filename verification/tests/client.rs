use mimo_tui::client::{
    apply_choice, apply_choices, merge_tool_call_deltas, model_ids_from_response, resolve_model, sse_event, Choice, Delta,
    ModelInfo, ModelListResponse, SseEvent, ToolCallDelta, ToolFunctionDelta,
};
use mimo_tui::config::auto_route_model;
use mimo_tui::protocol::{ChatMessage, ToolCall, ToolFunction};

#[test]
fn merges_streamed_tool_call_deltas() {
    let mut tool_calls = Vec::new();
    merge_tool_call_deltas(
        &mut tool_calls,
        vec![
            ToolCallDelta {
                index: 0,
                id: Some("call_1".to_string()),
                kind: Some("function".to_string()),
                function: Some(ToolFunctionDelta {
                    name: Some("read_file".to_string()),
                    arguments: Some("{\"path\":\"src/".to_string()),
                }),
            },
            ToolCallDelta {
                index: 0,
                id: None,
                kind: None,
                function: Some(ToolFunctionDelta {
                    name: None,
                    arguments: Some("main.rs\"}".to_string()),
                }),
            },
        ],
    );

    assert_eq!(
        tool_calls,
        vec![ToolCall {
            id: "call_1".to_string(),
            kind: "function".to_string(),
            function: ToolFunction {
                name: "read_file".to_string(),
                arguments: "{\"path\":\"src/main.rs\"}".to_string(),
            },
        }]
    );
}

#[test]
fn merge_fills_gaps_with_blank_calls() {
    let mut tool_calls = Vec::new();
    merge_tool_call_deltas(
        &mut tool_calls,
        vec![ToolCallDelta {
            index: 2,
            id: Some("call_3".to_string()),
            kind: None,
            function: None,
        }],
    );
    assert_eq!(tool_calls.len(), 3);
    assert_eq!(tool_calls[0].kind, "function");
    assert_eq!(tool_calls[0].id, "");
    assert_eq!(tool_calls[2].id, "call_3");
}

#[test]
fn auto_router_uses_pro_for_complex_turns() {
    let messages = vec![ChatMessage::user(
        "Please investigate this failing build, review the architecture, and propose a refactor plan.\n```\nerror[E0308]\n```",
    )];
    assert_eq!(auto_route_model(&messages), "mimo-v2.5-pro");
}

#[test]
fn auto_router_uses_flash_for_short_turns() {
    let messages = vec![ChatMessage::user("Summarize this repo.")];
    assert_eq!(auto_route_model(&messages), "mimo-v2-flash");
}

#[test]
fn configured_model_is_used_unless_automatic() {
    let messages = vec![ChatMessage::user("Summarize this repo.")];
    assert_eq!(resolve_model("mimo-v2.5-pro", &messages), "mimo-v2.5-pro");
    assert_eq!(resolve_model("auto", &messages), "mimo-v2-flash");
}

#[test]
fn sse_lines_are_classified() {
    assert_eq!(sse_event(""), SseEvent::Ignore);
    assert_eq!(sse_event(": keep-alive"), SseEvent::Ignore);
    assert_eq!(sse_event("event: ping"), SseEvent::Ignore);
    assert_eq!(sse_event("data: [DONE]"), SseEvent::Done);
    assert_eq!(
        sse_event("data:  {\"a\":1} "),
        SseEvent::Data("{\"a\":1}".to_string())
    );
}

#[test]
fn applying_a_tool_call_choice_reports_the_finish_reason() {
    let mut content = String::new();
    let mut tool_calls = Vec::new();
    let mut finish_reason = None;
    let done = apply_choice(
        &mut content,
        &mut tool_calls,
        &mut finish_reason,
        Choice {
            delta: Delta {
                content: None,
                tool_calls: Some(vec![ToolCallDelta {
                    index: 0,
                    id: Some("call_1".to_string()),
                    kind: Some("function".to_string()),
                    function: Some(ToolFunctionDelta {
                        name: Some("read_file".to_string()),
                        arguments: Some("{\"path\":\"src/main.rs\"}".to_string()),
                    }),
                }]),
            },
            finish_reason: Some("tool_calls".to_string()),
        },
    );
    assert!(done);
    assert_eq!(finish_reason.as_deref(), Some("tool_calls"));
    assert_eq!(tool_calls.len(), 1);

    let done = apply_choice(
        &mut content,
        &mut tool_calls,
        &mut finish_reason,
        Choice {
            delta: Delta {
                content: Some("hi".to_string()),
                tool_calls: None,
            },
            finish_reason: Some("stop".to_string()),
        },
    );
    assert!(!done);
    assert_eq!(content, "hi");
}

#[test]
fn catalog_ids_are_trimmed_and_blank_ones_dropped() {
    let response = ModelListResponse {
        data: vec![
            ModelInfo { id: " mimo-v2-flash ".to_string() },
            ModelInfo { id: "   ".to_string() },
            ModelInfo { id: "mimo-v2.5-pro".to_string() },
        ],
    };
    assert_eq!(
        model_ids_from_response(response),
        vec!["mimo-v2-flash".to_string(), "mimo-v2.5-pro".to_string()]
    );
}

fn text_choice(text: &str, finish: Option<&str>) -> Choice {
    Choice {
        delta: Delta { content: Some(text.to_string()), tool_calls: None },
        finish_reason: finish.map(|f| f.to_string()),
    }
}

#[test]
fn choices_apply_in_order_until_the_reply_ends_in_tool_calls() {
    let mut content = String::new();
    let mut tool_calls = Vec::new();
    let mut finish_reason = None;
    let applied = apply_choices(
        &mut content,
        &mut tool_calls,
        &mut finish_reason,
        vec![
            text_choice("Hel", None),
            text_choice("lo", Some("tool_calls")),
            text_choice(" ignored", None),
        ],
    )
    .expect("no impossible index");
    assert!(applied.finished);
    assert_eq!(applied.streamed, vec!["Hel".to_string(), "lo".to_string()]);
    assert_eq!(content, "Hello");
    assert_eq!(finish_reason.as_deref(), Some("tool_calls"));

    let mut content = String::new();
    let applied = apply_choices(&mut content, &mut Vec::new(), &mut None, vec![text_choice("a", None)])
        .expect("no impossible index");
    assert!(!applied.finished);
    assert_eq!(content, "a");
}

#[test]
fn an_impossible_tool_call_index_is_refused() {
    let mut content = String::new();
    let bad = Choice {
        delta: Delta {
            content: Some("x".to_string()),
            tool_calls: Some(vec![ToolCallDelta { index: usize::MAX, id: None, kind: None, function: None }]),
        },
        finish_reason: None,
    };
    let applied = apply_choices(&mut content, &mut Vec::new(), &mut None, vec![text_choice("a", None), bad]);
    assert!(applied.is_none());
    assert_eq!(content, "a");
}
