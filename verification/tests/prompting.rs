use mimo_tui::models::{AppMode, PlanItem};
use mimo_tui::prompting::{
    base_request_messages, prepare_prompt, request_messages, LoadedSkill, PLAN_MODE_NOTE,
};
use mimo_tui::protocol::{ChatMessage, Role};

#[test]
fn base_messages_carry_mode_skills_and_memory() {
    let skills = vec![LoadedSkill {
        name: "rust".to_string(),
        content: "Prefer iterators.".to_string(),
    }];
    let notes = vec!["Keep diffs small".to_string(), "Run tests".to_string()];
    let messages = base_request_messages("You are MiMo.", AppMode::Plan, &skills, &notes);
    let contents: Vec<&str> = messages.iter().map(|m| m.content.as_str()).collect();
    assert_eq!(
        contents,
        vec![
            "You are MiMo.",
            PLAN_MODE_NOTE,
            "Active skill: rust\n\nPrefer iterators.",
            "User memory\n\n- Keep diffs small\n- Run tests",
        ]
    );
    assert!(messages.iter().all(|m| m.role == Role::System));

    let plain = base_request_messages("You are MiMo.", AppMode::Agent, &Vec::new(), &Vec::new());
    assert_eq!(plain.len(), 1);
}

#[test]
fn request_puts_plan_and_attachments_before_the_conversation() {
    let base = vec![ChatMessage::system("sys")];
    let plan = vec![PlanItem::new("write tests")];
    let attached = vec![ChatMessage::system("attached")];
    let conversation = vec![ChatMessage::user("hello")];
    let messages = request_messages(base, &plan, attached, conversation);
    let contents: Vec<&str> = messages.iter().map(|m| m.content.as_str()).collect();
    assert_eq!(contents.len(), 4);
    assert_eq!(contents[0], "sys");
    assert!(contents[1].starts_with("Plan checklist"));
    assert_eq!(contents[2], "attached");
    assert_eq!(contents[3], "hello");

    let no_plan = request_messages(vec![ChatMessage::system("sys")], &Vec::new(), Vec::new(), Vec::new());
    assert_eq!(no_plan.len(), 1);
}

#[test]
fn preparing_a_prompt_routes_and_remembers_it() {
    let mut drafts = vec!["older".to_string(), "Summarize this repo.".to_string()];
    let plan = prepare_prompt(
        vec![ChatMessage::system("sys")],
        "Summarize this repo.",
        "auto",
        &mut drafts,
    );
    assert_eq!(plan.messages.len(), 2);
    assert_eq!(plan.messages[1].role, Role::User);
    assert_eq!(plan.messages[1].content, "Summarize this repo.");
    assert_eq!(plan.model, "mimo-v2-flash");
    assert_eq!(plan.status, "Auto routed to mimo-v2-flash; streaming from MiMo...");
    assert_eq!(drafts, vec!["Summarize this repo.".to_string(), "older".to_string()]);

    let fixed = prepare_prompt(Vec::new(), "hi", "mimo-v2.5-pro", &mut drafts);
    assert_eq!(fixed.model, "mimo-v2.5-pro");
    assert_eq!(fixed.status, "Streaming from MiMo...");
}
