//! What a prompt sends: the system messages (system prompt, the planning
//! note, active skills, memory, the plan), the attached context, the
//! visible conversation and the prompt itself, with the model it is routed
//! to and the status shown while the reply streams.
use vstd::prelude::*;

use crate::branch::{visible_messages, ConversationTree};
use crate::client::resolve_model;
use crate::config::{route_spec, AUTO_MODEL};
use crate::memory::notes_text_raw;
use crate::models::{AppMode, PlanItem};
use crate::protocol::{message_views, plain_message, ChatMessage, MessageView, Role};
use crate::session::{item_views, plan_summary, plan_summary_text};
use crate::text::{from_chars, owned, push_str, string_views, to_chars, trim_end, trim_end_vec};
use crate::tooling::streaming_status;
use crate::ui_state::{remember_draft, remembered};

verus! {

/// The system note that planning mode adds.
pub const PLAN_MODE_NOTE: &'static str = "You are in planning mode. Analyze the project, propose concrete implementation steps, and do not claim that files were modified or commands were executed unless the user explicitly switches to agent or yolo mode.";

/// A skill that is active and whose text could be loaded.
#[derive(Debug, Clone)]
pub struct LoadedSkill {
    pub name: String,
    pub content: String,
}

/// The system message of an active skill.
pub open spec fn skill_text(s: LoadedSkill) -> Seq<char> {
    "Active skill: "@ + s.name@ + "\n\n"@ + s.content@
}

pub open spec fn skill_messages(skills: Seq<LoadedSkill>) -> Seq<MessageView>
    decreases skills.len(),
{
    if skills.len() == 0 {
        Seq::empty()
    } else {
        skill_messages(skills.drop_last()).push(plain_message(Role::System, skill_text(skills.last())))
    }
}

/// The system message that carries the memory notes.
pub open spec fn memory_message_text(notes: Seq<Seq<char>>) -> Seq<char> {
    trim_end("User memory\n\n"@ + notes_text_raw(notes))
}

/// The messages that every request starts with: the system prompt, the
/// planning note in planning mode, one message per active skill, and the
/// memory notes where there are any.
pub open spec fn base_messages(
    system_prompt: Seq<char>,
    mode: AppMode,
    skills: Seq<LoadedSkill>,
    notes: Seq<Seq<char>>,
) -> Seq<MessageView> {
    seq![plain_message(Role::System, system_prompt)] + (if mode == AppMode::Plan {
        seq![plain_message(Role::System, PLAN_MODE_NOTE@)]
    } else {
        Seq::empty()
    }) + skill_messages(skills) + (if notes.len() > 0 {
        seq![plain_message(Role::System, memory_message_text(notes))]
    } else {
        Seq::empty()
    })
}

fn memory_message(notes: &Vec<String>) -> (r: String)
    ensures
        r@ == memory_message_text(string_views(notes@)),
{
    let mut output = owned("User memory\n\n");
    let ghost head = output@;
    let mut i: usize = 0;
    assert(string_views(notes@).take(0) =~= Seq::<Seq<char>>::empty());
    while i < notes.len()
        invariant
            i <= notes@.len(),
            head == "User memory\n\n"@,
            output@ == head + notes_text_raw(string_views(notes@).take(i as int)),
        decreases notes@.len() - i,
    {
        assert(string_views(notes@).take(i + 1).drop_last() =~= string_views(notes@).take(i as int));
        assert(string_views(notes@).take(i + 1).last() == notes@[i as int]@);
        push_str(&mut output, "- ");
        push_str(&mut output, notes[i].as_str());
        push_str(&mut output, "\n");
        i += 1;
    }
    assert(string_views(notes@).take(i as int) =~= string_views(notes@));
    from_chars(&trim_end_vec(&to_chars(output.as_str())))
}

/// The messages that every request starts with.
pub fn base_request_messages(
    system_prompt: &str,
    mode: AppMode,
    skills: &Vec<LoadedSkill>,
    notes: &Vec<String>,
) -> (r: Vec<ChatMessage>)
    ensures
        message_views(r@) == base_messages(system_prompt@, mode, skills@, string_views(notes@)),
{
    let mut messages: Vec<ChatMessage> = Vec::new();
    messages.push(ChatMessage::system(system_prompt));
    if mode == AppMode::Plan {
        messages.push(ChatMessage::system(PLAN_MODE_NOTE));
    }
    let ghost head = message_views(messages@);
    assert(head =~= seq![plain_message(Role::System, system_prompt@)] + (if mode == AppMode::Plan {
        seq![plain_message(Role::System, PLAN_MODE_NOTE@)]
    } else {
        Seq::empty()
    }));
    let mut i: usize = 0;
    assert(skills@.take(0) =~= Seq::<LoadedSkill>::empty());
    while i < skills.len()
        invariant
            i <= skills@.len(),
            message_views(messages@) == head + skill_messages(skills@.take(i as int)),
        decreases skills@.len() - i,
    {
        assert(skills@.take(i + 1).drop_last() =~= skills@.take(i as int));
        let mut text = owned("Active skill: ");
        push_str(&mut text, skills[i].name.as_str());
        push_str(&mut text, "\n\n");
        push_str(&mut text, skills[i].content.as_str());
        let ghost before = message_views(messages@);
        messages.push(ChatMessage::system(text.as_str()));
        assert(message_views(messages@) =~= before.push(plain_message(Role::System, text@)));
        i += 1;
    }
    assert(skills@.take(i as int) =~= skills@);
    if notes.len() > 0 {
        let text = memory_message(notes);
        let ghost before = message_views(messages@);
        messages.push(ChatMessage::system(text.as_str()));
        assert(message_views(messages@) =~= before.push(plain_message(Role::System, text@)));
    }
    assert(message_views(messages@) =~= base_messages(system_prompt@, mode, skills@, string_views(notes@)));
    messages
}

/// A request: the base messages, the plan checklist where it has items,
/// the attached context, then the visible conversation.
pub open spec fn request_messages_of(
    base: Seq<MessageView>,
    plan: Seq<(Seq<char>, bool)>,
    attached: Seq<MessageView>,
    conversation: Seq<MessageView>,
) -> Seq<MessageView> {
    base + (if plan.len() > 0 {
        seq![plain_message(Role::System, plan_summary_text(plan))]
    } else {
        Seq::empty()
    }) + attached + conversation
}

pub fn request_messages(
    base: Vec<ChatMessage>,
    plan_items: &Vec<PlanItem>,
    attached: Vec<ChatMessage>,
    conversation: Vec<ChatMessage>,
) -> (r: Vec<ChatMessage>)
    ensures
        message_views(r@) == request_messages_of(
            message_views(base@),
            item_views(plan_items@),
            message_views(attached@),
            message_views(conversation@),
        ),
{
    let ghost b = base@;
    let ghost a = attached@;
    let ghost c = conversation@;
    let mut messages = base;
    let mut attached = attached;
    let mut conversation = conversation;
    if plan_items.len() > 0 {
        let summary = plan_summary(plan_items);
        messages.push(ChatMessage::system(summary.as_str()));
    }
    messages.append(&mut attached);
    messages.append(&mut conversation);
    assert(message_views(messages@) =~= request_messages_of(
        message_views(b),
        item_views(plan_items@),
        message_views(a),
        message_views(c),
    ));
    messages
}

/// A request whose conversation is the active branch of `tree`.
pub fn conversation_request(
    base: Vec<ChatMessage>,
    plan_items: &Vec<PlanItem>,
    attached: Vec<ChatMessage>,
    tree: &ConversationTree,
) -> (r: Vec<ChatMessage>)
    requires
        tree.wf(),
    ensures
        message_views(r@) == request_messages_of(
            message_views(base@),
            item_views(plan_items@),
            message_views(attached@),
            visible_messages(tree@),
        ),
{
    request_messages(base, plan_items, attached, tree.current_messages())
}

/// What sending a prompt decides: the messages of the request, the model
/// it goes to, and the status shown while the reply streams.
pub struct PromptPlan {
    pub messages: Vec<ChatMessage>,
    pub model: String,
    pub status: String,
}

/// The model that a request goes to: the configured one, or the routed one
/// where the configured one is `auto`.
pub open spec fn resolved_model(configured: Seq<char>, messages: Seq<ChatMessage>) -> Seq<char> {
    if configured == AUTO_MODEL@ {
        route_spec(messages)
    } else {
        configured
    }
}

/// The status shown while a reply streams.
pub open spec fn streaming_status_text(configured: Seq<char>, routed: Seq<char>) -> Seq<char> {
    if configured == "auto"@ {
        "Auto routed to "@ + routed + "; streaming from MiMo..."@
    } else {
        "Streaming from MiMo..."@
    }
}

/// Prepares sending `prompt`: the request is `request` followed by the
/// prompt as a user message, the model is resolved for it, the status names
/// it, and the prompt is remembered among the recent drafts.
pub fn prepare_prompt(
    request: Vec<ChatMessage>,
    prompt: &str,
    configured_model: &str,
    drafts: &mut Vec<String>,
) -> (r: PromptPlan)
    ensures
        message_views(r.messages@) == message_views(request@).push(plain_message(Role::User, prompt@)),
        r.model@ == resolved_model(configured_model@, r.messages@),
        r.status@ == streaming_status_text(configured_model@, r.model@),
        string_views(final(drafts)@) == remembered(string_views(old(drafts)@), prompt@),
{
    let mut messages = request;
    let ghost before = message_views(messages@);
    messages.push(ChatMessage::user(prompt));
    assert(message_views(messages@) =~= before.push(plain_message(Role::User, prompt@)));
    let model = resolve_model(configured_model, messages.as_slice());
    let status = streaming_status(configured_model, model.as_str());
    remember_draft(drafts, prompt);
    PromptPlan { messages, model, status }
}

} // verus!
