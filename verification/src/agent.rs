//! The decisions of an agent turn: the conversation sent to the model grows
//! by each reply and by one tool message per requested tool call, and a
//! turn asks the model at most a fixed number of times. The runner performs
//! the requests, approvals and tool runs and hands the outcomes back.
use vstd::prelude::*;

use crate::client::AssistantResponse;
use crate::protocol::{message_views, plain_message, tool_call_views, ChatMessage, MessageView, Role, ToolCall};
use crate::text::{owned, push_str};
use crate::tooling::ApprovalRequirement;

verus! {

/// How many times one turn may ask the model before it gives up.
pub const MAX_TOOL_ROUNDS: usize = 25;

/// Why a turn stopped without an answer.
#[derive(Debug, Clone, Copy, PartialEq, Eq, Structural)]
pub enum AgentError {
    /// The model kept asking for tools for every allowed round.
    RoundLimit,
}

impl AgentError {
    pub fn message(&self) -> (r: String)
        ensures
            r@ == "agent exceeded 25 tool-call rounds; possible infinite loop"@,
    {
        owned("agent exceeded 25 tool-call rounds; possible infinite loop")
    }
}

/// What came of one requested tool call.
#[derive(Debug, Clone, PartialEq, Eq)]
pub enum ToolOutcome {
    /// The user refused the call, summarised as given.
    Denied(String),
    /// The tool ran and produced this content.
    Succeeded(String),
    /// The tool failed with this error.
    Failed(String),
}

/// The text that the model is sent for a tool call's outcome.
pub open spec fn outcome_text(outcome: ToolOutcome) -> Seq<char> {
    match outcome {
        ToolOutcome::Denied(summary) => "Tool request denied by the user: "@ + summary@,
        ToolOutcome::Succeeded(content) => content@,
        ToolOutcome::Failed(error) => "Tool error: "@ + error@,
    }
}

/// Whether a tool call runs without asking the user.
pub fn runs_without_asking(requirement: ApprovalRequirement) -> (r: bool)
    ensures
        r == (requirement == ApprovalRequirement::Auto),
{
    match requirement {
        ApprovalRequirement::Auto => true,
        ApprovalRequirement::Prompt => false,
    }
}

/// The conversation of a turn and how many times the model was asked.
pub struct AgentTurn {
    pub messages: Vec<ChatMessage>,
    pub rounds: usize,
}

/// The messages after a reply: a reply without tool calls adds its text
/// (where it has any), one with tool calls adds itself with them.
pub open spec fn after_reply(messages: Seq<MessageView>, reply_content: Seq<char>, calls: Seq<ToolCall>) -> Seq<
    MessageView,
> {
    if calls.len() == 0 {
        if reply_content.len() == 0 {
            messages
        } else {
            messages.push(plain_message(Role::Assistant, reply_content))
        }
    } else {
        messages.push(
            MessageView {
                role: Role::Assistant,
                content: reply_content,
                tool_call_id: None,
                tool_calls: Some(tool_call_views(calls)),
            },
        )
    }
}

impl AgentTurn {
    /// A turn that starts from the given conversation.
    pub fn new(messages: Vec<ChatMessage>) -> (r: AgentTurn)
        ensures
            r.messages@ == messages@,
            r.rounds == 0,
    {
        AgentTurn { messages, rounds: 0 }
    }

    /// Starts another request to the model, unless the turn has used all
    /// its rounds.
    pub fn begin_round(&mut self) -> (r: Result<(), AgentError>)
        requires
            old(self).rounds <= MAX_TOOL_ROUNDS,
        ensures
            final(self).messages == old(self).messages,
            old(self).rounds < MAX_TOOL_ROUNDS ==> r is Ok && final(self).rounds == old(self).rounds + 1,
            old(self).rounds == MAX_TOOL_ROUNDS ==> r == Err::<(), AgentError>(AgentError::RoundLimit)
                && final(self).rounds == old(self).rounds,
            final(self).rounds <= MAX_TOOL_ROUNDS,
    {
        if self.rounds >= MAX_TOOL_ROUNDS {
            return Err(AgentError::RoundLimit);
        }
        self.rounds = self.rounds + 1;
        Ok(())
    }

    /// Records the model's reply and gives the tool calls to run, in order;
    /// none means the turn is over.
    pub fn accept_reply(&mut self, reply: AssistantResponse) -> (r: Vec<ToolCall>)
        ensures
            final(self).rounds == old(self).rounds,
            message_views(final(self).messages@) == after_reply(
                message_views(old(self).messages@),
                reply.content@,
                reply.tool_calls@,
            ),
            r@ == reply.tool_calls@,
    {
        let ghost before = message_views(self.messages@);
        let AssistantResponse { content, tool_calls } = reply;
        if tool_calls.len() == 0 {
            if crate::text::to_chars(content.as_str()).len() > 0 {
                let m = ChatMessage::assistant(content.as_str());
                self.messages.push(m);
                assert(message_views(self.messages@) =~= before.push(m@));
            } else {
                assert(message_views(self.messages@) =~= before);
            }
            return tool_calls;
        }
        let calls = crate::protocol::copy_tool_calls(&tool_calls);
        let m = ChatMessage::assistant_with_tool_calls(content.as_str(), tool_calls);
        self.messages.push(m);
        assert(message_views(self.messages@) =~= before.push(m@));
        calls
    }

    /// Records what came of the tool call `call_id`.
    pub fn record_outcome(&mut self, call_id: &str, outcome: ToolOutcome)
        ensures
            final(self).rounds == old(self).rounds,
            message_views(final(self).messages@) == message_views(old(self).messages@).push(
                MessageView {
                    role: Role::Tool,
                    content: outcome_text(outcome),
                    tool_call_id: Some(call_id@),
                    tool_calls: None,
                },
            ),
    {
        let ghost before = message_views(self.messages@);
        let text = match &outcome {
            ToolOutcome::Denied(summary) => {
                let mut t = owned("Tool request denied by the user: ");
                push_str(&mut t, summary.as_str());
                t
            },
            ToolOutcome::Succeeded(content) => owned(content.as_str()),
            ToolOutcome::Failed(error) => {
                let mut t = owned("Tool error: ");
                push_str(&mut t, error.as_str());
                t
            },
        };
        let m = ChatMessage::tool(call_id, text.as_str());
        self.messages.push(m);
        assert(message_views(self.messages@) =~= before.push(m@));
    }
}

} // verus!
