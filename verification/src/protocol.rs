//! Chat and tool-call messages exchanged with an OpenAI-compatible API.
use vstd::prelude::*;

use crate::text::owned;

verus! {

#[derive(Debug, Clone, Copy, PartialEq, Eq, Structural)]
pub enum Role {
    System,
    User,
    Assistant,
    Tool,
}

#[derive(Debug, Clone, PartialEq, Eq)]
pub struct ToolFunction {
    pub name: String,
    pub arguments: String,
}

#[derive(Debug, Clone, PartialEq, Eq)]
pub struct ToolCall {
    pub id: String,
    pub kind: String,
    pub function: ToolFunction,
}

#[derive(Debug, Clone, PartialEq, Eq)]
pub struct ChatMessage {
    pub role: Role,
    pub content: String,
    pub tool_call_id: Option<String>,
    pub tool_calls: Option<Vec<ToolCall>>,
}

pub ghost struct ToolCallView {
    pub id: Seq<char>,
    pub kind: Seq<char>,
    pub name: Seq<char>,
    pub arguments: Seq<char>,
}

pub ghost struct MessageView {
    pub role: Role,
    pub content: Seq<char>,
    pub tool_call_id: Option<Seq<char>>,
    pub tool_calls: Option<Seq<ToolCallView>>,
}

pub open spec fn opt_view(s: Option<String>) -> Option<Seq<char>> {
    match s {
        Some(s) => Some(s@),
        None => None,
    }
}

impl View for ToolCall {
    type V = ToolCallView;

    open spec fn view(&self) -> ToolCallView {
        ToolCallView {
            id: self.id@,
            kind: self.kind@,
            name: self.function.name@,
            arguments: self.function.arguments@,
        }
    }
}

pub open spec fn tool_call_views(calls: Seq<ToolCall>) -> Seq<ToolCallView> {
    calls.map_values(|c: ToolCall| c@)
}

impl View for ChatMessage {
    type V = MessageView;

    open spec fn view(&self) -> MessageView {
        MessageView {
            role: self.role,
            content: self.content@,
            tool_call_id: opt_view(self.tool_call_id),
            tool_calls: match self.tool_calls {
                Some(calls) => Some(tool_call_views(calls@)),
                None => None,
            },
        }
    }
}

pub open spec fn message_views(messages: Seq<ChatMessage>) -> Seq<MessageView> {
    messages.map_values(|m: ChatMessage| m@)
}

/// A message with the given role and content and no tool fields.
pub open spec fn plain_message(role: Role, content: Seq<char>) -> MessageView {
    MessageView { role, content, tool_call_id: None, tool_calls: None }
}

impl ToolCall {
    /// A field-by-field copy.
    pub fn copy(&self) -> (r: ToolCall)
        ensures
            r == *self,
    {
        ToolCall {
            id: self.id.clone(),
            kind: self.kind.clone(),
            function: ToolFunction {
                name: self.function.name.clone(),
                arguments: self.function.arguments.clone(),
            },
        }
    }
}

/// A copy of each tool call.
pub fn copy_tool_calls(calls: &Vec<ToolCall>) -> (r: Vec<ToolCall>)
    ensures
        r@ == calls@,
{
    let mut r: Vec<ToolCall> = Vec::new();
    let mut i: usize = 0;
    while i < calls.len()
        invariant
            i <= calls.len(),
            r@ == calls@.take(i as int),
        decreases calls.len() - i,
    {
        r.push(calls[i].copy());
        i += 1;
        assert(calls@.take(i as int) == calls@.take((i - 1) as int).push(calls@[i - 1]));
    }
    assert(calls@.take(calls.len() as int) == calls@);
    r
}

/// A copy of each string.
pub fn copy_strings(v: &Vec<String>) -> (r: Vec<String>)
    ensures
        r@ == v@,
{
    let mut r: Vec<String> = Vec::new();
    let mut i: usize = 0;
    while i < v.len()
        invariant
            i <= v.len(),
            r@ == v@.take(i as int),
        decreases v.len() - i,
    {
        r.push(v[i].clone());
        i += 1;
        assert(v@.take(i as int) == v@.take((i - 1) as int).push(v@[i - 1]));
    }
    assert(v@.take(v.len() as int) == v@);
    r
}

/// A copy of an optional string.
pub fn copy_opt_string(s: &Option<String>) -> (r: Option<String>)
    ensures
        r == *s,
{
    match s {
        Some(s) => Some(s.clone()),
        None => None,
    }
}

impl ChatMessage {
    pub fn system(content: &str) -> (r: ChatMessage)
        ensures
            r@ == plain_message(Role::System, content@),
    {
        ChatMessage { role: Role::System, content: owned(content), tool_call_id: None, tool_calls: None }
    }

    pub fn user(content: &str) -> (r: ChatMessage)
        ensures
            r@ == plain_message(Role::User, content@),
    {
        ChatMessage { role: Role::User, content: owned(content), tool_call_id: None, tool_calls: None }
    }

    pub fn assistant(content: &str) -> (r: ChatMessage)
        ensures
            r@ == plain_message(Role::Assistant, content@),
    {
        ChatMessage {
            role: Role::Assistant,
            content: owned(content),
            tool_call_id: None,
            tool_calls: None,
        }
    }

    pub fn assistant_with_tool_calls(content: &str, tool_calls: Vec<ToolCall>) -> (r: ChatMessage)
        ensures
            r.role == Role::Assistant,
            r.content@ == content@,
            r.tool_call_id.is_none(),
            r.tool_calls == Some(tool_calls),
    {
        ChatMessage {
            role: Role::Assistant,
            content: owned(content),
            tool_call_id: None,
            tool_calls: Some(tool_calls),
        }
    }

    pub fn tool(tool_call_id: &str, content: &str) -> (r: ChatMessage)
        ensures
            r@ == (MessageView {
                role: Role::Tool,
                content: content@,
                tool_call_id: Some(tool_call_id@),
                tool_calls: None,
            }),
    {
        ChatMessage {
            role: Role::Tool,
            content: owned(content),
            tool_call_id: Some(owned(tool_call_id)),
            tool_calls: None,
        }
    }

    /// A field-by-field copy.
    pub fn copy(&self) -> (r: ChatMessage)
        ensures
            r@ == self@,
            r.role == self.role,
            r.content == self.content,
            r.tool_call_id == self.tool_call_id,
    {
        ChatMessage {
            role: self.role,
            content: self.content.clone(),
            tool_call_id: copy_opt_string(&self.tool_call_id),
            tool_calls: match &self.tool_calls {
                Some(calls) => Some(copy_tool_calls(calls)),
                None => None,
            },
        }
    }
}

} // verus!
