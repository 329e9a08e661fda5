//! The parts of the chat-completions client that decide: merging streamed
//! tool-call fragments, reading server-sent event lines, applying stream
//! choices, and reading the model catalog.
use vstd::prelude::*;

use crate::config::{AUTO_MODEL, auto_route_model, route_spec};
use crate::protocol::{ChatMessage, ToolCall, ToolCallView, ToolFunction, opt_view, tool_call_views};
use crate::text::{eq_str, from_chars, owned, push_str, starts_with, to_chars, trim, trim_str, trim_vec};

verus! {

/// The text and tool calls of one assistant reply.
#[derive(Debug, Clone)]
pub struct AssistantResponse {
    pub content: String,
    pub tool_calls: Vec<ToolCall>,
}

/// A fragment of the function of a streamed tool call.
#[derive(Debug, Clone, Default)]
pub struct ToolFunctionDelta {
    pub name: Option<String>,
    pub arguments: Option<String>,
}

/// A fragment of the tool call at `index`.
#[derive(Debug, Clone, Default)]
pub struct ToolCallDelta {
    pub index: usize,
    pub id: Option<String>,
    pub kind: Option<String>,
    pub function: Option<ToolFunctionDelta>,
}

/// The new content and tool-call fragments of a stream choice.
#[derive(Debug, Clone, Default)]
pub struct Delta {
    pub content: Option<String>,
    pub tool_calls: Option<Vec<ToolCallDelta>>,
}

/// One choice of a streamed chunk.
#[derive(Debug, Clone)]
pub struct Choice {
    pub delta: Delta,
    pub finish_reason: Option<String>,
}

/// One streamed chunk.
#[derive(Debug, Clone)]
pub struct ChatChunk {
    pub choices: Vec<Choice>,
}

/// One entry of the model catalog.
#[derive(Debug, Clone)]
pub struct ModelInfo {
    pub id: String,
}

/// The model catalog.
#[derive(Debug, Clone)]
pub struct ModelListResponse {
    pub data: Vec<ModelInfo>,
}

/// A tool call before any fragment arrived.
pub open spec fn blank_call() -> ToolCallView {
    ToolCallView { id: Seq::empty(), kind: "function"@, name: Seq::empty(), arguments: Seq::empty() }
}

/// `calls` extended with blank calls until index `n` exists.
pub open spec fn padded(calls: Seq<ToolCallView>, n: nat) -> Seq<ToolCallView> {
    if n < calls.len() {
        calls
    } else {
        calls + Seq::new((n + 1 - calls.len()) as nat, |i: int| blank_call())
    }
}

pub open spec fn appended(s: Seq<char>, extra: Option<String>) -> Seq<char> {
    match extra {
        Some(e) => s + e@,
        None => s,
    }
}

/// The call `c` with the fragment `d` applied: the id is taken while the
/// call has none, the kind is replaced, name and arguments are extended.
pub open spec fn merged_call(c: ToolCallView, d: ToolCallDelta) -> ToolCallView {
    ToolCallView {
        id: match d.id {
            Some(i) => if c.id.len() == 0 {
                i@
            } else {
                c.id
            },
            None => c.id,
        },
        kind: match d.kind {
            Some(k) => k@,
            None => c.kind,
        },
        name: match d.function {
            Some(f) => appended(c.name, f.name),
            None => c.name,
        },
        arguments: match d.function {
            Some(f) => appended(c.arguments, f.arguments),
            None => c.arguments,
        },
    }
}

pub open spec fn merge_one(calls: Seq<ToolCallView>, d: ToolCallDelta) -> Seq<ToolCallView> {
    let p = padded(calls, d.index as nat);
    p.update(d.index as int, merged_call(p[d.index as int], d))
}

/// The calls after the fragments `ds`, in order.
pub open spec fn merge_all(calls: Seq<ToolCallView>, ds: Seq<ToolCallDelta>) -> Seq<ToolCallView>
    decreases ds.len(),
{
    if ds.len() == 0 {
        calls
    } else {
        merge_one(merge_all(calls, ds.drop_last()), ds.last())
    }
}

fn blank_tool_call() -> (r: ToolCall)
    ensures
        r@ == blank_call(),
{
    ToolCall {
        id: String::new(),
        kind: owned("function"),
        function: ToolFunction { name: String::new(), arguments: String::new() },
    }
}

fn extended(s: &String, extra: &Option<String>) -> (r: String)
    ensures
        r@ == appended(s@, *extra),
{
    let mut r = s.clone();
    match extra {
        Some(e) => push_str(&mut r, e.as_str()),
        None => {},
    }
    r
}

/// Applies streamed tool-call fragments to the calls gathered so far.
pub fn merge_tool_call_deltas(tool_calls: &mut Vec<ToolCall>, deltas: Vec<ToolCallDelta>)
    requires
        forall|k: int| 0 <= k < deltas@.len() ==> #[trigger] deltas@[k].index < usize::MAX,
    ensures
        tool_call_views(final(tool_calls)@) == merge_all(tool_call_views(old(tool_calls)@), deltas@),
{
    let ghost start = tool_call_views(tool_calls@);
    let mut k: usize = 0;
    assert(deltas@.take(0) =~= Seq::<ToolCallDelta>::empty());
    while k < deltas.len()
        invariant
            k <= deltas@.len(),
            forall|j: int| 0 <= j < deltas@.len() ==> #[trigger] deltas@[j].index < usize::MAX,
            tool_call_views(tool_calls@) == merge_all(start, deltas@.take(k as int)),
        decreases deltas@.len() - k,
    {
        let delta = &deltas[k];
        let ghost before = tool_call_views(tool_calls@);
        while tool_calls.len() <= delta.index
            invariant
                delta.index < usize::MAX,
                tool_calls@.len() <= delta.index + 1 || tool_calls@.len() == before.len(),
                tool_call_views(tool_calls@) == if before.len() <= tool_calls@.len() {
                    before + Seq::new((tool_calls@.len() - before.len()) as nat, |i: int| blank_call())
                } else {
                    before
                },
                before.len() <= tool_calls@.len(),
            decreases delta.index + 1 - tool_calls@.len(),
        {
            let ghost b = tool_calls@;
            tool_calls.push(blank_tool_call());
            assert(tool_call_views(tool_calls@) =~= tool_call_views(b).push(blank_call()));
            assert(before + Seq::new((tool_calls@.len() - before.len()) as nat, |i: int| blank_call()) =~= (before
                + Seq::new((b.len() - before.len()) as nat, |i: int| blank_call())).push(blank_call()));
        }
        proof {
            if before.len() > delta.index {
                assert(before + Seq::new(0, |i: int| blank_call()) =~= before);
            }
            assert(tool_call_views(tool_calls@) =~= padded(before, delta.index as nat));
        }
        let i = delta.index;
        let id = match &delta.id {
            Some(new_id) => if tool_calls[i].id.as_str().is_empty() {
                new_id.clone()
            } else {
                tool_calls[i].id.clone()
            },
            None => tool_calls[i].id.clone(),
        };
        let kind = match &delta.kind {
            Some(k) => k.clone(),
            None => tool_calls[i].kind.clone(),
        };
        let (name, arguments) = match &delta.function {
            Some(f) => (extended(&tool_calls[i].function.name, &f.name), extended(&tool_calls[i].function.arguments, &f.arguments)),
            None => (tool_calls[i].function.name.clone(), tool_calls[i].function.arguments.clone()),
        };
        let call = ToolCall { id, kind, function: ToolFunction { name, arguments } };
        proof {
            assert(tool_call_views(tool_calls@)[i as int] == tool_calls@[i as int]@);
            assert(call@ == merged_call(tool_calls@[i as int]@, *delta));
        }
        let ghost mid = tool_calls@;
        tool_calls.set(i, call);
        proof {
            assert(tool_call_views(tool_calls@) =~= tool_call_views(mid).update(i as int, call@));
            assert(deltas@.take(k + 1).drop_last() =~= deltas@.take(k as int));
            assert(deltas@.take(k + 1).last() == deltas@[k as int]);
        }
        k += 1;
    }
    assert(deltas@.take(deltas@.len() as int) =~= deltas@);
}

/// The catalog ids, trimmed, without the blank ones.
pub open spec fn catalog_ids(data: Seq<ModelInfo>) -> Seq<Seq<char>>
    decreases data.len(),
{
    if data.len() == 0 {
        Seq::empty()
    } else if trim(data.last().id@).len() > 0 {
        catalog_ids(data.drop_last()).push(trim(data.last().id@))
    } else {
        catalog_ids(data.drop_last())
    }
}

/// The model ids of a catalog response, trimmed, blank ones left out.
pub fn model_ids_from_response(response: ModelListResponse) -> (r: Vec<String>)
    ensures
        crate::text::string_views(r@) == catalog_ids(response.data@),
{
    let mut r: Vec<String> = Vec::new();
    let mut i: usize = 0;
    while i < response.data.len()
        invariant
            i <= response.data@.len(),
            crate::text::string_views(r@) == catalog_ids(response.data@.take(i as int)),
        decreases response.data@.len() - i,
    {
        assert(response.data@.take(i + 1).drop_last() =~= response.data@.take(i as int));
        assert(response.data@.take(i + 1).last() == response.data@[i as int]);
        let t = trim_str(response.data[i].id.as_str());
        if t.len() > 0 {
            let ghost before = r@;
            r.push(from_chars(&t));
            assert(crate::text::string_views(r@) =~= crate::text::string_views(before).push(t@));
        }
        i += 1;
    }
    assert(response.data@.take(response.data@.len() as int) =~= response.data@);
    r
}

/// What a line of the event stream asks for.
#[derive(Debug, Clone, PartialEq, Eq)]
pub enum SseEvent {
    /// A blank line, a comment or a field other than `data`.
    Ignore,
    /// The `[DONE]` marker.
    Done,
    /// The payload of a `data:` field, trimmed.
    Data(String),
}

pub ghost enum SseEventView {
    Ignore,
    Done,
    Data(Seq<char>),
}

pub open spec fn sse_event_view(e: SseEvent) -> SseEventView {
    match e {
        SseEvent::Ignore => SseEventView::Ignore,
        SseEvent::Done => SseEventView::Done,
        SseEvent::Data(s) => SseEventView::Data(s@),
    }
}

/// What a trimmed stream line asks for.
pub open spec fn sse_event_spec(line: Seq<char>) -> SseEventView {
    if line.len() == 0 || line[0] == ':' || !starts_with(line, "data:"@) {
        SseEventView::Ignore
    } else {
        let data = trim(line.skip(5));
        if data == "[DONE]"@ {
            SseEventView::Done
        } else {
            SseEventView::Data(data)
        }
    }
}

/// Reads one trimmed line of the event stream.
pub fn sse_event(line: &str) -> (r: SseEvent)
    ensures
        sse_event_view(r) == sse_event_spec(line@),
{
    let chars = to_chars(line);
    let prefix = to_chars("data:");
    if chars.len() == 0 || chars[0] == ':' || !crate::text::starts_with_chars(&chars, &prefix) {
        return SseEvent::Ignore;
    }
    proof {
        reveal_strlit("data:");
    }
    let rest = crate::text::slice_vec(&chars, 5, chars.len());
    assert(rest@ == chars@.skip(5));
    let data = trim_vec(&rest);
    if eq_str(&data, "[DONE]") {
        SseEvent::Done
    } else {
        SseEvent::Data(from_chars(&data))
    }
}

/// Applies one stream choice: keeps its finish reason when it has one,
/// appends its content, merges its tool-call fragments, and says whether
/// the reply now ends in tool calls.
pub fn apply_choice(
    content: &mut String,
    tool_calls: &mut Vec<ToolCall>,
    finish_reason: &mut Option<String>,
    choice: Choice,
) -> (r: bool)
    requires
        choice.delta.tool_calls matches Some(ds) ==> forall|k: int|
            0 <= k < ds@.len() ==> #[trigger] ds@[k].index < usize::MAX,
    ensures
        opt_view(*final(finish_reason)) == if choice.finish_reason is Some {
            opt_view(choice.finish_reason)
        } else {
            opt_view(*old(finish_reason))
        },
        final(content)@ == appended(old(content)@, choice.delta.content),
        tool_call_views(final(tool_calls)@) == match choice.delta.tool_calls {
            Some(ds) => merge_all(tool_call_views(old(tool_calls)@), ds@),
            None => tool_call_views(old(tool_calls)@),
        },
        r == (opt_view(*final(finish_reason)) == Some("tool_calls"@)),
{
    let Choice { delta, finish_reason: reason } = choice;
    if reason.is_some() {
        *finish_reason = reason;
    }
    match &delta.content {
        Some(text) => push_str(content, text.as_str()),
        None => {},
    }
    match delta.tool_calls {
        Some(ds) => merge_tool_call_deltas(tool_calls, ds),
        None => {},
    }
    match finish_reason {
        Some(f) => eq_str(&to_chars(f.as_str()), "tool_calls"),
        None => false,
    }
}

/// The model a request is sent to: the configured one, unless it is the
/// automatic model, in which case the router picks one for the messages.
pub fn resolve_model(configured: &str, messages: &[ChatMessage]) -> (r: String)
    ensures
        r@ == (if configured@ == AUTO_MODEL@ {
            route_spec(messages@)
        } else {
            configured@
        }),
{
    if eq_str(&to_chars(configured), AUTO_MODEL) {
        owned(auto_route_model(messages))
    } else {
        owned(configured)
    }
}

/// What a reply holds so far: its text, its tool calls and the finish
/// reason last given.
pub ghost struct ReplyView {
    pub content: Seq<char>,
    pub calls: Seq<ToolCallView>,
    pub finish: Option<Seq<char>>,
}

/// A tool-call fragment at the largest index names no call that can exist.
pub open spec fn impossible_index(c: Choice) -> bool {
    c.delta.tool_calls matches Some(ds) && exists|k: int| 0 <= k < ds@.len() && #[trigger] ds@[k].index == usize::MAX
}

/// One choice applied, as `apply_choice` does it.
pub open spec fn choice_step(st: ReplyView, c: Choice) -> ReplyView {
    ReplyView {
        content: appended(st.content, c.delta.content),
        calls: match c.delta.tool_calls {
            Some(ds) => merge_all(st.calls, ds@),
            None => st.calls,
        },
        finish: if c.finish_reason is Some {
            opt_view(c.finish_reason)
        } else {
            st.finish
        },
    }
}

/// The choices of a chunk applied in order, up to the first that makes the
/// reply end in tool calls: the reply, whether it ended so (`None` where a
/// choice names an impossible index first), and how many were applied.
pub open spec fn choices_outcome(st: ReplyView, cs: Seq<Choice>) -> (ReplyView, Option<bool>, nat)
    decreases cs.len(),
{
    if cs.len() == 0 {
        (st, Some(false), 0)
    } else if impossible_index(cs[0]) {
        (st, None, 0)
    } else {
        let next = choice_step(st, cs[0]);
        if next.finish == Some("tool_calls"@) {
            (next, Some(true), 1)
        } else {
            let (fin, r, n) = choices_outcome(next, cs.drop_first());
            (fin, r, n + 1)
        }
    }
}

/// The texts that the first `n` choices stream, in order.
pub open spec fn streamed_texts(cs: Seq<Choice>, n: int) -> Seq<Seq<char>>
    decreases n,
{
    if n <= 0 || cs.len() == 0 {
        Seq::empty()
    } else {
        let head = match cs[0].delta.content {
            Some(t) => seq![t@],
            None => Seq::empty(),
        };
        head + streamed_texts(cs.drop_first(), n - 1)
    }
}

/// What applying a chunk's choices gave.
pub struct ChoicesApplied {
    /// The reply now ends in tool calls.
    pub finished: bool,
    /// The texts streamed by the applied choices, to show in order.
    pub streamed: Vec<String>,
}

/// Applies the choices of a chunk in order until the reply ends in tool
/// calls; refuses (with `None`) at the first choice that names an
/// impossible tool-call index, keeping what came before it.
pub fn apply_choices(
    content: &mut String,
    tool_calls: &mut Vec<ToolCall>,
    finish_reason: &mut Option<String>,
    choices: Vec<Choice>,
) -> (r: Option<ChoicesApplied>)
    ensures
        ({
            let (fin, outcome, n) = choices_outcome(
                ReplyView {
                    content: old(content)@,
                    calls: tool_call_views(old(tool_calls)@),
                    finish: opt_view(*old(finish_reason)),
                },
                choices@,
            );
            &&& final(content)@ == fin.content
            &&& tool_call_views(final(tool_calls)@) == fin.calls
            &&& opt_view(*final(finish_reason)) == fin.finish
            &&& match r {
                None => outcome is None,
                Some(a) => outcome == Some(a.finished) && crate::text::string_views(a.streamed@) == streamed_texts(
                    choices@,
                    n as int,
                ),
            }
        }),
{
    let ghost start = ReplyView {
        content: content@,
        calls: tool_call_views(tool_calls@),
        finish: opt_view(*finish_reason),
    };
    let ghost all = choices@;
    let mut rest = choices;
    let mut streamed: Vec<String> = Vec::new();
    let ghost mut done: nat = 0;
    while rest.len() > 0
        invariant
            done + rest@.len() == all.len(),
            rest@ == all.skip(done as int),
            start == (ReplyView {
                content: old(content)@,
                calls: tool_call_views(old(tool_calls)@),
                finish: opt_view(*old(finish_reason)),
            }),
            all == choices@,
            ({
                let here = ReplyView {
                    content: content@,
                    calls: tool_call_views(tool_calls@),
                    finish: opt_view(*finish_reason),
                };
                let (f1, o1, n1) = choices_outcome(start, all);
                let (f2, o2, n2) = choices_outcome(here, rest@);
                &&& f1 == f2
                &&& o1 == o2
                &&& n1 == done + n2
                &&& crate::text::string_views(streamed@) + streamed_texts(rest@, n2 as int) == streamed_texts(all, n1 as int)
            }),
        decreases rest@.len(),
    {
        let ghost here = ReplyView {
            content: content@,
            calls: tool_call_views(tool_calls@),
            finish: opt_view(*finish_reason),
        };
        let ghost rest_before = rest@;
        let c = rest.remove(0);
        assert(rest@ =~= rest_before.drop_first());
        let mut bad = false;
        match &c.delta.tool_calls {
            Some(ds) => {
                let mut k: usize = 0;
                while k < ds.len()
                    invariant
                        k <= ds@.len(),
                        !bad ==> forall|q: int| 0 <= q < k ==> #[trigger] ds@[q].index < usize::MAX,
                        bad ==> exists|q: int| 0 <= q < ds@.len() && #[trigger] ds@[q].index == usize::MAX,
                    decreases ds@.len() - k,
                {
                    if ds[k].index == usize::MAX {
                        bad = true;
                    }
                    k += 1;
                }
            },
            None => {},
        }
        if bad {
            proof {
                assert(c == rest_before[0]);
                assert(impossible_index(c));
                assert(choices_outcome(here, rest_before) == (here, None::<bool>, 0nat));
                assert(start == ReplyView {
                    content: old(content)@,
                    calls: tool_call_views(old(tool_calls)@),
                    finish: opt_view(*old(finish_reason)),
                });
                assert(choices_outcome(start, all).0 == here);
                assert(choices_outcome(start, all).1 is None);
            }
            return None;
        }
        let ghost text = c.delta.content;
        let emitted: Option<String> = match &c.delta.content {
            Some(t) => Some(owned(t.as_str())),
            None => None,
        };
        proof {
            assert(c == rest_before[0]);
            assert(!impossible_index(c));
        }
        let finished = apply_choice(content, tool_calls, finish_reason, c);
        let ghost now = ReplyView {
            content: content@,
            calls: tool_call_views(tool_calls@),
            finish: opt_view(*finish_reason),
        };
        assert(now == choice_step(here, rest_before[0]));
        let ghost before_streamed = crate::text::string_views(streamed@);
        match emitted {
            Some(t) => streamed.push(t),
            None => {},
        }
        proof {
            let head = match text {
                Some(t) => seq![t@],
                None => Seq::<Seq<char>>::empty(),
            };
            assert(crate::text::string_views(streamed@) =~= before_streamed + head);
            let (f2, o2, n2) = choices_outcome(here, rest_before);
            if !finished {
                let (f3, o3, n3) = choices_outcome(choice_step(here, rest_before[0]), rest@);
                assert(streamed_texts(rest_before, n2 as int) == head + streamed_texts(rest@, n3 as int));
                assert(crate::text::string_views(streamed@) + streamed_texts(rest@, n3 as int) =~= before_streamed
                    + streamed_texts(rest_before, n2 as int));
            } else {
                assert(streamed_texts(rest_before, 1) == head + streamed_texts(rest@, 0));
                assert(streamed_texts(rest@, 0) =~= Seq::<Seq<char>>::empty());
            }
        }
        if finished {
            proof {
                assert(choices_outcome(here, rest_before) == (now, Some(true), 1nat));
                assert(start == ReplyView {
                    content: old(content)@,
                    calls: tool_call_views(old(tool_calls)@),
                    finish: opt_view(*old(finish_reason)),
                });
                assert(choices_outcome(start, all).0 == now);
                assert(choices_outcome(start, all).1 == Some(true));
                assert(crate::text::string_views(streamed@) == streamed_texts(all, choices_outcome(start, all).2 as int));
            }
            return Some(ChoicesApplied { finished: true, streamed });
        }
        proof {
            done = done + 1;
        }
    }
    proof {
        assert(streamed_texts(rest@, 0) =~= Seq::<Seq<char>>::empty());
    }
    Some(ChoicesApplied { finished: false, streamed })
}

} // verus!
