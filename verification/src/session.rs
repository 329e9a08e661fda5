//! The conversation commands of the interface that decide without the
//! terminal: the plan checklist, making a branch from a numbered message,
//! and the list of branches.
use vstd::prelude::*;

use crate::branch::{
    branched, current_path_of, summary_view, BranchSummary, ConversationTree, SummaryView, BranchView,
    NodeView, TreeView, TreeError, default_branch_view, empty_tree, first_message_ids, has_path_entries,
    path_problem, paths_consistent, repaired, sequence_ids_bounded, tree_error_text, visible_messages,
};
use crate::protocol::message_views;
use crate::ids::{branch_prefix, seq_id};
use crate::commands::PlanCommand;
use crate::models::PlanItem;
use crate::protocol::{ChatMessage, Role};
use crate::text::{decimal, owned, push_str, trim_end, trim_end_vec, to_chars, from_chars, usize_to_string};

verus! {

/// A command's reply: a message for the conversation, if any, and the
/// status line.
#[derive(Debug, Clone, PartialEq, Eq)]
pub struct CommandReply {
    pub message: Option<String>,
    pub status: String,
}

pub open spec fn item_view(i: PlanItem) -> (Seq<char>, bool) {
    (i.text@, i.done)
}

pub open spec fn item_views(items: Seq<PlanItem>) -> Seq<(Seq<char>, bool)> {
    items.map_values(|i: PlanItem| item_view(i))
}

pub open spec fn plan_lines(items: Seq<(Seq<char>, bool)>) -> Seq<char>
    decreases items.len(),
{
    if items.len() == 0 {
        Seq::empty()
    } else {
        plan_lines(items.drop_last()) + decimal(items.len()) + ". ["@ + if items.last().1 {
            "x"@
        } else {
            " "@
        } + "] "@ + items.last().0 + "\n"@
    }
}

/// The checklist as `/plan` shows it: numbered items marked `[x]` when done.
pub open spec fn plan_summary_text(items: Seq<(Seq<char>, bool)>) -> Seq<char> {
    if items.len() == 0 {
        "Plan checklist\n\nNo plan items yet."@
    } else {
        "Plan checklist\n\n"@ + plan_lines(items)
    }
}

pub fn plan_summary(items: &Vec<PlanItem>) -> (r: String)
    ensures
        r@ == plan_summary_text(item_views(items@)),
{
    if items.len() == 0 {
        return owned("Plan checklist\n\nNo plan items yet.");
    }
    let mut out = owned("Plan checklist\n\n");
    let ghost head = out@;
    let mut i: usize = 0;
    while i < items.len()
        invariant
            i <= items@.len(),
            head == "Plan checklist\n\n"@,
            out@ == head + plan_lines(item_views(items@.take(i as int))),
        decreases items@.len() - i,
    {
        assert(item_views(items@.take(i + 1)).drop_last() =~= item_views(items@.take(i as int)));
        assert(item_views(items@.take(i + 1)).last() == item_view(items@[i as int]));
        push_str(&mut out, usize_to_string(i + 1).as_str());
        push_str(&mut out, ". [");
        push_str(&mut out, if items[i].done { "x" } else { " " });
        push_str(&mut out, "] ");
        push_str(&mut out, items[i].text.as_str());
        push_str(&mut out, "\n");
        assert(out@ =~= head + plan_lines(item_views(items@.take(i + 1))));
        i += 1;
    }
    assert(items@.take(i as int) =~= items@);
    out
}

/// The position (counted from 0) that item number `n` has, where item
/// numbers start at 1 and 0 is read as 1.
pub open spec fn item_slot(n: nat) -> int {
    if n == 0 {
        0
    } else {
        n - 1
    }
}

fn numbered(prefix: &str, n: usize) -> (r: String)
    ensures
        r@ == prefix@ + decimal(n as nat),
{
    let mut s = owned(prefix);
    push_str(&mut s, usize_to_string(n).as_str());
    s
}

/// What a `/plan` command leaves: the checklist, the message it shows (if
/// any) and the status.
pub open spec fn plan_command_effect(items: Seq<PlanItem>, command: PlanCommand) -> (
    Seq<(Seq<char>, bool)>,
    Option<Seq<char>>,
    Seq<char>,
) {
    let v = item_views(items);
    match command {
        PlanCommand::Show => (v, Some(plan_summary_text(v)), "Plan checklist shown"@),
        PlanCommand::Add(text) => (v.push((text@, false)), None, "Added plan item: "@ + text@),
        PlanCommand::Done(n) => {
            let k = item_slot(n as nat);
            if k < items.len() {
                (v.update(k, (items[k].text@, true)), None, "Completed plan item "@ + decimal(n as nat))
            } else {
                (v, None, "Unknown plan item "@ + decimal(n as nat))
            }
        },
        PlanCommand::Undo(n) => {
            let k = item_slot(n as nat);
            if k < items.len() {
                (v.update(k, (items[k].text@, false)), None, "Reopened plan item "@ + decimal(n as nat))
            } else {
                (v, None, "Unknown plan item "@ + decimal(n as nat))
            }
        },
        PlanCommand::Remove(n) => {
            let k = item_slot(n as nat);
            if k < items.len() {
                (v.remove(k), None, "Removed plan item "@ + decimal((k + 1) as nat))
            } else {
                (v, None, "Unknown plan item "@ + decimal((k + 1) as nat))
            }
        },
        PlanCommand::Clear => (Seq::empty(), None, "Plan checklist cleared"@),
    }
}

/// Applies a `/plan` command to the checklist.
pub fn apply_plan_command(items: &mut Vec<PlanItem>, command: PlanCommand) -> (r: CommandReply)
    ensures
        (item_views(final(items)@), crate::protocol::opt_view(r.message), r.status@) == plan_command_effect(
            old(items)@,
            command,
        ),
{
    let ghost before = item_views(items@);
    match command {
        PlanCommand::Show => {
            let m = plan_summary(items);
            CommandReply { message: Some(m), status: owned("Plan checklist shown") }
        },
        PlanCommand::Add(text) => {
            let status = {
                let mut s = owned("Added plan item: ");
                push_str(&mut s, text.as_str());
                s
            };
            let item = PlanItem::new(text.as_str());
            items.push(item);
            assert(item_views(items@) =~= before.push((text@, false)));
            CommandReply { message: None, status }
        },
        PlanCommand::Done(n) | PlanCommand::Undo(n) => {
            let done = match command {
                PlanCommand::Done(_) => true,
                _ => false,
            };
            let k = if n == 0 {
                0
            } else {
                n - 1
            };
            if k < items.len() {
                let text = owned(items[k].text.as_str());
                items.set(k, PlanItem { text, done });
                assert(item_views(items@) =~= before.update(k as int, (old(items)@[k as int].text@, done)));
                CommandReply {
                    message: None,
                    status: numbered(if done { "Completed plan item " } else { "Reopened plan item " }, n),
                }
            } else {
                CommandReply { message: None, status: numbered("Unknown plan item ", n) }
            }
        },
        PlanCommand::Remove(n) => {
            let k = if n == 0 {
                0
            } else {
                n - 1
            };
            if k < items.len() {
                items.remove(k);
                assert(item_views(items@) =~= before.remove(k as int));
                CommandReply { message: None, status: numbered("Removed plan item ", k + 1) }
            } else {
                proof {
                    assert(k < usize::MAX);
                }
                CommandReply { message: None, status: numbered("Unknown plan item ", k + 1) }
            }
        },
        PlanCommand::Clear => {
            items.clear();
            assert(item_views(items@) =~= Seq::<(Seq<char>, bool)>::empty());
            CommandReply { message: None, status: owned("Plan checklist cleared") }
        },
    }
}

/// The message number (from 1) that `/branch` uses when none is given: the
/// last user message, or else the last message that is not a system one.
pub open spec fn default_branch_number(roles: Seq<Role>) -> Option<nat> {
    match last_index_where(roles, |r: Role| r == Role::User) {
        Some(i) => Some((i + 1) as nat),
        None => match last_index_where(roles, |r: Role| r != Role::System) {
            Some(i) => Some((i + 1) as nat),
            None => None,
        },
    }
}

pub open spec fn last_index_where(roles: Seq<Role>, p: spec_fn(Role) -> bool) -> Option<int>
    decreases roles.len(),
{
    if roles.len() == 0 {
        None
    } else if p(roles.last()) {
        Some(roles.len() - 1)
    } else {
        last_index_where(roles.drop_last(), p)
    }
}

pub open spec fn roles_of(messages: Seq<ChatMessage>) -> Seq<Role> {
    messages.map_values(|m: ChatMessage| m.role)
}

proof fn lemma_last_index_where(roles: Seq<Role>, p: spec_fn(Role) -> bool)
    ensures
        last_index_where(roles, p) matches Some(i) ==> 0 <= i < roles.len(),
    decreases roles.len(),
{
    if roles.len() > 0 && !p(roles.last()) {
        lemma_last_index_where(roles.drop_last(), p);
    }
}

pub fn default_branch_source_number(messages: &Vec<ChatMessage>) -> (r: Option<usize>)
    ensures
        match r {
            Some(n) => default_branch_number(roles_of(messages@)) == Some(n as nat),
            None => default_branch_number(roles_of(messages@)) is None,
        },
{
    let ghost roles = roles_of(messages@);
    let mut i = messages.len();
    assert(roles.take(i as int) =~= roles);
    while i > 0 && messages[i - 1].role != Role::User
        invariant
            i <= messages@.len(),
            roles == roles_of(messages@),
            last_index_where(roles, |r: Role| r == Role::User) == last_index_where(
                roles.take(i as int),
                |r: Role| r == Role::User,
            ),
        decreases i,
    {
        assert(roles.take(i as int).drop_last() =~= roles.take(i - 1));
        assert(roles.take(i as int).last() == messages@[i - 1].role);
        i -= 1;
    }
    if i > 0 {
        assert(roles.take(i as int).last() == messages@[i - 1].role);
        return Some(i);
    }
    let mut j = messages.len();
    assert(roles.take(j as int) =~= roles);
    while j > 0 && messages[j - 1].role == Role::System
        invariant
            j <= messages@.len(),
            roles == roles_of(messages@),
            last_index_where(roles, |r: Role| r != Role::System) == last_index_where(
                roles.take(j as int),
                |r: Role| r != Role::System,
            ),
        decreases j,
    {
        assert(roles.take(j as int).drop_last() =~= roles.take(j - 1));
        assert(roles.take(j as int).last() == messages@[j - 1].role);
        j -= 1;
    }
    if j > 0 {
        assert(roles.take(j as int).last() == messages@[j - 1].role);
        Some(j)
    } else {
        None
    }
}

/// What `/branch` does, given the visible messages: refuses while a reply
/// streams, without messages, for number 0, for a number past the active
/// branch or of a system message; otherwise the tree gains a branch from
/// that message.
pub open spec fn branch_number_checks(
    streaming: bool,
    messages: Seq<ChatMessage>,
    path_len: nat,
    requested: Option<usize>,
) -> Result<nat, Seq<char>> {
    if streaming {
        Err("Cannot branch while MiMo is responding"@)
    } else if messages.len() == 0 {
        Err("No conversation messages available to branch"@)
    } else {
        let n = match requested {
            Some(n) => Some(n as nat),
            None => default_branch_number(roles_of(messages)),
        };
        match n {
            None => Err("No branchable messages are available in this conversation"@),
            Some(n) => if n == 0 {
                Err("Message numbers start at 1"@)
            } else if n > path_len || n > messages.len() {
                Err("Message "@ + decimal(n) + " is out of range"@)
            } else if messages[n - 1].role == Role::System {
                Err("Cannot branch from system message "@ + decimal(n))
            } else {
                Ok(n)
            },
        }
    }
}

/// Runs `/branch` on the tree whose visible messages are `messages`, and
/// gives the status line. Where the checks pass, the tree gains a branch
/// from that message of the active branch, which becomes active.
pub fn branch_command(
    tree: &mut ConversationTree,
    messages: &Vec<ChatMessage>,
    streaming: bool,
    requested: Option<usize>,
) -> (r: String)
    requires
        old(tree).wf(),
        old(tree)@.next_branch_seq < u64::MAX,
    ensures
        final(tree).wf(),
        match branch_number_checks(streaming, messages@, current_path_of(old(tree)@).len(), requested) {
            Err(status) => r@ == status && final(tree)@ == old(tree)@,
            Ok(n) => {
                let id = current_path_of(old(tree)@)[n - 1];
                let new_id = seq_id(branch_prefix(), old(tree)@.next_branch_seq as nat);
                &&& final(tree)@ == branched(old(tree)@, id, new_id)
                &&& r@ == "Created branch "@ + new_id + " from message "@ + decimal(n)
                    + "; type a new prompt to continue."@
            },
        },
{
    if streaming {
        return owned("Cannot branch while MiMo is responding");
    }
    if messages.len() == 0 {
        return owned("No conversation messages available to branch");
    }
    let number = match requested {
        Some(n) => n,
        None => match default_branch_source_number(messages) {
            Some(n) => n,
            None => {
                return owned("No branchable messages are available in this conversation");
            },
        },
    };
    if number == 0 {
        return owned("Message numbers start at 1");
    }
    let id = match tree.message_id_at_current_index(number - 1) {
        Some(id) => owned(id),
        None => {
            let mut s = numbered("Message ", number);
            push_str(&mut s, " is out of range");
            return s;
        },
    };
    if number > messages.len() {
        let mut s = numbered("Message ", number);
        push_str(&mut s, " is out of range");
        return s;
    }
    if messages[number - 1].role == Role::System {
        return numbered("Cannot branch from system message ", number);
    }
    proof {
        assert(current_path_of(tree@).contains(id@)) by {
            assert(current_path_of(tree@)[number - 1] == id@);
        }
    }
    match tree.create_branch_from_message(id.as_str()) {
        Ok(branch_id) => {
            let mut s = owned("Created branch ");
            push_str(&mut s, branch_id.as_str());
            push_str(&mut s, " from message ");
            push_str(&mut s, usize_to_string(number).as_str());
            push_str(&mut s, "; type a new prompt to continue.");
            s
        },
        Err(_) => owned("Cannot branch"),
    }
}

pub open spec fn summary_line(s: SummaryView) -> Seq<char> {
    (if s.is_current {
        "*"@
    } else {
        "-"@
    }) + " "@ + s.id + " | "@ + decimal(s.message_count) + " messages | from "@
        + match s.created_from_message_number {
        Some(n) => "message "@ + decimal(n),
        None => "root"@,
    } + " | "@ + s.last_message_preview + "\n"@
}

pub open spec fn summary_lines(ss: Seq<SummaryView>) -> Seq<char>
    decreases ss.len(),
{
    if ss.len() == 0 {
        Seq::empty()
    } else {
        summary_lines(ss.drop_last()) + summary_line(ss.last())
    }
}

fn summary_line_of(s: &BranchSummary) -> (r: String)
    ensures
        r@ == summary_line(summary_view(*s)),
{
    let mut out = owned(if s.is_current { "*" } else { "-" });
    push_str(&mut out, " ");
    push_str(&mut out, s.id.as_str());
    push_str(&mut out, " | ");
    push_str(&mut out, usize_to_string(s.message_count).as_str());
    push_str(&mut out, " messages | from ");
    match s.created_from_message_number {
        Some(n) => {
            push_str(&mut out, "message ");
            push_str(&mut out, usize_to_string(n).as_str());
        },
        None => push_str(&mut out, "root"),
    }
    push_str(&mut out, " | ");
    push_str(&mut out, s.last_message_preview.as_str());
    push_str(&mut out, "\n");
    out
}

/// The text that `/branches` adds to the conversation: one line per
/// branch, the active one marked `*`.
pub fn branches_report(summaries: &Vec<BranchSummary>) -> (r: String)
    ensures
        r@ == trim_end("Conversation branches\n\n"@ + summary_lines(
            summaries@.map_values(|s: BranchSummary| summary_view(s)),
        )),
{
    let ghost views = summaries@.map_values(|s: BranchSummary| summary_view(s));
    let mut out = owned("Conversation branches\n\n");
    let ghost head = out@;
    let mut i: usize = 0;
    while i < summaries.len()
        invariant
            i <= summaries@.len(),
            views == summaries@.map_values(|s: BranchSummary| summary_view(s)),
            head == "Conversation branches\n\n"@,
            out@ == head + summary_lines(views.take(i as int)),
        decreases summaries@.len() - i,
    {
        let s = &summaries[i];
        assert(views.take(i + 1).drop_last() =~= views.take(i as int));
        assert(views.take(i + 1).last() == summary_view(*s));
        let line = summary_line_of(s);
        push_str(&mut out, line.as_str());
        assert(out@ =~= head + summary_lines(views.take(i + 1)));
        i += 1;
    }
    assert(views.take(i as int) =~= views);
    from_chars(&trim_end_vec(&to_chars(out.as_str())))
}

/// The prompt that `/retry` sends again: the text of the last user message.
pub fn last_user_prompt(messages: &Vec<ChatMessage>) -> (r: Option<String>)
    ensures
        match last_index_where(roles_of(messages@), |r: Role| r == Role::User) {
            Some(i) => r matches Some(p) && p@ == messages@[i].content@,
            None => r is None,
        },
{
    let ghost roles = roles_of(messages@);
    let mut i = messages.len();
    assert(roles.take(i as int) =~= roles);
    while i > 0 && messages[i - 1].role != Role::User
        invariant
            i <= messages@.len(),
            roles == roles_of(messages@),
            last_index_where(roles, |r: Role| r == Role::User) == last_index_where(
                roles.take(i as int),
                |r: Role| r == Role::User,
            ),
        decreases i,
    {
        assert(roles.take(i as int).drop_last() =~= roles.take(i - 1));
        assert(roles.take(i as int).last() == messages@[i - 1].role);
        i -= 1;
    }
    if i > 0 {
        assert(roles.take(i as int).last() == messages@[i - 1].role);
        Some(owned(messages[i - 1].content.as_str()))
    } else {
        None
    }
}

/// How many of the latest messages compaction keeps as they are.
pub const KEEP_RECENT_MESSAGES: usize = 6;

/// The messages of the active branch after compaction: a system message
/// summarizing all but the last six, then those six.
pub open spec fn compacted_messages(messages: Seq<ChatMessage>) -> Seq<crate::protocol::MessageView> {
    let split = messages.len() - KEEP_RECENT_MESSAGES;
    seq![crate::protocol::plain_message(
        Role::System,
        crate::summaries::compacted_summary_of(messages.take(split)),
    )] + crate::protocol::message_views(messages.skip(split))
}

/// Runs `/compact` on the tree whose visible messages are `messages`, and
/// gives the status line. Only the active branch changes.
pub fn compact_conversation(tree: &mut ConversationTree, messages: &Vec<ChatMessage>, streaming: bool) -> (r: String)
    requires
        old(tree).wf(),
        old(tree)@.next_message_seq + messages@.len() < u64::MAX,
    ensures
        final(tree).wf(),
        streaming ==> r@ == "Cannot compact while MiMo is responding"@ && final(tree)@ == old(tree)@,
        !streaming && messages@.len() <= KEEP_RECENT_MESSAGES ==> r@ == "Conversation is already compact"@
            && final(tree)@ == old(tree)@,
        !streaming && messages@.len() > KEEP_RECENT_MESSAGES ==> {
            &&& r@ == "Compacted older conversation into a summary"@
            &&& old(tree)@.branches.dom().contains(old(tree)@.current) ==> crate::branch::visible_messages(
                final(tree)@,
            ) == compacted_messages(messages@)
            &&& final(tree)@.current == old(tree)@.current
            &&& forall|b: Seq<char>|
                old(tree)@.branches.dom().contains(b) && b != old(tree)@.current
                    ==> #[trigger] final(tree)@.branches[b] == old(tree)@.branches[b]
        },
{
    if streaming {
        return owned("Cannot compact while MiMo is responding");
    }
    if messages.len() <= KEEP_RECENT_MESSAGES {
        return owned("Conversation is already compact");
    }
    let split = messages.len() - KEEP_RECENT_MESSAGES;
    let (older, recent) = messages.as_slice().split_at(split);
    let summary = crate::summaries::compacted_summary(older);
    let mut new_messages: Vec<ChatMessage> = Vec::new();
    new_messages.push(ChatMessage::system(summary.as_str()));
    let mut k: usize = 0;
    while k < recent.len()
        invariant
            k <= recent@.len(),
            recent@ == messages@.skip(split as int),
            new_messages@.len() == k + 1,
            crate::protocol::message_views(new_messages@) == seq![crate::protocol::plain_message(
                Role::System,
                summary@,
            )] + crate::protocol::message_views(recent@.take(k as int)),
        decreases recent@.len() - k,
    {
        let m = recent[k].copy();
        let ghost before = crate::protocol::message_views(new_messages@);
        new_messages.push(m);
        assert(crate::protocol::message_views(new_messages@) =~= before.push(m@));
        assert(crate::protocol::message_views(recent@.take(k + 1)) =~= crate::protocol::message_views(
            recent@.take(k as int),
        ).push(recent@[k as int]@));
        k += 1;
    }
    assert(recent@.take(k as int) =~= recent@);
    assert(older@ =~= messages@.take(split as int));
    tree.replace_current_branch_messages(new_messages);
    owned("Compacted older conversation into a summary")
}

/// The tree that a flat list of messages becomes: one branch, `branch-1`,
/// holding the messages as `msg-1`, `msg-2`, ...
pub open spec fn flat_tree(v: TreeView, messages: Seq<ChatMessage>) -> bool {
    &&& visible_messages(v) == message_views(messages)
    &&& v.current == default_branch_view()
    &&& v.branches == map![default_branch_view() => BranchView {
        path: first_message_ids(messages.len()),
        created_from: None,
    }]
    &&& v.next_message_seq == messages.len() + 1
    &&& v.next_branch_seq == 2
}

/// A tree with branches whose paths a repair can keep.
pub open spec fn repairable(v: TreeView) -> bool {
    &&& v.branches != Map::<Seq<char>, BranchView>::empty()
    &&& paths_consistent(v)
    &&& has_path_entries(v) || v.nodes == Map::<Seq<char>, NodeView>::empty()
}

/// `e` is an error that a repair of `v` may report.
pub open spec fn refusal_of(v: TreeView, e: TreeError) -> bool {
    if v.branches == Map::<Seq<char>, BranchView>::empty() {
        e == TreeError::NodesWithoutBranches
    } else if !paths_consistent(v) {
        path_problem(v, e)
    } else {
        e == TreeError::NodesWithoutPaths
    }
}

/// The note added when a saved tree is set aside.
pub open spec fn ignored_note(reason: Seq<char>) -> Seq<char> {
    " (branch data ignored: "@ + reason + ")"@
}

/// Restores the conversation of a loaded session: its saved tree, repaired,
/// unless the repair fails or leaves the active branch empty while the
/// session has messages; then the session's flat messages. The second
/// part is the note shown where the saved tree was set aside.
pub fn restore_conversation(tree: Option<ConversationTree>, messages: Vec<ChatMessage>) -> (r: (
    ConversationTree,
    String,
))
    requires
        tree matches Some(t) ==> t.wf() && sequence_ids_bounded(t@),
        messages@.len() < u64::MAX,
    ensures
        r.0.wf(),
        tree is None ==> flat_tree(r.0@, messages@),
        tree is None ==> r.1@ == Seq::<char>::empty(),
        tree is Some && tree.unwrap()@.branches == Map::<Seq<char>, BranchView>::empty() && tree.unwrap()@.nodes == Map::<
            Seq<char>,
            NodeView,
        >::empty() ==> if messages@.len() == 0 {
            r.0@ == empty_tree() && r.1@ == Seq::<char>::empty()
        } else {
            flat_tree(r.0@, messages@) && r.1@ == ignored_note("empty active branch"@)
        },
        tree is Some && repairable(tree.unwrap()@) ==> exists|f: TreeView|
            #[trigger] repaired(tree.unwrap()@, f) && if visible_messages(f).len() > 0 || messages@.len() == 0 {
                r.0@ == f && r.1@ == Seq::<char>::empty()
            } else {
                flat_tree(r.0@, messages@) && r.1@ == ignored_note("empty active branch"@)
            },
        tree is Some && !(tree.unwrap()@.branches == Map::<Seq<char>, BranchView>::empty() && tree.unwrap()@.nodes == Map::<
            Seq<char>,
            NodeView,
        >::empty()) && !repairable(tree.unwrap()@) ==> {
            &&& flat_tree(r.0@, messages@)
            &&& exists|e: TreeError| r.1@ == ignored_note(tree_error_text(e)) && refusal_of(tree.unwrap()@, e)
        },
{
    match tree {
        None => {
            let t = ConversationTree::from_flat_messages(messages);
            let e = String::new();
            assert(e@ == Seq::<char>::empty());
            assert(flat_tree(t@, messages@));
            (t, e)
        },
        Some(mut t) => {
            let ghost v = t@;
            match t.validate_or_repair() {
                Ok(()) => {
                    let ghost f = t@;
                    let current = t.current_messages();
                    if current.len() == 0 && messages.len() > 0 {
                        let mut note = owned(" (branch data ignored: ");
                        push_str(&mut note, "empty active branch");
                        push_str(&mut note, ")");
                        assert(note@ == ignored_note("empty active branch"@));
                        let flat = ConversationTree::from_flat_messages(messages);
                        proof {
                            if repairable(v) {
                                assert(repaired(v, f));
                            }
                        }
                        (flat, note)
                    } else {
                        let e = String::new();
                        assert(e@ == Seq::<char>::empty());
                        proof {
                            if repairable(v) {
                                assert(repaired(v, f));
                            }
                            if v.branches == Map::<Seq<char>, BranchView>::empty() && v.nodes == Map::<Seq<char>, NodeView>::empty() {
                                assert(f == empty_tree());
                                assert(visible_messages(f).len() == 0);
                            }
                        }
                        (t, e)
                    }
                },
                Err(e) => {
                    let mut note = owned(" (branch data ignored: ");
                    push_str(&mut note, e.message().as_str());
                    push_str(&mut note, ")");
                    proof {
                        assert(note@ == ignored_note(tree_error_text(e)));
                        assert(refusal_of(v, e));
                    }
                    (ConversationTree::from_flat_messages(messages), note)
                },
            }
        },
    }
}

} // verus!
