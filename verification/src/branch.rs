//! The branching conversation tree: every message is a node, every branch is
//! a path of node ids, and the active branch is what the user sees.
use vstd::prelude::*;

use crate::ids::{
    branch_prefix, format_branch_id, format_message_id, msg_prefix, position_of, push_unique,
    seq_id, sort_ids, views,
};
use crate::protocol::{ChatMessage, MessageView, message_views};
use crate::ids::parse_sequence_spec;
use crate::text::{decimal, trim};

verus! {

#[derive(Debug, Clone, PartialEq, Eq)]
pub struct ConversationNode {
    pub id: String,
    pub parent_id: Option<String>,
    pub child_ids: Vec<String>,
    pub message: ChatMessage,
}

#[derive(Debug, Clone, PartialEq, Eq)]
pub struct ConversationBranch {
    pub id: String,
    pub path: Vec<String>,
    pub created_from: Option<String>,
}

#[derive(Debug, Clone, PartialEq, Eq)]
pub struct BranchSummary {
    pub id: String,
    pub is_current: bool,
    pub message_count: usize,
    pub created_from: Option<String>,
    pub created_from_message_number: Option<usize>,
    pub last_message_preview: String,
}

/// Why an operation on the tree was refused.
#[derive(Debug, Clone, PartialEq, Eq)]
pub enum TreeError {
    MessageNotInActiveBranch(String),
    UnknownBranch(String),
    NodesWithoutBranches,
    MissingMessage { branch: String, message: String },
    DuplicateMessage { branch: String, message: String },
    InconsistentParents(String),
    NodesWithoutPaths,
}

/// A conversation whose messages form a tree; branches are paths through it.
#[derive(Debug, Clone)]
pub struct ConversationTree {
    nodes: Vec<ConversationNode>,
    root_ids: Vec<String>,
    branches: Vec<ConversationBranch>,
    current_branch_id: String,
    next_message_seq: u64,
    next_branch_seq: u64,
}

pub ghost struct NodeView {
    pub parent_id: Option<Seq<char>>,
    pub child_ids: Seq<Seq<char>>,
    pub message: MessageView,
}

pub ghost struct BranchView {
    pub path: Seq<Seq<char>>,
    pub created_from: Option<Seq<char>>,
}

/// The tree as maps from node ids to nodes and from branch ids to branches.
pub ghost struct TreeView {
    pub nodes: Map<Seq<char>, NodeView>,
    pub root_ids: Seq<Seq<char>>,
    pub branches: Map<Seq<char>, BranchView>,
    pub current: Seq<char>,
    pub next_message_seq: u64,
    pub next_branch_seq: u64,
}

pub open spec fn opt_view(s: Option<String>) -> Option<Seq<char>> {
    match s {
        Some(s) => Some(s@),
        None => None,
    }
}

pub open spec fn node_view(n: ConversationNode) -> NodeView {
    NodeView { parent_id: opt_view(n.parent_id), child_ids: views(n.child_ids@), message: n.message@ }
}

pub open spec fn branch_view(b: ConversationBranch) -> BranchView {
    BranchView { path: views(b.path@), created_from: opt_view(b.created_from) }
}

pub open spec fn node_ids(nodes: Seq<ConversationNode>) -> Seq<Seq<char>> {
    nodes.map_values(|n: ConversationNode| n.id@)
}

pub open spec fn branch_ids(branches: Seq<ConversationBranch>) -> Seq<Seq<char>> {
    branches.map_values(|b: ConversationBranch| b.id@)
}

/// The map from `ids[i]` to `vals[i]`.
pub open spec fn keyed<V>(ids: Seq<Seq<char>>, vals: Seq<V>) -> Map<Seq<char>, V> {
    Map::new(|k: Seq<char>| ids.contains(k), |k: Seq<char>| vals[ids.index_of(k)])
}

pub open spec fn node_map(nodes: Seq<ConversationNode>) -> Map<Seq<char>, NodeView> {
    keyed(node_ids(nodes), nodes.map_values(|n: ConversationNode| node_view(n)))
}

pub open spec fn branch_map(branches: Seq<ConversationBranch>) -> Map<Seq<char>, BranchView> {
    keyed(branch_ids(branches), branches.map_values(|b: ConversationBranch| branch_view(b)))
}

/// The ids of the active branch, empty when the active branch is missing.
pub open spec fn current_path_of(v: TreeView) -> Seq<Seq<char>> {
    if v.branches.dom().contains(v.current) {
        v.branches[v.current].path
    } else {
        Seq::empty()
    }
}

/// The messages of the nodes along `path`, skipping ids without a node.
pub open spec fn messages_along(nodes: Map<Seq<char>, NodeView>, path: Seq<Seq<char>>) -> Seq<
    MessageView,
>
    decreases path.len(),
{
    if path.len() == 0 {
        Seq::empty()
    } else {
        let rest = messages_along(nodes, path.drop_last());
        if nodes.dom().contains(path.last()) {
            rest.push(nodes[path.last()].message)
        } else {
            rest
        }
    }
}

/// What the user sees: the messages of the active branch.
pub open spec fn visible_messages(v: TreeView) -> Seq<MessageView> {
    messages_along(v.nodes, current_path_of(v))
}

pub open spec fn default_branch_view() -> Seq<char> {
    seq_id(branch_prefix(), 1)
}

/// The tree that `ConversationTree::new` builds.
pub open spec fn empty_tree() -> TreeView {
    TreeView {
        nodes: Map::empty(),
        root_ids: Seq::empty(),
        branches: map![default_branch_view() => BranchView { path: Seq::empty(), created_from: None }],
        current: default_branch_view(),
        next_message_seq: 1,
        next_branch_seq: 2,
    }
}

/// `after` is `before` with `id` among its children (kept if already there).
pub open spec fn children_added(before: NodeView, after: NodeView, id: Seq<char>) -> bool {
    &&& after.parent_id == before.parent_id
    &&& after.message == before.message
    &&& id_set_added(before.child_ids, after.child_ids, id)
}

/// `after` holds the ids of `before` and `id`, each once more than not at all.
pub open spec fn id_set_added(before: Seq<Seq<char>>, after: Seq<Seq<char>>, id: Seq<char>) -> bool {
    &&& forall|x: Seq<char>| after.contains(x) <==> (before.contains(x) || x == id)
    &&& after.len() == if before.contains(id) {
        before.len()
    } else {
        before.len() + 1
    }
}

/// The effect of appending message `msg` with id `id` to the active branch.
pub open spec fn added_message(old: TreeView, new: TreeView, id: Seq<char>, msg: MessageView) -> bool {
    let path = current_path_of(old);
    let parent = if path.len() > 0 {
        Some(path.last())
    } else {
        None
    };
    let inserted = old.nodes.insert(
        id,
        NodeView { parent_id: parent, child_ids: Seq::empty(), message: msg },
    );
    &&& new.current == old.current
    &&& new.next_message_seq == old.next_message_seq + 1
    &&& new.next_branch_seq == old.next_branch_seq
    &&& new.branches == if old.branches.dom().contains(old.current) {
        old.branches.insert(
            old.current,
            BranchView { path: path.push(id), created_from: old.branches[old.current].created_from },
        )
    } else {
        old.branches
    }
    &&& new.nodes.dom() == inserted.dom()
    &&& match parent {
        Some(p) => {
            &&& new.root_ids == old.root_ids
            &&& forall|k: Seq<char>|
                inserted.dom().contains(k) && k != p ==> #[trigger] new.nodes[k] == inserted[k]
            &&& inserted.dom().contains(p) ==> children_added(inserted[p], new.nodes[p], id)
        },
        None => {
            &&& new.nodes == inserted
            &&& id_set_added(old.root_ids, new.root_ids, id)
        },
    }
}

/// The tree after a new branch `new_id` is made from the active branch up
/// to and including `message_id`, and made active.
pub open spec fn branched(old: TreeView, message_id: Seq<char>, new_id: Seq<char>) -> TreeView {
    let path = current_path_of(old);
    TreeView {
        branches: old.branches.insert(
            new_id,
            BranchView {
                path: path.take(first_pos(path, message_id) + 1),
                created_from: Some(message_id),
            },
        ),
        current: new_id,
        next_branch_seq: (old.next_branch_seq + 1) as u64,
        ..old
    }
}

/// The tree with branch `b` active, where it has such a branch.
pub open spec fn switched_to(v: TreeView, b: Seq<char>) -> TreeView {
    if v.branches.dom().contains(b) {
        TreeView { current: b, ..v }
    } else {
        v
    }
}

/// The ids `msg-1` .. `msg-n`.
pub open spec fn first_message_ids(n: nat) -> Seq<Seq<char>> {
    Seq::new(n, |k: int| seq_id(msg_prefix(), (k + 1) as nat))
}

proof fn lemma_views_contains_from_multiset(s1: Seq<String>, s2: Seq<String>)
    requires
        s1.to_multiset() == s2.to_multiset(),
    ensures
        forall|v: Seq<char>| views(s1).contains(v) <==> views(s2).contains(v),
{
    s1.to_multiset_ensures();
    s2.to_multiset_ensures();
    assert forall|v: Seq<char>| views(s1).contains(v) implies views(s2).contains(v) by {
        let i = views(s1).index_of(v);
        assert(s1.contains(s1[i]));
        assert(s1.to_multiset().count(s1[i]) > 0);
        assert(s2.to_multiset().count(s1[i]) > 0);
        assert(s2.contains(s1[i]));
        let j = s2.index_of(s1[i]);
        assert(views(s2)[j] == v);
    }
    assert forall|v: Seq<char>| views(s2).contains(v) implies views(s1).contains(v) by {
        let i = views(s2).index_of(v);
        assert(s2.contains(s2[i]));
        assert(s2.to_multiset().count(s2[i]) > 0);
        assert(s1.to_multiset().count(s2[i]) > 0);
        assert(s1.contains(s2[i]));
        let j = s1.index_of(s2[i]);
        assert(views(s1)[j] == v);
    }
}

proof fn lemma_seq_id_injective(p: Seq<char>, a: nat, b: nat)
    requires
        seq_id(p, a) == seq_id(p, b),
    ensures
        a == b,
{
    assert(seq_id(p, a).skip(p.len() as int) == decimal(a));
    assert(seq_id(p, b).skip(p.len() as int) == decimal(b));
    crate::text::lemma_decimal_injective(a, b);
}

proof fn lemma_keyed_index<V>(ids: Seq<Seq<char>>, vals: Seq<V>, i: int)
    requires
        ids.no_duplicates(),
        ids.len() == vals.len(),
        0 <= i < ids.len(),
    ensures
        keyed(ids, vals).dom().contains(ids[i]),
        keyed(ids, vals)[ids[i]] == vals[i],
{
    assert(ids.contains(ids[i]));
    let j = ids.index_of(ids[i]);
    assert(0 <= j < ids.len() && ids[j] == ids[i]);
}

proof fn lemma_keyed_push<V>(ids: Seq<Seq<char>>, vals: Seq<V>, k: Seq<char>, v: V)
    requires
        ids.no_duplicates(),
        ids.len() == vals.len(),
        !ids.contains(k),
    ensures
        ids.push(k).no_duplicates(),
        keyed(ids.push(k), vals.push(v)) == keyed(ids, vals).insert(k, v),
{
    let ids2 = ids.push(k);
    let vals2 = vals.push(v);
    assert forall|a: int, b: int| 0 <= a < ids2.len() && 0 <= b < ids2.len() && a != b implies ids2[a]
        != ids2[b] by {
        if a == ids.len() {
            assert(ids2[b] == ids[b]);
        } else if b == ids.len() {
            assert(ids2[a] == ids[a]);
        }
    }
    assert forall|key: Seq<char>| #[trigger] ids2.contains(key) implies keyed(ids2, vals2)[key]
        == keyed(ids, vals).insert(k, v)[key] by {
        let j = ids2.index_of(key);
        assert(0 <= j < ids2.len() && ids2[j] == key);
        if key == k {
            lemma_keyed_index(ids2, vals2, ids.len() as int);
        } else {
            assert(j < ids.len());
            assert(ids[j] == key);
            lemma_keyed_index(ids, vals, j);
            lemma_keyed_index(ids2, vals2, j);
        }
    }
    assert forall|key: Seq<char>| ids2.contains(key) <==> ids.contains(key) || key == k by {
        if ids.contains(key) {
            let j = ids.index_of(key);
            assert(ids2[j] == key);
        }
        if key == k {
            assert(ids2[ids.len() as int] == k);
        }
        if ids2.contains(key) && key != k {
            let j = ids2.index_of(key);
            assert(ids[j] == key);
        }
    }
    assert(keyed(ids2, vals2) =~= keyed(ids, vals).insert(k, v));
}

proof fn lemma_keyed_update<V>(ids: Seq<Seq<char>>, vals: Seq<V>, i: int, v: V)
    requires
        ids.no_duplicates(),
        ids.len() == vals.len(),
        0 <= i < ids.len(),
    ensures
        keyed(ids, vals.update(i, v)) == keyed(ids, vals).insert(ids[i], v),
{
    let vals2 = vals.update(i, v);
    assert forall|key: Seq<char>| #[trigger] ids.contains(key) implies keyed(ids, vals2)[key]
        == keyed(ids, vals).insert(ids[i], v)[key] by {
        let j = ids.index_of(key);
        lemma_keyed_index(ids, vals, j);
        lemma_keyed_index(ids, vals2, j);
        if key == ids[i] {
            assert(j == i);
        }
    }
    assert(ids.contains(ids[i]));
    assert(keyed(ids, vals2) =~= keyed(ids, vals).insert(ids[i], v));
}

proof fn lemma_keyed_absent<V>(ids: Seq<Seq<char>>, vals: Seq<V>, k: Seq<char>)
    requires
        forall|j: int| 0 <= j < ids.len() ==> ids[j] != k,
    ensures
        !keyed(ids, vals).dom().contains(k),
        !ids.contains(k),
{
}

impl View for ConversationTree {
    type V = TreeView;

    closed spec fn view(&self) -> TreeView {
        TreeView {
            nodes: node_map(self.nodes@),
            root_ids: views(self.root_ids@),
            branches: branch_map(self.branches@),
            current: self.current_branch_id@,
            next_message_seq: self.next_message_seq,
            next_branch_seq: self.next_branch_seq,
        }
    }
}

impl ConversationTree {
    /// Node ids and branch ids are each distinct.
    pub closed spec fn wf(&self) -> bool {
        &&& node_ids(self.nodes@).no_duplicates()
        &&& branch_ids(self.branches@).no_duplicates()
    }

    proof fn lemma_node_at(&self, i: int)
        requires
            self.wf(),
            0 <= i < self.nodes@.len(),
        ensures
            self@.nodes.dom().contains(self.nodes@[i].id@),
            self@.nodes[self.nodes@[i].id@] == node_view(self.nodes@[i]),
    {
        lemma_keyed_index(
            node_ids(self.nodes@),
            self.nodes@.map_values(|n: ConversationNode| node_view(n)),
            i,
        );
    }

    proof fn lemma_branch_at(&self, i: int)
        requires
            self.wf(),
            0 <= i < self.branches@.len(),
        ensures
            self@.branches.dom().contains(self.branches@[i].id@),
            self@.branches[self.branches@[i].id@] == branch_view(self.branches@[i]),
    {
        lemma_keyed_index(
            branch_ids(self.branches@),
            self.branches@.map_values(|b: ConversationBranch| branch_view(b)),
            i,
        );
    }

    pub fn new() -> (r: ConversationTree)
        ensures
            r.wf(),
            r@ == empty_tree(),
    {
        let branch_id = format_branch_id(1);
        let branch = ConversationBranch { id: branch_id.clone(), path: Vec::new(), created_from: None };
        let mut branches: Vec<ConversationBranch> = Vec::new();
        branches.push(branch);
        let r = ConversationTree {
            nodes: Vec::new(),
            root_ids: Vec::new(),
            branches,
            current_branch_id: branch_id,
            next_message_seq: 1,
            next_branch_seq: 2,
        };
        proof {
            assert(node_ids(r.nodes@) =~= Seq::<Seq<char>>::empty());
            assert(r@.nodes =~= Map::<Seq<char>, NodeView>::empty());
            assert(views(r.root_ids@) =~= Seq::<Seq<char>>::empty());
            r.lemma_branch_at(0);
            assert(branch_view(r.branches@[0]).path =~= Seq::<Seq<char>>::empty());
            assert forall|k: Seq<char>| r@.branches.dom().contains(k) implies k
                == default_branch_view() by {
                let j = branch_ids(r.branches@).index_of(k);
                assert(branch_ids(r.branches@)[j] == k);
            }
            assert(r@.branches =~= empty_tree().branches);
        }
        r
    }

    /// Index of the node with id `id`.
    fn find_node(&self, id: &String) -> (r: Option<usize>)
        requires
            self.wf(),
        ensures
            match r {
                Some(i) => i < self.nodes@.len() && self.nodes@[i as int].id@ == id@,
                None => !self@.nodes.dom().contains(id@),
            },
    {
        let mut i: usize = 0;
        while i < self.nodes.len()
            invariant
                i <= self.nodes.len(),
                forall|k: int| 0 <= k < i ==> self.nodes@[k].id@ != id@,
            decreases self.nodes.len() - i,
        {
            if self.nodes[i].id == *id {
                return Some(i);
            }
            i += 1;
        }
        proof {
            assert forall|k: int| 0 <= k < node_ids(self.nodes@).len() implies node_ids(
                self.nodes@,
            )[k] != id@ by {}
            lemma_keyed_absent(
                node_ids(self.nodes@),
                self.nodes@.map_values(|n: ConversationNode| node_view(n)),
                id@,
            );
        }
        None
    }

    /// Index of the branch with id `id`.
    fn find_branch(&self, id: &String) -> (r: Option<usize>)
        requires
            self.wf(),
        ensures
            match r {
                Some(i) => i < self.branches@.len() && self.branches@[i as int].id@ == id@,
                None => !self@.branches.dom().contains(id@),
            },
    {
        let mut i: usize = 0;
        while i < self.branches.len()
            invariant
                i <= self.branches.len(),
                forall|k: int| 0 <= k < i ==> self.branches@[k].id@ != id@,
            decreases self.branches.len() - i,
        {
            if self.branches[i].id == *id {
                return Some(i);
            }
            i += 1;
        }
        proof {
            assert forall|k: int| 0 <= k < branch_ids(self.branches@).len() implies branch_ids(
                self.branches@,
            )[k] != id@ by {}
            lemma_keyed_absent(
                branch_ids(self.branches@),
                self.branches@.map_values(|b: ConversationBranch| branch_view(b)),
                id@,
            );
        }
        None
    }

    pub fn is_empty(&self) -> (r: bool)
        requires
            self.wf(),
        ensures
            r == (current_path_of(self@).len() == 0),
    {
        self.current_path().len() == 0
    }

    pub fn current_branch_id(&self) -> (r: &str)
        ensures
            r@ == self@.current,
    {
        self.current_branch_id.as_str()
    }

    pub fn current_path(&self) -> (r: &[String])
        requires
            self.wf(),
        ensures
            views(r@) == current_path_of(self@),
    {
        match self.find_branch(&self.current_branch_id) {
            Some(i) => {
                proof {
                    self.lemma_branch_at(i as int);
                }
                self.branches[i].path.as_slice()
            },
            None => {
                let r: &[String] = &[];
                assert(views(r@) =~= Seq::<Seq<char>>::empty());
                r
            },
        }
    }

    pub fn current_messages(&self) -> (r: Vec<ChatMessage>)
        requires
            self.wf(),
        ensures
            message_views(r@) == visible_messages(self@),
    {
        let path = self.current_path();
        let mut r: Vec<ChatMessage> = Vec::new();
        let mut i: usize = 0;
        while i < path.len()
            invariant
                self.wf(),
                i <= path.len(),
                views(path@) == current_path_of(self@),
                message_views(r@) == messages_along(self@.nodes, views(path@).take(i as int)),
            decreases path.len() - i,
        {
            let ghost before = r@;
            match self.find_node(&path[i]) {
                Some(k) => {
                    proof {
                        self.lemma_node_at(k as int);
                    }
                    r.push(self.nodes[k].message.copy());
                    assert(message_views(r@) =~= message_views(before).push(
                        self.nodes@[k as int].message@,
                    ));
                },
                None => {},
            }
            i += 1;
            proof {
                let p = views(path@).take(i as int);
                assert(p.drop_last() == views(path@).take((i - 1) as int));
                assert(p.last() == path@[i - 1]@);
            }
        }
        assert(views(path@).take(path.len() as int) == views(path@));
        r
    }

    /// Adds `node`, replacing a node with the same id.
    fn put_node(&mut self, node: ConversationNode)
        requires
            old(self).wf(),
        ensures
            final(self).wf(),
            final(self)@ == (TreeView {
                nodes: old(self)@.nodes.insert(node.id@, node_view(node)),
                ..old(self)@
            }),
            final(self).branches == old(self).branches,
    {
        let ghost old_nodes = self.nodes@;
        let ghost vals = old_nodes.map_values(|n: ConversationNode| node_view(n));
        match self.find_node(&node.id) {
            Some(i) => {
                let ghost nv = node_view(node);
                self.nodes.set(i, node);
                proof {
                    assert(node_ids(self.nodes@) =~= node_ids(old_nodes));
                    assert(self.nodes@.map_values(|n: ConversationNode| node_view(n)) =~= vals.update(
                        i as int,
                        nv,
                    ));
                    lemma_keyed_update(node_ids(old_nodes), vals, i as int, nv);
                }
            },
            None => {
                let ghost nv = node_view(node);
                let ghost k = node.id@;
                self.nodes.push(node);
                proof {
                    assert(!node_ids(old_nodes).contains(k));
                    assert(node_ids(self.nodes@) =~= node_ids(old_nodes).push(k));
                    assert(self.nodes@.map_values(|n: ConversationNode| node_view(n)) =~= vals.push(
                        nv,
                    ));
                    lemma_keyed_push(node_ids(old_nodes), vals, k, nv);
                }
            },
        }
    }

    /// Adds `id` to the children of the node at index `i`, keeping them sorted.
    fn add_child_at(&mut self, i: usize, id: String)
        requires
            old(self).wf(),
            i < old(self).nodes@.len(),
        ensures
            final(self).wf(),
            final(self)@.nodes.dom() == old(self)@.nodes.dom(),
            final(self)@.root_ids == old(self)@.root_ids,
            final(self)@.branches == old(self)@.branches,
            final(self)@.current == old(self)@.current,
            final(self)@.next_message_seq == old(self)@.next_message_seq,
            final(self)@.next_branch_seq == old(self)@.next_branch_seq,
            final(self).branches == old(self).branches,
            forall|k: Seq<char>|
                old(self)@.nodes.dom().contains(k) && k != old(self).nodes@[i as int].id@
                    ==> #[trigger] final(self)@.nodes[k] == old(self)@.nodes[k],
            children_added(
                old(self)@.nodes[old(self).nodes@[i as int].id@],
                final(self)@.nodes[old(self).nodes@[i as int].id@],
                id@,
            ),
    {
        let ghost old_nodes = self.nodes@;
        let ghost vals = old_nodes.map_values(|n: ConversationNode| node_view(n));
        proof {
            self.lemma_node_at(i as int);
        }
        let mut children = crate::protocol::copy_strings(&self.nodes[i].child_ids);
        let ghost before_children = children@;
        push_unique(&mut children, id);
        let ghost pushed = children@;
        let prefix = vec!['m', 's', 'g', '-'];
        sort_ids(&mut children, &prefix);
        let node = ConversationNode {
            id: self.nodes[i].id.clone(),
            parent_id: crate::protocol::copy_opt_string(&self.nodes[i].parent_id),
            child_ids: children,
            message: self.nodes[i].message.copy(),
        };
        let ghost nv = node_view(node);
        self.nodes.set(i, node);
        proof {
            assert(node_ids(self.nodes@) =~= node_ids(old_nodes));
            assert(self.nodes@.map_values(|n: ConversationNode| node_view(n)) =~= vals.update(
                i as int,
                nv,
            ));
            lemma_keyed_update(node_ids(old_nodes), vals, i as int, nv);
            lemma_views_contains_from_multiset(pushed, nv_children(nv, node));
            let old_child_views = views(before_children);
            let new_child_views = views(self.nodes@[i as int].child_ids@);
            assert(self@.nodes[old_nodes[i as int].id@] == nv);
            assert(nv.child_ids == new_child_views);
            assert(old(self)@.nodes[old_nodes[i as int].id@].child_ids == old_child_views);
            if old_child_views.contains(id@) {
                assert(pushed == before_children);
            } else {
                assert(views(pushed) =~= old_child_views.push(id@));
                assert forall|x: Seq<char>| views(pushed).contains(x) <==> (old_child_views.contains(x) || x == id@) by {
                    if x == id@ {
                        assert(views(pushed)[before_children.len() as int] == x);
                    }
                    if old_child_views.contains(x) {
                        let j = old_child_views.index_of(x);
                        assert(views(pushed)[j] == x);
                    }
                    if views(pushed).contains(x) && x != id@ {
                        let j = views(pushed).index_of(x);
                        assert(old_child_views[j] == x);
                    }
                }
            }
            assert(new_child_views.len() == pushed.len());
        }
    }
}

impl ConversationTree {
    /// Adds `id` to the root ids, keeping them sorted.
    fn add_root(&mut self, id: String)
        requires
            old(self).wf(),
        ensures
            final(self).wf(),
            final(self).nodes == old(self).nodes,
            final(self).branches == old(self).branches,
            final(self)@.nodes == old(self)@.nodes,
            final(self)@.branches == old(self)@.branches,
            final(self)@.current == old(self)@.current,
            final(self)@.next_message_seq == old(self)@.next_message_seq,
            final(self)@.next_branch_seq == old(self)@.next_branch_seq,
            id_set_added(old(self)@.root_ids, final(self)@.root_ids, id@),
    {
        let mut roots = crate::protocol::copy_strings(&self.root_ids);
        let ghost before = roots@;
        push_unique(&mut roots, id);
        let ghost pushed = roots@;
        let prefix = vec!['m', 's', 'g', '-'];
        sort_ids(&mut roots, &prefix);
        proof {
            lemma_views_contains_from_multiset(pushed, roots@);
            let old_views = views(before);
            if old_views.contains(id@) {
                assert(pushed == before);
            } else {
                assert(views(pushed) =~= old_views.push(id@));
                assert forall|x: Seq<char>| views(pushed).contains(x) <==> (old_views.contains(x)
                    || x == id@) by {
                    if x == id@ {
                        assert(views(pushed)[before.len() as int] == x);
                    }
                    if old_views.contains(x) {
                        let j = old_views.index_of(x);
                        assert(views(pushed)[j] == x);
                    }
                    if views(pushed).contains(x) && x != id@ {
                        let j = views(pushed).index_of(x);
                        assert(old_views[j] == x);
                    }
                }
            }
        }
        self.root_ids = roots;
    }

    /// Appends `id` to the path of the branch at index `bi`.
    fn push_to_path(&mut self, bi: usize, id: String)
        requires
            old(self).wf(),
            bi < old(self).branches@.len(),
        ensures
            final(self).wf(),
            final(self)@ == (TreeView {
                branches: old(self)@.branches.insert(
                    old(self).branches@[bi as int].id@,
                    BranchView {
                        path: old(self)@.branches[old(self).branches@[bi as int].id@].path.push(id@),
                        created_from: old(self)@.branches[old(self).branches@[bi as int].id@].created_from,
                    },
                ),
                ..old(self)@
            }),
    {
        let ghost old_branches = self.branches@;
        let ghost vals = old_branches.map_values(|b: ConversationBranch| branch_view(b));
        proof {
            self.lemma_branch_at(bi as int);
        }
        let mut path = crate::protocol::copy_strings(&self.branches[bi].path);
        path.push(id);
        let branch = ConversationBranch {
            id: self.branches[bi].id.clone(),
            path,
            created_from: crate::protocol::copy_opt_string(&self.branches[bi].created_from),
        };
        let ghost bv = branch_view(branch);
        self.branches.set(bi, branch);
        proof {
            assert(branch_ids(self.branches@) =~= branch_ids(old_branches));
            assert(self.branches@.map_values(|b: ConversationBranch| branch_view(b)) =~= vals.update(
                bi as int,
                bv,
            ));
            lemma_keyed_update(branch_ids(old_branches), vals, bi as int, bv);
            assert(bv.path =~= vals[bi as int].path.push(id@));
        }
    }

    pub fn add_message_to_current(&mut self, message: ChatMessage) -> (r: String)
        requires
            old(self).wf(),
            old(self)@.next_message_seq < u64::MAX,
        ensures
            final(self).wf(),
            r@ == seq_id(msg_prefix(), old(self)@.next_message_seq as nat),
            added_message(old(self)@, final(self)@, r@, message@),
    {
        let ghost old_view = self@;
        let message_id = format_message_id(self.next_message_seq);
        self.next_message_seq = self.next_message_seq + 1;
        let branch_index = self.find_branch(&self.current_branch_id);
        let parent_id: Option<String> = match branch_index {
            Some(bi) => {
                proof {
                    self.lemma_branch_at(bi as int);
                }
                let n = self.branches[bi].path.len();
                if n > 0 {
                    Some(self.branches[bi].path[n - 1].clone())
                } else {
                    None
                }
            },
            None => None,
        };
        assert(opt_view(parent_id) == (if current_path_of(old_view).len() > 0 {
            Some(current_path_of(old_view).last())
        } else {
            None
        }));
        let ghost msg_view = message@;
        let node = ConversationNode {
            id: message_id.clone(),
            parent_id: crate::protocol::copy_opt_string(&parent_id),
            child_ids: Vec::new(),
            message,
        };
        assert(node_view(node).child_ids =~= Seq::<Seq<char>>::empty());
        self.put_node(node);
        let ghost after_insert = self@;
        match &parent_id {
            Some(p) => match self.find_node(p) {
                Some(pi) => {
                    self.add_child_at(pi, message_id.clone());
                },
                None => {},
            },
            None => {
                self.add_root(message_id.clone());
            },
        }
        match branch_index {
            Some(bi) => {
                self.push_to_path(bi, message_id.clone());
            },
            None => {},
        }
        message_id
    }

    pub fn from_flat_messages(messages: Vec<ChatMessage>) -> (r: ConversationTree)
        requires
            messages@.len() < u64::MAX,
        ensures
            r.wf(),
            visible_messages(r@) == message_views(messages@),
            r@.current == default_branch_view(),
            r@.branches == map![default_branch_view() => BranchView {
                path: first_message_ids(messages@.len()),
                created_from: None,
            }],
            r@.next_message_seq == messages@.len() + 1,
            r@.next_branch_seq == 2,
    {
        let mut tree = ConversationTree::new();
        let mut i: usize = 0;
        let mut messages = messages;
        let ghost all = messages@;
        let n = messages.len();
        assert(first_message_ids(0) =~= Seq::<Seq<char>>::empty());
        assert(tree@.branches =~= map![default_branch_view() => BranchView {
            path: first_message_ids(0),
            created_from: None,
        }]);
        while messages.len() > 0
            invariant
                tree.wf(),
                messages@ == all.skip(i as int),
                i + messages@.len() == all.len(),
                n == all.len(),
                all.len() < u64::MAX,
                tree@.current == default_branch_view(),
                tree@.branches == map![default_branch_view() => BranchView {
                    path: first_message_ids(i as nat),
                    created_from: None,
                }],
                tree@.next_message_seq == i + 1,
                tree@.next_branch_seq == 2,
                forall|x: Seq<char>|
                    tree@.nodes.dom().contains(x) <==> first_message_ids(i as nat).contains(x),
                forall|k: int|
                    0 <= k < i ==> #[trigger] tree@.nodes[seq_id(msg_prefix(), (k + 1) as nat)].message
                        == all[k]@,
            decreases messages.len(),
        {
            let message = messages.remove(0);
            assert(message == all[i as int]);
            let ghost before = tree@;
            let id = tree.add_message_to_current(message);
            proof {
                let new_id = seq_id(msg_prefix(), (i + 1) as nat);
                assert(id@ == new_id);
                assert(!before.nodes.dom().contains(new_id)) by {
                    if first_message_ids(i as nat).contains(new_id) {
                        let j = first_message_ids(i as nat).index_of(new_id);
                        lemma_seq_id_injective(msg_prefix(), (j + 1) as nat, (i + 1) as nat);
                    }
                }
                assert(first_message_ids((i + 1) as nat) =~= first_message_ids(i as nat).push(new_id));
                assert(current_path_of(before) == first_message_ids(i as nat));
                assert forall|k: int| 0 <= k < i + 1 implies #[trigger] tree@.nodes[seq_id(
                    msg_prefix(),
                    (k + 1) as nat,
                )].message == all[k]@ by {
                    let kid = seq_id(msg_prefix(), (k + 1) as nat);
                    if i > 0 {
                        let p = seq_id(msg_prefix(), i as nat);
                        assert(first_message_ids(i as nat).last() == p);
                        if p == new_id {
                            lemma_seq_id_injective(msg_prefix(), i as nat, (i + 1) as nat);
                        }
                    }
                    if k < i {
                        assert(first_message_ids(i as nat)[k] == kid);
                        if kid == new_id {
                            lemma_seq_id_injective(msg_prefix(), (k + 1) as nat, (i + 1) as nat);
                        }
                        assert(first_message_ids(i as nat).contains(kid));
                        assert(before.nodes.dom().contains(kid));
                    }
                }
                assert(tree@.branches =~= map![default_branch_view() => BranchView {
                    path: first_message_ids((i + 1) as nat),
                    created_from: None,
                }]);
                assert forall|x: Seq<char>| tree@.nodes.dom().contains(x) <==> first_message_ids(
                    (i + 1) as nat,
                ).contains(x) by {
                    if x == new_id {
                        assert(first_message_ids((i + 1) as nat)[i as int] == x);
                    }
                    if first_message_ids((i + 1) as nat).contains(x) && x != new_id {
                        let j = first_message_ids((i + 1) as nat).index_of(x);
                        assert(first_message_ids(i as nat)[j] == x);
                    }
                    if first_message_ids(i as nat).contains(x) {
                        let j = first_message_ids(i as nat).index_of(x);
                        assert(first_message_ids((i + 1) as nat)[j] == x);
                    }
                }
            }
            i += 1;
            assert(messages@ =~= all.skip(i as int));
        }
        proof {
            assert forall|k: int| 0 <= k < i implies tree@.nodes.dom().contains(
                #[trigger] seq_id(msg_prefix(), (k + 1) as nat),
            ) by {
                assert(first_message_ids(i as nat)[k] == seq_id(msg_prefix(), (k + 1) as nat));
                assert(first_message_ids(i as nat).contains(seq_id(msg_prefix(), (k + 1) as nat)));
            }
            lemma_messages_along_first(tree@.nodes, all, i as nat);
            assert(all.take(i as int) == all);
        }
        tree
    }
}

proof fn lemma_messages_along_first(nodes: Map<Seq<char>, NodeView>, all: Seq<ChatMessage>, n: nat)
    requires
        n <= all.len(),
        forall|k: int|
            0 <= k < n ==> nodes.dom().contains(#[trigger] seq_id(msg_prefix(), (k + 1) as nat)),
        forall|k: int|
            0 <= k < n ==> #[trigger] nodes[seq_id(msg_prefix(), (k + 1) as nat)].message == all[k]@,
    ensures
        messages_along(nodes, first_message_ids(n)) == message_views(all.take(n as int)),
    decreases n,
{
    if n > 0 {
        lemma_messages_along_first(nodes, all, (n - 1) as nat);
        assert(first_message_ids(n).drop_last() =~= first_message_ids((n - 1) as nat));
        assert(first_message_ids(n).last() == seq_id(msg_prefix(), n));
        assert(nodes.dom().contains(seq_id(msg_prefix(), ((n - 1) + 1) as nat)));
        assert(message_views(all.take(n as int)) =~= message_views(all.take(n - 1)).push(
            all[n - 1]@,
        ));
    } else {
        assert(message_views(all.take(0)) =~= Seq::<MessageView>::empty());
    }
}

/// The first position of `id` in `path`.
pub open spec fn first_pos(path: Seq<Seq<char>>, id: Seq<char>) -> int {
    choose|i: int| 0 <= i < path.len() && path[i] == id && forall|k: int| 0 <= k < i ==> path[k] != id
}

/// The id that follows the first occurrence of `id` in `path`, if any.
pub open spec fn next_step(path: Seq<Seq<char>>, id: Seq<char>) -> Option<Seq<char>> {
    if first_pos(path, id) + 1 < path.len() {
        Some(path[first_pos(path, id) + 1])
    } else {
        None
    }
}

/// Two branches through `id` continue differently after it.
pub open spec fn is_branch_point_spec(v: TreeView, id: Seq<char>) -> bool {
    exists|b1: Seq<char>, b2: Seq<char>|
        #![trigger v.branches[b1], v.branches[b2]]
        v.branches.dom().contains(b1) && v.branches.dom().contains(b2) && v.branches[b1].path.contains(id)
            && v.branches[b2].path.contains(id) && next_step(v.branches[b1].path, id) != next_step(
            v.branches[b2].path,
            id,
        )
}

pub proof fn lemma_first_pos(path: Seq<Seq<char>>, id: Seq<char>, i: int)
    requires
        0 <= i < path.len(),
        path[i] == id,
        forall|k: int| 0 <= k < i ==> path[k] != id,
    ensures
        first_pos(path, id) == i,
{
    let j = first_pos(path, id);
    assert(0 <= j < path.len() && path[j] == id && forall|k: int| 0 <= k < j ==> path[k] != id);
    if j < i {
        assert(path[j] != id);
    }
    if i < j {
        assert(path[i] != id);
    }
}

impl ConversationTree {
    pub fn branch_count(&self) -> (r: usize)
        requires
            self.wf(),
        ensures
            r == self@.branches.dom().len(),
    {
        proof {
            self.lemma_branch_dom_len();
        }
        self.branches.len()
    }

    proof fn lemma_branch_dom_len(&self)
        requires
            self.wf(),
        ensures
            self@.branches.dom().len() == self.branches@.len(),
            self@.branches.dom().finite(),
    {
        let ids = branch_ids(self.branches@);
        assert(self@.branches.dom() =~= ids.to_set());
        ids.unique_seq_to_set();
    }

    /// Position of the first occurrence of `message_id` in the active branch.
    pub fn current_index_of_message(&self, message_id: &str) -> (r: Option<usize>)
        requires
            self.wf(),
        ensures
            match r {
                Some(i) => i < current_path_of(self@).len() && first_pos(current_path_of(self@), message_id@) == i
                    && current_path_of(self@)[i as int] == message_id@,
                None => !current_path_of(self@).contains(message_id@),
            },
    {
        let path = self.current_path();
        let id = crate::text::owned(message_id);
        match position_of(path, &id) {
            Some(i) => {
                proof {
                    lemma_first_pos(views(path@), message_id@, i as int);
                }
                Some(i)
            },
            None => {
                proof {
                    if views(path@).contains(message_id@) {
                        let j = views(path@).index_of(message_id@);
                        assert(path@[j]@ == message_id@);
                    }
                }
                None
            },
        }
    }

    pub fn message_id_at_current_index(&self, zero_based_index: usize) -> (r: Option<&str>)
        requires
            self.wf(),
        ensures
            r.is_some() == (zero_based_index < current_path_of(self@).len()),
            r matches Some(s) ==> s@ == current_path_of(self@)[zero_based_index as int],
    {
        let path = self.current_path();
        if zero_based_index < path.len() {
            Some(path[zero_based_index].as_str())
        } else {
            None
        }
    }

    /// Adds `branch`, replacing a branch with the same id.
    fn insert_branch(&mut self, branch: ConversationBranch)
        requires
            old(self).wf(),
        ensures
            final(self).wf(),
            final(self)@ == (TreeView {
                branches: old(self)@.branches.insert(branch.id@, branch_view(branch)),
                ..old(self)@
            }),
            final(self).nodes == old(self).nodes,
    {
        let ghost old_branches = self.branches@;
        let ghost vals = old_branches.map_values(|b: ConversationBranch| branch_view(b));
        match self.find_branch(&branch.id) {
            Some(i) => {
                let ghost bv = branch_view(branch);
                self.branches.set(i, branch);
                proof {
                    assert(branch_ids(self.branches@) =~= branch_ids(old_branches));
                    assert(self.branches@.map_values(|b: ConversationBranch| branch_view(b))
                        =~= vals.update(i as int, bv));
                    lemma_keyed_update(branch_ids(old_branches), vals, i as int, bv);
                }
            },
            None => {
                let ghost bv = branch_view(branch);
                let ghost k = branch.id@;
                self.branches.push(branch);
                proof {
                    assert(!branch_ids(old_branches).contains(k));
                    assert(branch_ids(self.branches@) =~= branch_ids(old_branches).push(k));
                    assert(self.branches@.map_values(|b: ConversationBranch| branch_view(b))
                        =~= vals.push(bv));
                    lemma_keyed_push(branch_ids(old_branches), vals, k, bv);
                }
            },
        }
    }

    /// Starts a new branch that shares the active branch up to `message_id`
    /// and makes it the active branch.
    pub fn create_branch_from_message(&mut self, message_id: &str) -> (r: Result<String, TreeError>)
        requires
            old(self).wf(),
            old(self)@.next_branch_seq < u64::MAX,
        ensures
            final(self).wf(),
            !current_path_of(old(self)@).contains(message_id@) ==> {
                &&& r matches Err(TreeError::MessageNotInActiveBranch(s)) && s@ == message_id@
                &&& final(self)@ == old(self)@
            },
            current_path_of(old(self)@).contains(message_id@) ==> {
                let new_id = seq_id(branch_prefix(), old(self)@.next_branch_seq as nat);
                &&& r matches Ok(b) && b@ == new_id
                &&& final(self)@ == branched(old(self)@, message_id@, new_id)
            },
    {
        let index = match self.current_index_of_message(message_id) {
            Some(index) => index,
            None => {
                return Err(TreeError::MessageNotInActiveBranch(crate::text::owned(message_id)));
            },
        };
        let branch_id = format_branch_id(self.next_branch_seq);
        self.next_branch_seq = self.next_branch_seq + 1;
        let current = self.current_path();
        let mut path: Vec<String> = Vec::new();
        let mut i: usize = 0;
        while i <= index
            invariant
                i <= index + 1,
                index < current.len(),
                path@ == current@.take(i as int),
            decreases index + 1 - i,
        {
            path.push(current[i].clone());
            i += 1;
            assert(current@.take(i as int) == current@.take((i - 1) as int).push(current@[i - 1]));
        }
        let ghost old_path = views(current@);
        let branch = ConversationBranch {
            id: branch_id.clone(),
            path,
            created_from: Some(crate::text::owned(message_id)),
        };
        assert(views(branch.path@) =~= old_path.take(index + 1));
        self.insert_branch(branch);
        self.current_branch_id = branch_id.clone();
        Ok(branch_id)
    }

    pub fn switch_branch(&mut self, branch_id: &str) -> (r: Result<(), TreeError>)
        requires
            old(self).wf(),
        ensures
            final(self).wf(),
            final(self)@ == switched_to(old(self)@, branch_id@),
            old(self)@.branches.dom().contains(branch_id@) ==> r is Ok,
            !old(self)@.branches.dom().contains(branch_id@) ==> final(self)@ == old(self)@ && (
            r matches Err(TreeError::UnknownBranch(s)) && s@ == branch_id@),
    {
        let id = crate::text::owned(branch_id);
        match self.find_branch(&id) {
            Some(i) => {
                proof {
                    self.lemma_branch_at(i as int);
                }
                self.current_branch_id = id;
                Ok(())
            },
            None => Err(TreeError::UnknownBranch(id)),
        }
    }

    /// Whether two branches through `message_id` continue differently.
    pub fn is_branch_point(&self, message_id: &str) -> (r: bool)
        requires
            self.wf(),
        ensures
            r == is_branch_point_spec(self@, message_id@),
    {
        let id = crate::text::owned(message_id);
        let mut first: Option<Option<String>> = None;
        let mut first_branch: usize = 0;
        let mut i: usize = 0;
        while i < self.branches.len()
            invariant
                self.wf(),
                i <= self.branches.len(),
                id@ == message_id@,
                first_branch <= i,
                match first {
                    None => forall|k: int|
                        0 <= k < i ==> !views(#[trigger] self.branches@[k].path@).contains(id@),
                    Some(step) => first_branch < i && views(self.branches@[first_branch as int].path@).contains(
                        id@,
                    ) && opt_view(step) == next_step(
                        views(self.branches@[first_branch as int].path@),
                        id@,
                    ) && forall|k: int|
                        0 <= k < i && views(#[trigger] self.branches@[k].path@).contains(id@)
                            ==> next_step(views(self.branches@[k].path@), id@) == opt_view(step),
                },
            decreases self.branches.len() - i,
        {
            let step = self.step_after(i, &id);
            match &step {
                None => {},
                Some(s) => {
                    match &first {
                        None => {
                            first = Some(copy_opt(s));
                            first_branch = i;
                        },
                        Some(f) => {
                            if !opt_eq(f, s) {
                                proof {
                                    self.lemma_branch_at(first_branch as int);
                                    self.lemma_branch_at(i as int);
                                    let b1 = self.branches@[first_branch as int].id@;
                                    let b2 = self.branches@[i as int].id@;
                                    assert(self@.branches[b1].path.contains(id@));
                                    assert(self@.branches[b2].path.contains(id@));
                                }
                                return true;
                            }
                        },
                    }
                },
            }
            i += 1;
        }
        proof {
            assert forall|b1: Seq<char>, b2: Seq<char>|
                self@.branches.dom().contains(b1) && self@.branches.dom().contains(b2)
                    && self@.branches[b1].path.contains(id@) && self@.branches[b2].path.contains(
                    id@,
                ) implies next_step(self@.branches[b1].path, id@) == next_step(
                self@.branches[b2].path,
                id@,
            ) by {
                let j1 = branch_ids(self.branches@).index_of(b1);
                let j2 = branch_ids(self.branches@).index_of(b2);
                self.lemma_branch_at(j1);
                self.lemma_branch_at(j2);
            }
        }
        false
    }

    /// `Some(next)` when the branch at `i` passes through `id`, where `next`
    /// is the id after it.
    fn step_after(&self, i: usize, id: &String) -> (r: Option<Option<String>>)
        requires
            i < self.branches@.len(),
        ensures
            r.is_some() == views(self.branches@[i as int].path@).contains(id@),
            r matches Some(step) ==> opt_view(step) == next_step(
                views(self.branches@[i as int].path@),
                id@,
            ),
    {
        let path = &self.branches[i].path;
        match position_of(path.as_slice(), id) {
            Some(k) => {
                proof {
                    lemma_first_pos(views(path@), id@, k as int);
                    assert(views(path@)[k as int] == id@);
                }
                if k < path.len() - 1 {
                    Some(Some(path[k + 1].clone()))
                } else {
                    Some(None)
                }
            },
            None => {
                proof {
                    if views(path@).contains(id@) {
                        let j = views(path@).index_of(id@);
                        assert(path@[j]@ == id@);
                    }
                }
                None
            },
        }
    }
}

impl ConversationTree {
    /// The message of node `message_id`, for editing in place.
    pub fn message_mut(&mut self, message_id: &str) -> (r: Option<&mut ChatMessage>)
        requires
            old(self).wf(),
        ensures
            r.is_some() == old(self)@.nodes.dom().contains(message_id@),
            r.is_none() ==> *final(self) == *old(self),
            r matches Some(m) ==> {
                &&& (*m)@ == old(self)@.nodes[message_id@].message
                &&& final(self).wf()
                &&& final(self)@ == (TreeView {
                    nodes: old(self)@.nodes.insert(
                        message_id@,
                        NodeView { message: final(m)@, ..old(self)@.nodes[message_id@] },
                    ),
                    ..old(self)@
                })
            },
    {
        let id = crate::text::owned(message_id);
        match self.find_node(&id) {
            Some(i) => {
                proof {
                    self.lemma_node_at(i as int);
                }
                let ghost old_nodes = self.nodes@;
                let r = &mut self.nodes[i].message;
                proof {
                    lemma_set_message(old_nodes, i as int, *final(r));
                }
                Some(r)
            },
            None => None,
        }
    }
}

proof fn lemma_set_message(nodes: Seq<ConversationNode>, i: int, m: ChatMessage)
    requires
        node_ids(nodes).no_duplicates(),
        0 <= i < nodes.len(),
    ensures
        ({
            let updated = nodes.update(i, ConversationNode { message: m, ..nodes[i] });
            &&& node_ids(updated).no_duplicates()
            &&& node_map(updated) == node_map(nodes).insert(
                nodes[i].id@,
                NodeView { message: m@, ..node_map(nodes)[nodes[i].id@] },
            )
        }),
{
    let updated = nodes.update(i, ConversationNode { message: m, ..nodes[i] });
    let vals = nodes.map_values(|n: ConversationNode| node_view(n));
    assert(node_ids(updated) =~= node_ids(nodes));
    lemma_keyed_index(node_ids(nodes), vals, i);
    assert(updated.map_values(|n: ConversationNode| node_view(n)) =~= vals.update(
        i,
        NodeView { message: m@, ..node_map(nodes)[nodes[i].id@] },
    ));
    lemma_keyed_update(node_ids(nodes), vals, i, NodeView { message: m@, ..node_map(nodes)[nodes[i].id@] });
}

/// Number of characters before the first line feed.
pub open spec fn line_len(s: Seq<char>) -> nat
    decreases s.len(),
{
    if s.len() == 0 || s[0] == '\n' {
        0
    } else {
        1 + line_len(s.drop_first())
    }
}

/// One-line preview: the first line, trimmed, cut at 60 characters.
pub open spec fn preview_spec(content: Seq<char>) -> Seq<char> {
    let line = crate::text::trim(content.take(line_len(content) as int));
    if line.len() == 0 {
        "<empty>"@
    } else if line.len() > 60 {
        line.take(60).push('…')
    } else {
        line
    }
}

pub ghost struct SummaryView {
    pub id: Seq<char>,
    pub is_current: bool,
    pub message_count: nat,
    pub created_from: Option<Seq<char>>,
    pub created_from_message_number: Option<nat>,
    pub last_message_preview: Seq<char>,
}

pub open spec fn summary_view(s: BranchSummary) -> SummaryView {
    SummaryView {
        id: s.id@,
        is_current: s.is_current,
        message_count: s.message_count as nat,
        created_from: opt_view(s.created_from),
        created_from_message_number: match s.created_from_message_number {
            Some(n) => Some(n as nat),
            None => None,
        },
        last_message_preview: s.last_message_preview@,
    }
}

/// The summary of branch `b` of the tree.
pub open spec fn summary_of(v: TreeView, b: Seq<char>) -> SummaryView {
    let br = v.branches[b];
    SummaryView {
        id: b,
        is_current: b == v.current,
        message_count: br.path.len(),
        created_from: br.created_from,
        created_from_message_number: match br.created_from {
            Some(c) => if br.path.contains(c) {
                Some((first_pos(br.path, c) + 1) as nat)
            } else {
                None
            },
            None => None,
        },
        last_message_preview: if br.path.len() > 0 && v.nodes.dom().contains(br.path.last()) {
            preview_spec(v.nodes[br.path.last()].message.content)
        } else {
            "Empty branch"@
        },
    }
}

pub open spec fn summary_ids(r: Seq<BranchSummary>) -> Seq<Seq<char>> {
    r.map_values(|s: BranchSummary| s.id@)
}

/// `preview_message`.
pub fn preview_message(content: &str) -> (r: String)
    ensures
        r@ == preview_spec(content@),
        forall|k: int| 0 <= k < r@.len() ==> r@[k] != '\n',
{
    proof {
        law_preview_is_first_line(content@);
    }
    let chars = crate::text::to_chars(content);
    let mut n: usize = 0;
    while n < chars.len() && chars[n] != '\n'
        invariant
            n <= chars.len(),
            forall|k: int| 0 <= k < n ==> chars@[k] != '\n',
        decreases chars.len() - n,
    {
        n += 1;
    }
    proof {
        lemma_line_len(chars@, n as int);
    }
    let first = crate::text::slice_vec(&chars, 0, n);
    assert(first@ == content@.take(line_len(content@) as int));
    let line = crate::text::trim_vec(&first);
    if line.len() == 0 {
        return crate::text::owned("<empty>");
    }
    if line.len() > 60 {
        let mut cut = crate::text::slice_vec(&line, 0, 60);
        cut.push('…');
        assert(line@.subrange(0, 60) == line@.take(60));
        crate::text::from_chars(&cut)
    } else {
        crate::text::from_chars(&line)
    }
}

proof fn lemma_line_len(s: Seq<char>, n: int)
    requires
        0 <= n <= s.len(),
        forall|k: int| 0 <= k < n ==> s[k] != '\n',
        n == s.len() || s[n] == '\n',
    ensures
        line_len(s) == n,
    decreases n,
{
    if n > 0 {
        assert forall|k: int| 0 <= k < n - 1 implies s.drop_first()[k] != '\n' by {
            assert(s.drop_first()[k] == s[k + 1]);
        }
        if n - 1 < s.drop_first().len() {
            assert(s.drop_first()[n - 1] == s[n]);
        }
        lemma_line_len(s.drop_first(), n - 1);
    }
}

proof fn lemma_line_len_props(s: Seq<char>)
    ensures
        line_len(s) <= s.len(),
        forall|k: int| 0 <= k < line_len(s) ==> s[k] != '\n',
    decreases s.len(),
{
    if s.len() > 0 && s[0] != '\n' {
        lemma_line_len_props(s.drop_first());
        assert forall|k: int| 0 <= k < line_len(s) implies s[k] != '\n' by {
            if k > 0 {
                assert(s[k] == s.drop_first()[k - 1]);
            }
        }
    }
}

/// The part of a preview that comes from the message: the preview without the
/// ellipsis that marks a cut.
pub open spec fn preview_body(p: Seq<char>) -> Seq<char> {
    if p.len() > 60 {
        p.take(60)
    } else {
        p
    }
}

/// A branch preview is one line: it holds no line feed, is at most 60
/// characters of the message (and an ellipsis when cut), and those characters
/// stand in the message, starting with one that is not white space, before its
/// first line feed. A message with nothing but white space on its first line
/// is previewed as "<empty>".
pub proof fn law_preview_is_first_line(content: Seq<char>)
    ensures
        forall|k: int| 0 <= k < preview_spec(content).len() ==> preview_spec(content)[k] != '\n',
        preview_spec(content).len() <= 61,
        preview_spec(content) == "<empty>"@ || exists|i: int|
            0 <= i && i + preview_body(preview_spec(content)).len() <= content.len()
                && content.subrange(i, i + preview_body(preview_spec(content)).len())
                == preview_body(preview_spec(content))
                && !crate::text::is_ws(content[i])
                && forall|k: int|
                0 <= k < i + preview_body(preview_spec(content)).len() ==> content[k] != '\n',
{
    reveal_strlit("<empty>");
    let l = line_len(content) as int;
    lemma_line_len_props(content);
    let first = content.take(l);
    let ts = crate::text::trim_start(first);
    crate::text::lemma_trim_start_len(first);
    crate::text::lemma_trim_end_len(ts);
    let line = trim(first);
    let a = first.len() - ts.len();
    assert(line == first.subrange(a, a + line.len()));
    let p = preview_spec(content);
    if line.len() == 0 {
        assert(p == "<empty>"@);
    } else {
        let q = preview_body(p);
        if line.len() > 60 {
            assert(q =~= line.take(60));
        } else {
            assert(q == line);
        }
        assert(content.subrange(a, a + q.len()) =~= q);
        assert(content[a] == line[0]);
        assert(!crate::text::is_ws(ts[0]));
        assert(line[0] == ts[0]);
        assert forall|k: int| 0 <= k < p.len() implies p[k] != '\n' by {
            if k < line.len() && k < 60 {
                assert(p[k] == line[k]);
                assert(line[k] == content[a + k]);
            }
        }
    }
}

impl ConversationTree {
    /// The summary of the branch at index `bi`.
    fn summary_at(&self, bi: usize) -> (r: BranchSummary)
        requires
            self.wf(),
            bi < self.branches@.len(),
        ensures
            summary_view(r) == summary_of(self@, self.branches@[bi as int].id@),
    {
        proof {
            self.lemma_branch_at(bi as int);
        }
        let branch = &self.branches[bi];
        let n = branch.path.len();
        let last_message_preview = if n > 0 {
            match self.find_node(&branch.path[n - 1]) {
                Some(k) => {
                    proof {
                        self.lemma_node_at(k as int);
                    }
                    preview_message(self.nodes[k].message.content.as_str())
                },
                None => crate::text::owned("Empty branch"),
            }
        } else {
            crate::text::owned("Empty branch")
        };
        let created_from_message_number = match &branch.created_from {
            Some(c) => match position_of(branch.path.as_slice(), c) {
                Some(p) => {
                    proof {
                        lemma_first_pos(views(branch.path@), c@, p as int);
                        assert(views(branch.path@)[p as int] == c@);
                        assert(views(branch.path@).contains(c@));
                    }
                    Some(p + 1)
                },
                None => {
                    proof {
                        if views(branch.path@).contains(c@) {
                            let j = views(branch.path@).index_of(c@);
                            assert(branch.path@[j]@ == c@);
                        }
                    }
                    None
                },
            },
            None => None,
        };
        let r = BranchSummary {
            id: branch.id.clone(),
            is_current: branch.id == self.current_branch_id,
            message_count: n,
            created_from: copy_opt(&branch.created_from),
            created_from_message_number,
            last_message_preview,
        };
        proof {
            let b = self.branches@[bi as int].id@;
            let br = self@.branches[b];
            assert(br == branch_view(*branch));
            assert(summary_view(r).id == b);
            assert(summary_view(r).message_count == br.path.len());
            assert(summary_view(r).created_from == br.created_from);
            assert(br.path == views(branch.path@));
            match &branch.created_from {
                Some(c) => {
                    assert(br.created_from == Some(c@));
                    if views(branch.path@).contains(c@) {
                        assert(created_from_message_number.is_some());
                    }
                },
                None => {},
            }
            assert(summary_view(r).created_from_message_number == summary_of(self@, b).created_from_message_number);
            if n > 0 {
                assert(br.path.last() == branch.path@[n - 1]@);
            }
            assert(summary_view(r).last_message_preview == summary_of(self@, b).last_message_preview);
        }
        r
    }

    /// One summary per branch, ordered by branch number.
    pub fn branch_summaries(&self) -> (r: Vec<BranchSummary>)
        requires
            self.wf(),
        ensures
            summary_ids(r@).no_duplicates(),
            forall|b: Seq<char>| #[trigger] summary_ids(r@).contains(b) <==> self@.branches.dom().contains(b),
            forall|i: int| 0 <= i < r@.len() ==> #[trigger] summary_view(r@[i]) == summary_of(self@, r@[i].id@),
            crate::ids::adjacent_sorted(summary_ids(r@), branch_prefix()),
    {
        let mut ids: Vec<String> = Vec::new();
        let mut i: usize = 0;
        while i < self.branches.len()
            invariant
                i <= self.branches.len(),
                ids@ == self.branches@.take(i as int).map_values(|b: ConversationBranch| b.id),
            decreases self.branches.len() - i,
        {
            ids.push(self.branches[i].id.clone());
            i += 1;
            assert(self.branches@.take(i as int).map_values(|b: ConversationBranch| b.id) =~= self.branches@.take(
                (i - 1) as int,
            ).map_values(|b: ConversationBranch| b.id).push(self.branches@[i - 1].id));
        }
        assert(self.branches@.take(self.branches.len() as int) == self.branches@);
        let ghost unsorted = ids@;
        let prefix = vec!['b', 'r', 'a', 'n', 'c', 'h', '-'];
        assert(prefix@ == branch_prefix());
        sort_ids(&mut ids, &prefix);
        proof {
            assert(views(unsorted) =~= branch_ids(self.branches@));
            lemma_views_contains_from_multiset(unsorted, ids@);
            lemma_no_dup_perm(views(unsorted), views(ids@));
        }
        let mut r: Vec<BranchSummary> = Vec::new();
        let mut j: usize = 0;
        while j < ids.len()
            invariant
                self.wf(),
                j <= ids.len(),
                r@.len() == j,
                forall|b: Seq<char>| views(ids@).contains(b) ==> self@.branches.dom().contains(b),
                forall|k: int| 0 <= k < j ==> #[trigger] r@[k].id@ == ids@[k]@,
                forall|k: int| 0 <= k < j ==> #[trigger] summary_view(r@[k]) == summary_of(self@, r@[k].id@),
            decreases ids.len() - j,
        {
            assert(views(ids@)[j as int] == ids@[j as int]@);
            assert(views(ids@).contains(ids@[j as int]@));
            match self.find_branch(&ids[j]) {
                Some(bi) => {
                    r.push(self.summary_at(bi));
                },
                None => {
                    assert(false);
                },
            }
            j += 1;
        }
        proof {
            assert(summary_ids(r@) =~= views(ids@));
        }
        r
    }
}

proof fn lemma_no_dup_perm<A>(s1: Seq<A>, s2: Seq<A>)
    requires
        s1.no_duplicates(),
        s1.to_multiset() == s2.to_multiset(),
    ensures
        s2.no_duplicates(),
{
    s1.lemma_multiset_has_no_duplicates();
    s2.lemma_multiset_has_no_duplicates_conv();
}

fn copy_opt(s: &Option<String>) -> (r: Option<String>)
    ensures
        r == *s,
{
    crate::protocol::copy_opt_string(s)
}

fn opt_eq(a: &Option<String>, b: &Option<String>) -> (r: bool)
    ensures
        r == (opt_view(*a) == opt_view(*b)),
{
    match (a, b) {
        (Some(x), Some(y)) => *x == *y,
        (None, None) => true,
        _ => false,
    }
}

spec fn nv_children(nv: NodeView, node: ConversationNode) -> Seq<String> {
    node.child_ids@
}

} // verus!

verus! {

/// `a` is immediately followed by `b` on the path of some branch.
pub open spec fn path_adjacent(branches: Map<Seq<char>, BranchView>, a: Seq<char>, b: Seq<char>) -> bool {
    exists|bid: Seq<char>, k: int|
        #![trigger branches[bid].path[k], branches[bid].path[k + 1]]
        branches.dom().contains(bid) && 0 <= k && k + 1 < branches[bid].path.len()
            && branches[bid].path[k] == a && branches[bid].path[k + 1] == b
}

/// `x` starts the path of some branch.
pub open spec fn path_first(branches: Map<Seq<char>, BranchView>, x: Seq<char>) -> bool {
    exists|bid: Seq<char>|
        #![trigger branches[bid]]
        branches.dom().contains(bid) && branches[bid].path.len() > 0 && branches[bid].path[0] == x
}

/// Roots, parents and children are those that the branch paths define.
pub open spec fn structure_rebuilt(v: TreeView) -> bool {
    &&& v.root_ids.no_duplicates()
    &&& forall|x: Seq<char>| #[trigger] v.root_ids.contains(x) <==> path_first(v.branches, x)
    &&& forall|n: Seq<char>|
        #![trigger v.nodes[n]]
        v.nodes.dom().contains(n) ==> {
            &&& v.nodes[n].child_ids.no_duplicates()
            &&& forall|c: Seq<char>|
                #[trigger] v.nodes[n].child_ids.contains(c) <==> path_adjacent(v.branches, n, c)
            &&& (v.nodes[n].parent_id matches Some(p) ==> path_adjacent(v.branches, p, n))
            &&& (v.nodes[n].parent_id is None ==> forall|p: Seq<char>| !path_adjacent(v.branches, p, n))
        }
}

/// Every node lists its children in message-id order.
pub open spec fn children_sorted(v: TreeView) -> bool {
    forall|n: Seq<char>|
        #[trigger] v.nodes.dom().contains(n) ==> crate::ids::adjacent_sorted(v.nodes[n].child_ids, msg_prefix())
}

/// `acc` with `x` added at the end unless it is there already.
pub open spec fn push_unique_spec(acc: Seq<Seq<char>>, x: Seq<char>) -> Seq<Seq<char>> {
    if acc.contains(x) {
        acc
    } else {
        acc.push(x)
    }
}

/// How many parent-child windows a path has.
pub open spec fn windows_of(path: Seq<Seq<char>>) -> int {
    if path.len() == 0 {
        0
    } else {
        path.len() - 1
    }
}

/// The children of `m` collected after `acc` from the first `k` windows of
/// `path`, each added once.
pub open spec fn window_children(acc: Seq<Seq<char>>, path: Seq<Seq<char>>, m: Seq<char>, k: int) -> Seq<
    Seq<char>,
>
    decreases k,
{
    if k <= 0 {
        acc
    } else {
        let a = window_children(acc, path, m, k - 1);
        if path[k - 1] == m {
            push_unique_spec(a, path[k])
        } else {
            a
        }
    }
}

/// The children of `m` collected from the first `j` paths, in walk order.
pub open spec fn children_walk(paths: Seq<Seq<Seq<char>>>, m: Seq<char>, j: int) -> Seq<Seq<char>>
    decreases j,
{
    if j <= 0 {
        Seq::empty()
    } else {
        window_children(children_walk(paths, m, j - 1), paths[j - 1], m, windows_of(paths[j - 1]))
    }
}

/// The first messages of the first `j` paths, each once, in walk order.
pub open spec fn roots_walk(paths: Seq<Seq<Seq<char>>>, j: int) -> Seq<Seq<char>>
    decreases j,
{
    if j <= 0 {
        Seq::empty()
    } else if paths[j - 1].len() > 0 {
        push_unique_spec(roots_walk(paths, j - 1), paths[j - 1][0])
    } else {
        roots_walk(paths, j - 1)
    }
}

pub open spec fn paths_of(bs: Seq<ConversationBranch>) -> Seq<Seq<Seq<char>>> {
    bs.map_values(|b: ConversationBranch| views(b.path@))
}

/// The branch paths in walk order.
pub open spec fn walk_paths(v: TreeView) -> Seq<Seq<Seq<char>>> {
    walk_order(v).map_values(|b: Seq<char>| v.branches[b].path)
}

/// The roots a rebuild gives: the first messages of the paths in walk
/// order, each once, sorted by `compare_message_ids`.
pub open spec fn walked_roots(v: TreeView) -> Seq<Seq<char>> {
    crate::ids::sort_spec(roots_walk(walk_paths(v), walk_order(v).len() as int), msg_prefix())
}

/// The children a rebuild gives `m`: those that follow it on the paths in
/// walk order, each once, sorted by `compare_message_ids`.
pub open spec fn walked_children(v: TreeView, m: Seq<char>) -> Seq<Seq<char>> {
    crate::ids::sort_spec(children_walk(walk_paths(v), m, walk_order(v).len() as int), msg_prefix())
}

spec fn window(bs: Seq<ConversationBranch>, j: int, k: int, a: Seq<char>, b: Seq<char>) -> bool {
    &&& 0 <= j < bs.len()
    &&& 0 <= k
    &&& k + 1 < bs[j].path@.len()
    &&& bs[j].path@[k]@ == a
    &&& bs[j].path@[k + 1]@ == b
}

/// Adjacency over the windows of branches `0..j` and the first `k` windows of branch `j`.
spec fn adj_upto(bs: Seq<ConversationBranch>, j: int, k: int, a: Seq<char>, b: Seq<char>) -> bool {
    ||| exists|jj: int, kk: int| 0 <= jj < j && #[trigger] window(bs, jj, kk, a, b)
    ||| exists|kk: int| 0 <= kk < k && #[trigger] window(bs, j, kk, a, b)
}

spec fn first_upto(bs: Seq<ConversationBranch>, j: int, x: Seq<char>) -> bool {
    exists|jj: int|
        #![trigger bs[jj]]
        0 <= jj < j && bs[jj].path@.len() > 0 && bs[jj].path@[0]@ == x
}

/// The node invariant while the structure is rebuilt.
spec fn links_upto(nodes: Map<Seq<char>, NodeView>, bs: Seq<ConversationBranch>, j: int, k: int) -> bool {
    forall|n: Seq<char>|
        #![trigger nodes[n]]
        nodes.dom().contains(n) ==> {
            &&& nodes[n].child_ids.no_duplicates()
            &&& forall|c: Seq<char>| #[trigger] nodes[n].child_ids.contains(c) <==> adj_upto(bs, j, k, n, c)
            &&& (nodes[n].parent_id matches Some(p) ==> adj_upto(bs, j, k, p, n))
            &&& (nodes[n].parent_id is None ==> forall|p: Seq<char>| !adj_upto(bs, j, k, p, n))
        }
}

proof fn lemma_adj_next_branch(bs: Seq<ConversationBranch>, j: int, k: int, a: Seq<char>, b: Seq<char>)
    requires
        0 <= j < bs.len(),
        k >= 0,
        k + 1 >= bs[j].path@.len(),
    ensures
        adj_upto(bs, j + 1, 0, a, b) == adj_upto(bs, j, k, a, b),
{
    if adj_upto(bs, j, k, a, b) {
        if exists|jj: int, kk: int| 0 <= jj < j && #[trigger] window(bs, jj, kk, a, b) {
            let (jj, kk) = choose|jj: int, kk: int| 0 <= jj < j && #[trigger] window(bs, jj, kk, a, b);
            assert(0 <= jj < j + 1 && window(bs, jj, kk, a, b));
        } else {
            let kk = choose|kk: int| 0 <= kk < k && #[trigger] window(bs, j, kk, a, b);
            assert(0 <= j < j + 1 && window(bs, j, kk, a, b));
        }
    }
    if adj_upto(bs, j + 1, 0, a, b) {
        let (jj, kk) = choose|jj: int, kk: int| 0 <= jj < j + 1 && #[trigger] window(bs, jj, kk, a, b);
        if jj < j {
            assert(0 <= jj < j && window(bs, jj, kk, a, b));
        } else {
            assert(0 <= kk < k && window(bs, j, kk, a, b));
        }
    }
}

proof fn lemma_adj_next_window(bs: Seq<ConversationBranch>, j: int, k: int, a: Seq<char>, b: Seq<char>)
    requires
        0 <= j < bs.len(),
        k >= 0,
    ensures
        adj_upto(bs, j, k + 1, a, b) == (adj_upto(bs, j, k, a, b) || window(bs, j, k, a, b)),
{
    if adj_upto(bs, j, k + 1, a, b) && !adj_upto(bs, j, k, a, b) {
        let kk = choose|kk: int| 0 <= kk < k + 1 && #[trigger] window(bs, j, kk, a, b);
        if kk < k {
            assert(0 <= kk < k && window(bs, j, kk, a, b));
        }
    }
    if window(bs, j, k, a, b) {
        assert(0 <= k < k + 1 && window(bs, j, k, a, b));
    }
    if adj_upto(bs, j, k, a, b) {
        if exists|kk: int| 0 <= kk < k && #[trigger] window(bs, j, kk, a, b) {
            let kk = choose|kk: int| 0 <= kk < k && #[trigger] window(bs, j, kk, a, b);
            assert(0 <= kk < k + 1 && window(bs, j, kk, a, b));
        }
    }
}

proof fn lemma_adj_all(bs: Seq<ConversationBranch>, a: Seq<char>, b: Seq<char>)
    requires
        branch_ids(bs).no_duplicates(),
    ensures
        adj_upto(bs, bs.len() as int, 0, a, b) == path_adjacent(branch_map(bs), a, b),
{
    let m = branch_map(bs);
    let vals = bs.map_values(|x: ConversationBranch| branch_view(x));
    if adj_upto(bs, bs.len() as int, 0, a, b) {
        let (jj, kk) = choose|jj: int, kk: int| 0 <= jj < bs.len() && #[trigger] window(bs, jj, kk, a, b);
        lemma_keyed_index(branch_ids(bs), vals, jj);
        let bid = bs[jj].id@;
        assert(m[bid].path == views(bs[jj].path@));
        assert(m[bid].path[kk] == a);
        assert(m[bid].path[kk + 1] == b);
    }
    if path_adjacent(m, a, b) {
        let (bid, k) = choose|bid: Seq<char>, k: int|
            #![trigger m[bid].path[k], m[bid].path[k + 1]]
            m.dom().contains(bid) && 0 <= k && k + 1 < m[bid].path.len() && m[bid].path[k] == a
                && m[bid].path[k + 1] == b;
        let jj = branch_ids(bs).index_of(bid);
        lemma_keyed_index(branch_ids(bs), vals, jj);
        assert(window(bs, jj, k, a, b));
    }
}

proof fn lemma_first_all(bs: Seq<ConversationBranch>, x: Seq<char>)
    requires
        branch_ids(bs).no_duplicates(),
    ensures
        first_upto(bs, bs.len() as int, x) == path_first(branch_map(bs), x),
{
    let m = branch_map(bs);
    let vals = bs.map_values(|y: ConversationBranch| branch_view(y));
    if first_upto(bs, bs.len() as int, x) {
        let jj = choose|jj: int| #![trigger bs[jj]] 0 <= jj < bs.len() && bs[jj].path@.len() > 0 && bs[jj].path@[0]@ == x;
        lemma_keyed_index(branch_ids(bs), vals, jj);
        let bid = bs[jj].id@;
        assert(m[bid].path == views(bs[jj].path@));
    }
    if path_first(m, x) {
        let bid = choose|bid: Seq<char>| #![trigger m[bid]] m.dom().contains(bid) && m[bid].path.len() > 0 && m[bid].path[0] == x;
        let jj = branch_ids(bs).index_of(bid);
        lemma_keyed_index(branch_ids(bs), vals, jj);
        assert(bs[jj].path@[0]@ == x);
    }
}

} // verus!

verus! {

impl ConversationTree {
    /// Replaces the node at index `i` by `node`, which has the same id.
    fn set_node_at(&mut self, i: usize, node: ConversationNode)
        requires
            old(self).wf(),
            i < old(self).nodes@.len(),
            node.id@ == old(self).nodes@[i as int].id@,
        ensures
            final(self).wf(),
            final(self).branches == old(self).branches,
            final(self).nodes@.len() == old(self).nodes@.len(),
            forall|k: int| 0 <= k < old(self).nodes@.len() ==> #[trigger] final(self).nodes@[k].id@ == old(self).nodes@[k].id@,
            final(self)@ == (TreeView {
                nodes: old(self)@.nodes.insert(node.id@, node_view(node)),
                ..old(self)@
            }),
    {
        let ghost old_nodes = self.nodes@;
        let ghost vals = old_nodes.map_values(|n: ConversationNode| node_view(n));
        let ghost nv = node_view(node);
        self.nodes.set(i, node);
        proof {
            assert(node_ids(self.nodes@) =~= node_ids(old_nodes));
            assert(self.nodes@.map_values(|n: ConversationNode| node_view(n)) =~= vals.update(i as int, nv));
            lemma_keyed_update(node_ids(old_nodes), vals, i as int, nv);
        }
    }

    fn set_branch_at(&mut self, i: usize, branch: ConversationBranch)
        requires
            old(self).wf(),
            i < old(self).branches@.len(),
            branch.id@ == old(self).branches@[i as int].id@,
        ensures
            final(self).wf(),
            branch_ids(final(self).branches@) == branch_ids(old(self).branches@),
            final(self)@ == (TreeView {
                branches: old(self)@.branches.insert(branch.id@, branch_view(branch)),
                ..old(self)@
            }),
    {
        let ghost old_branches = self.branches@;
        let ghost vals = old_branches.map_values(|b: ConversationBranch| branch_view(b));
        let ghost bv = branch_view(branch);
        self.branches.set(i, branch);
        proof {
            assert(branch_ids(self.branches@) =~= branch_ids(old_branches));
            assert(self.branches@.map_values(|b: ConversationBranch| branch_view(b)) =~= vals.update(i as int, bv));
            lemma_keyed_update(branch_ids(old_branches), vals, i as int, bv);
        }
    }

    /// Recomputes roots, parents and children from the branch paths.
    fn rebuild_structure_from_paths(&mut self)
        requires
            old(self).wf(),
        ensures
            final(self).wf(),
            branch_ids(final(self).branches@) == walk_order(old(self)@),
            final(self)@.branches == old(self)@.branches,
            final(self)@.current == old(self)@.current,
            final(self)@.next_message_seq == old(self)@.next_message_seq,
            final(self)@.next_branch_seq == old(self)@.next_branch_seq,
            final(self)@.nodes.dom() == old(self)@.nodes.dom(),
            forall|k: Seq<char>|
                old(self)@.nodes.dom().contains(k) ==> #[trigger] final(self)@.nodes[k].message
                    == old(self)@.nodes[k].message,
            structure_rebuilt(final(self)@),
            crate::ids::adjacent_sorted(final(self)@.root_ids, msg_prefix()),
            children_sorted(final(self)@),
            final(self)@.root_ids == walked_roots(old(self)@),
            forall|m: Seq<char>|
                #[trigger] final(self)@.nodes.dom().contains(m) ==> final(self)@.nodes[m].child_ids == walked_children(
                    old(self)@,
                    m,
                ),
    {
        self.order_branches_for_walk();
        let ghost bs = self.branches@;
        let ghost orig = self@;
        let ghost pv = paths_of(bs);
        proof {
            assert(orig == old(self)@);
            assert forall|q: int| 0 <= q < bs.len() implies #[trigger] pv[q] == walk_paths(orig)[q] by {
                lemma_keyed_index(branch_ids(bs), bs.map_values(|b: ConversationBranch| branch_view(b)), q);
                assert(walk_order(orig)[q] == bs[q].id@);
            }
            assert(pv =~= walk_paths(orig));
        }
        let mut i: usize = 0;
        while i < self.nodes.len()
            invariant
                self.wf(),
                self.branches@ == bs,
                i <= self.nodes@.len(),
                self@.current == orig.current,
                self@.branches == orig.branches,
                self@.next_message_seq == orig.next_message_seq,
                self@.next_branch_seq == orig.next_branch_seq,
                self@.nodes.dom() == orig.nodes.dom(),
                forall|k: Seq<char>| orig.nodes.dom().contains(k) ==> #[trigger] self@.nodes[k].message == orig.nodes[k].message,
                forall|k: int| 0 <= k < i ==> #[trigger] self@.nodes[self.nodes@[k].id@].parent_id is None
                    && self@.nodes[self.nodes@[k].id@].child_ids.len() == 0,
            decreases self.nodes@.len() - i,
        {
            proof {
                self.lemma_node_at(i as int);
            }
            let node = ConversationNode {
                id: self.nodes[i].id.clone(),
                parent_id: None,
                child_ids: Vec::new(),
                message: self.nodes[i].message.copy(),
            };
            let ghost before = self@;
            let ghost before_nodes = self.nodes@;
            self.set_node_at(i, node);
            proof {
                let id = before_nodes[i as int].id@;
                assert(before.nodes[id] == node_view(before_nodes[i as int]));
                assert forall|q: Seq<char>| orig.nodes.dom().contains(q) implies #[trigger] self@.nodes[q].message == orig.nodes[q].message by {
                    assert(before.nodes[q].message == orig.nodes[q].message);
                    if q != id {
                        assert(self@.nodes[q] == before.nodes[q]);
                    }
                }
                assert forall|k: int| 0 <= k < i + 1 implies #[trigger] self@.nodes[self.nodes@[k].id@].parent_id is None
                    && self@.nodes[self.nodes@[k].id@].child_ids.len() == 0 by {
                    if self.nodes@[k].id@ != self.nodes@[i as int].id@ {
                        assert(self.nodes@[k].id@ == before_nodes[k].id@);
                    }
                }
            }
            i += 1;
        }
        proof {
            assert forall|n: Seq<char>| #![trigger self@.nodes[n]] self@.nodes.dom().contains(n) implies self@.nodes[n].parent_id is None
                && self@.nodes[n].child_ids.len() == 0 by {
                let k = node_ids(self.nodes@).index_of(n);
                assert(self.nodes@[k].id@ == n);
            }
            assert(links_upto(self@.nodes, bs, 0, 0));
            assert forall|m: Seq<char>| #![trigger self@.nodes[m]] self@.nodes.dom().contains(m) implies self@.nodes[m].child_ids
                == children_walk(pv, m, 0) by {
                assert(self@.nodes[m].child_ids =~= Seq::<Seq<char>>::empty());
            }
        }
        let mut roots: Vec<String> = Vec::new();
        let mut j: usize = 0;
        while j < self.branches.len()
            invariant
                self.wf(),
                self.branches@ == bs,
                j <= bs.len(),
                self@.current == orig.current,
                self@.branches == orig.branches,
                self@.next_message_seq == orig.next_message_seq,
                self@.next_branch_seq == orig.next_branch_seq,
                self@.nodes.dom() == orig.nodes.dom(),
                forall|k: Seq<char>| orig.nodes.dom().contains(k) ==> #[trigger] self@.nodes[k].message == orig.nodes[k].message,
                links_upto(self@.nodes, bs, j as int, 0),
                views(roots@).no_duplicates(),
                forall|x: Seq<char>| #[trigger] views(roots@).contains(x) <==> first_upto(bs, j as int, x),
                pv == paths_of(bs),
                views(roots@) == roots_walk(pv, j as int),
                forall|m: Seq<char>|
                    #![trigger self@.nodes[m]]
                    self@.nodes.dom().contains(m) ==> self@.nodes[m].child_ids == children_walk(pv, m, j as int),
            decreases bs.len() - j,
        {
            let n = self.branches[j].path.len();
            let ghost before_roots = views(roots@);
            if n > 0 {
                push_unique(&mut roots, self.branches[j].path[0].clone());
            }
            proof {
                let x0 = bs[j as int].path@[0]@;
                assert forall|x: Seq<char>| #[trigger] views(roots@).contains(x) <==> first_upto(bs, j + 1, x) by {
                    if first_upto(bs, j + 1, x) && !first_upto(bs, j as int, x) {
                        let jj = choose|jj: int| #![trigger bs[jj]] 0 <= jj < j + 1 && bs[jj].path@.len() > 0 && bs[jj].path@[0]@ == x;
                        assert(jj == j);
                        assert(views(roots@)[roots@.len() - 1] == x || before_roots.contains(x));
                    }
                    if first_upto(bs, j as int, x) {
                        let jj = choose|jj: int| #![trigger bs[jj]] 0 <= jj < j && bs[jj].path@.len() > 0 && bs[jj].path@[0]@ == x;
                        assert(0 <= jj < j + 1 && bs[jj].path@.len() > 0 && bs[jj].path@[0]@ == x);
                    }
                    if n > 0 && x == x0 {
                        assert(0 <= j < j + 1 && bs[j as int].path@.len() > 0 && bs[j as int].path@[0]@ == x);
                    }
                    if views(roots@).contains(x) {
                        if n > 0 && !before_roots.contains(x0) {
                            assert(views(roots@) =~= before_roots.push(x0));
                            if x != x0 {
                                let q = views(roots@).index_of(x);
                                assert(before_roots[q] == x);
                            }
                        }
                    }
                    if before_roots.contains(x) {
                        let q = before_roots.index_of(x);
                        assert(views(roots@)[q] == x);
                    }
                    if n > 0 && x == x0 && !before_roots.contains(x0) {
                        assert(views(roots@)[roots@.len() - 1] == x);
                    }
                }
                if n > 0 && !before_roots.contains(x0) {
                    assert(views(roots@) =~= before_roots.push(x0));
                    lemma_push_no_dup(before_roots, x0);
                }
                if n > 0 {
                    assert(pv[j as int][0] == x0);
                }
                assert(views(roots@) == roots_walk(pv, j + 1));
            }
            let mut k: usize = 0;
            while n > 0 && k < n - 1
                invariant
                    self.wf(),
                    self.branches@ == bs,
                    j < bs.len(),
                    n == bs[j as int].path@.len(),
                    n == 0 ==> k == 0,
                    n > 0 ==> k <= n - 1,
                    self@.current == orig.current,
                    self@.branches == orig.branches,
                    self@.next_message_seq == orig.next_message_seq,
                    self@.next_branch_seq == orig.next_branch_seq,
                    self@.nodes.dom() == orig.nodes.dom(),
                    forall|q: Seq<char>| orig.nodes.dom().contains(q) ==> #[trigger] self@.nodes[q].message == orig.nodes[q].message,
                    links_upto(self@.nodes, bs, j as int, k as int),
                    pv == paths_of(bs),
                    forall|m: Seq<char>|
                        #![trigger self@.nodes[m]]
                        self@.nodes.dom().contains(m) ==> self@.nodes[m].child_ids == window_children(
                            children_walk(pv, m, j as int),
                            pv[j as int],
                            m,
                            k as int,
                        ),
                decreases n - k,
            {
                let parent = self.branches[j].path[k].clone();
                let child = self.branches[j].path[k + 1].clone();
                let ghost a = parent@;
                let ghost b = child@;
                proof {
                    assert(window(bs, j as int, k as int, a, b));
                    assert forall|x: Seq<char>, y: Seq<char>| adj_upto(bs, j as int, (k + 1) as int, x, y) == (adj_upto(bs, j as int, k as int, x, y) || (x == a && y == b)) by {
                        lemma_adj_next_window(bs, j as int, k as int, x, y);
                    }
                }
                let ghost mid0 = self@;
                match self.find_node(&child) {
                    Some(ci) => {
                        proof { self.lemma_node_at(ci as int); }
                        let node = ConversationNode {
                            id: self.nodes[ci].id.clone(),
                            parent_id: Some(parent.clone()),
                            child_ids: crate::protocol::copy_strings(&self.nodes[ci].child_ids),
                            message: self.nodes[ci].message.copy(),
                        };
                        self.set_node_at(ci, node);
                    },
                    None => {},
                }
                let ghost mid1 = self@;
                match self.find_node(&parent) {
                    Some(pi) => {
                        proof { self.lemma_node_at(pi as int); }
                        let mut children = crate::protocol::copy_strings(&self.nodes[pi].child_ids);
                        let ghost before_children = views(children@);
                        push_unique(&mut children, child);
                        let ghost after_children = views(children@);
                        proof {
                            if !before_children.contains(b) {
                                assert(after_children =~= before_children.push(b));
                                lemma_push_no_dup(before_children, b);
                            }
                            assert forall|c: Seq<char>| after_children.contains(c) <==> (before_children.contains(c) || c == b) by {
                                if !before_children.contains(b) {
                                    assert(after_children =~= before_children.push(b));
                                    if c == b { assert(after_children[before_children.len() as int] == c); }
                                    if before_children.contains(c) { let q = before_children.index_of(c); assert(after_children[q] == c); }
                                    if after_children.contains(c) && c != b { let q = after_children.index_of(c); assert(before_children[q] == c); }
                                }
                            }
                        }
                        let node = ConversationNode {
                            id: self.nodes[pi].id.clone(),
                            parent_id: crate::protocol::copy_opt_string(&self.nodes[pi].parent_id),
                            child_ids: children,
                            message: self.nodes[pi].message.copy(),
                        };
                        self.set_node_at(pi, node);
                    },
                    None => {},
                }
                proof {
                    assert forall|q: Seq<char>| orig.nodes.dom().contains(q) implies #[trigger] self@.nodes[q].message == orig.nodes[q].message by {
                        assert(mid0.nodes[q].message == orig.nodes[q].message);
                        if q != a && q != b {
                            assert(self@.nodes[q] == mid1.nodes[q]);
                            assert(mid1.nodes[q] == mid0.nodes[q]);
                        } else if q == a {
                            assert(self@.nodes[q].message == mid1.nodes[q].message);
                            if q != b { assert(mid1.nodes[q] == mid0.nodes[q]); }
                        } else {
                            assert(mid1.nodes[q].message == mid0.nodes[q].message);
                            assert(self@.nodes[q] == mid1.nodes[q]);
                        }
                    }
                    let nodes = self@.nodes;
                    let k1: int = (k + 1) as int;
                    assert forall|m: Seq<char>| #![trigger nodes[m]] nodes.dom().contains(m) implies {
                        &&& nodes[m].child_ids.no_duplicates()
                        &&& forall|c: Seq<char>| #[trigger] nodes[m].child_ids.contains(c) <==> adj_upto(bs, j as int, k1, m, c)
                        &&& (nodes[m].parent_id matches Some(p) ==> adj_upto(bs, j as int, k1, p, m))
                        &&& (nodes[m].parent_id is None ==> forall|p: Seq<char>| !adj_upto(bs, j as int, k1, p, m))
                    } by {
                        assert(mid0.nodes.dom().contains(m));
                        assert(mid0.nodes[m].child_ids.no_duplicates());
                        if m == b {
                            assert(mid1.nodes[m].parent_id == Some(a));
                        } else {
                            assert(mid1.nodes[m].parent_id == mid0.nodes[m].parent_id);
                        }
                        if m == a {
                        } else {
                            assert(nodes[m].child_ids == mid1.nodes[m].child_ids);
                        }
                        assert(nodes[m].parent_id == mid1.nodes[m].parent_id);
                        if m != b {
                            if nodes[m].parent_id is None {
                                assert forall|p: Seq<char>| #![trigger adj_upto(bs, j as int, k1, p, m)] !adj_upto(bs, j as int, k1, p, m) by {
                                    assert(!adj_upto(bs, j as int, k as int, p, m));
                                }
                            }
                        }
                        if m != a {
                            assert(mid1.nodes[m].child_ids == mid0.nodes[m].child_ids);
                        }
                    }
                    assert(pv[j as int][k as int] == a);
                    assert(pv[j as int][k + 1] == b);
                    assert forall|m: Seq<char>| #![trigger nodes[m]] nodes.dom().contains(m) implies nodes[m].child_ids
                        == window_children(children_walk(pv, m, j as int), pv[j as int], m, k1) by {
                        assert(mid0.nodes.dom().contains(m));
                        if m == a {
                            assert(mid1.nodes[m].child_ids == mid0.nodes[m].child_ids);
                        } else {
                            assert(nodes[m].child_ids == mid1.nodes[m].child_ids);
                            assert(mid1.nodes[m].child_ids == mid0.nodes[m].child_ids);
                        }
                    }
                }
                k += 1;
            }
            proof {
                let kk: int = if n == 0 { 0 } else { k as int };
                let j1: int = j + 1;
                assert forall|x: Seq<char>, y: Seq<char>| adj_upto(bs, j1, 0, x, y) == adj_upto(bs, j as int, kk, x, y) by {
                    lemma_adj_next_branch(bs, j as int, kk, x, y);
                }
                if n == 0 {
                    assert forall|x: Seq<char>, y: Seq<char>| adj_upto(bs, j as int, k as int, x, y) == adj_upto(bs, j as int, 0, x, y) by {}
                }
                let nodes = self@.nodes;
                assert(k as int == windows_of(pv[j as int]));
                assert forall|m: Seq<char>| #![trigger nodes[m]] nodes.dom().contains(m) implies nodes[m].child_ids
                    == children_walk(pv, m, j1) by {}
                assert forall|m: Seq<char>| #![trigger nodes[m]] nodes.dom().contains(m) implies {
                    &&& nodes[m].child_ids.no_duplicates()
                    &&& forall|c: Seq<char>| #[trigger] nodes[m].child_ids.contains(c) <==> adj_upto(bs, j1, 0, m, c)
                    &&& (nodes[m].parent_id matches Some(p) ==> adj_upto(bs, j1, 0, p, m))
                    &&& (nodes[m].parent_id is None ==> forall|p: Seq<char>| !adj_upto(bs, j1, 0, p, m))
                } by {
                    if nodes[m].parent_id is None {
                        assert forall|p: Seq<char>| #![trigger adj_upto(bs, j1, 0, p, m)] !adj_upto(bs, j1, 0, p, m) by {
                            assert(!adj_upto(bs, j as int, k as int, p, m));
                        }
                    }
                }
            }
            j += 1;
        }
        let prefix = vec!['m', 's', 'g', '-'];
        let ghost unsorted = roots@;
        sort_ids(&mut roots, &prefix);
        proof {
            lemma_no_dup_perm(views(unsorted), views(roots@));
            lemma_views_contains_from_multiset(unsorted, roots@);
            assert forall|x: Seq<char>| #[trigger] views(roots@).contains(x) <==> path_first(branch_map(bs), x) by {
                lemma_first_all(bs, x);
            }
        }
        self.root_ids = roots;
        assert(views(self.root_ids@) == crate::ids::sort_spec(roots_walk(pv, bs.len() as int), msg_prefix()));
        let ghost orig_nodes = self.nodes@;
        let mut i: usize = 0;
        while i < self.nodes.len()
            invariant
                self.wf(),
                self.branches@ == bs,
                i <= self.nodes@.len(),
                self@.current == orig.current,
                self@.branches == orig.branches,
                self@.next_message_seq == orig.next_message_seq,
                self@.next_branch_seq == orig.next_branch_seq,
                self@.nodes.dom() == orig.nodes.dom(),
                forall|q: Seq<char>| orig.nodes.dom().contains(q) ==> #[trigger] self@.nodes[q].message == orig.nodes[q].message,
                links_upto(self@.nodes, bs, bs.len() as int, 0),
                views(self.root_ids@).no_duplicates(),
                forall|x: Seq<char>| #[trigger] views(self.root_ids@).contains(x) <==> path_first(branch_map(bs), x),
                crate::ids::adjacent_sorted(views(self.root_ids@), msg_prefix()),
                node_ids(self.nodes@) == node_ids(orig_nodes),
                prefix@ == msg_prefix(),
                forall|n: Seq<char>|
                    #[trigger] self@.nodes.dom().contains(n) && node_ids(orig_nodes).take(i as int).contains(n)
                        ==> crate::ids::adjacent_sorted(self@.nodes[n].child_ids, msg_prefix()),
                views(self.root_ids@) == crate::ids::sort_spec(roots_walk(pv, bs.len() as int), msg_prefix()),
                forall|n: Seq<char>|
                    #![trigger self@.nodes[n]]
                    self@.nodes.dom().contains(n) ==> self@.nodes[n].child_ids == if node_ids(orig_nodes).take(
                        i as int,
                    ).contains(n) {
                        crate::ids::sort_spec(children_walk(pv, n, bs.len() as int), msg_prefix())
                    } else {
                        children_walk(pv, n, bs.len() as int)
                    },
            decreases self.nodes@.len() - i,
        {
            proof { self.lemma_node_at(i as int); }
            let mut children = crate::protocol::copy_strings(&self.nodes[i].child_ids);
            let ghost unsorted = children@;
            sort_ids(&mut children, &prefix);
            proof {
                lemma_no_dup_perm(views(unsorted), views(children@));
                lemma_views_contains_from_multiset(unsorted, children@);
            }
            let node = ConversationNode {
                id: self.nodes[i].id.clone(),
                parent_id: crate::protocol::copy_opt_string(&self.nodes[i].parent_id),
                child_ids: children,
                message: self.nodes[i].message.copy(),
            };
            let ghost before = self@;
            let ghost before_ids = node_ids(self.nodes@);
            self.set_node_at(i, node);
            proof {
                let id = self.nodes@[i as int].id@;
                assert(node_ids(self.nodes@) =~= before_ids);
                assert(node_ids(orig_nodes).take(i + 1) =~= node_ids(orig_nodes).take(i as int).push(id));
                assert(!node_ids(orig_nodes).take(i as int).contains(id)) by {
                    if node_ids(orig_nodes).take(i as int).contains(id) {
                        let q = node_ids(orig_nodes).take(i as int).index_of(id);
                        assert(node_ids(orig_nodes)[q] == node_ids(orig_nodes)[i as int]);
                    }
                }
                assert(before.nodes[id].child_ids == views(unsorted));
                assert forall|n: Seq<char>| #![trigger self@.nodes[n]] self@.nodes.dom().contains(n) implies self@.nodes[n].child_ids
                    == if node_ids(orig_nodes).take(i + 1).contains(n) {
                    crate::ids::sort_spec(children_walk(pv, n, bs.len() as int), msg_prefix())
                } else {
                    children_walk(pv, n, bs.len() as int)
                } by {
                    if n != id {
                        assert(self@.nodes[n] == before.nodes[n]);
                        assert(node_ids(orig_nodes).take(i + 1).contains(n) == node_ids(orig_nodes).take(i as int).contains(n)) by {
                            if node_ids(orig_nodes).take(i + 1).contains(n) {
                                let q = node_ids(orig_nodes).take(i + 1).index_of(n);
                                assert(q != i);
                                assert(node_ids(orig_nodes).take(i as int)[q] == n);
                            }
                            if node_ids(orig_nodes).take(i as int).contains(n) {
                                let q = node_ids(orig_nodes).take(i as int).index_of(n);
                                assert(node_ids(orig_nodes).take(i + 1)[q] == n);
                            }
                        }
                    } else {
                        assert(node_ids(orig_nodes).take(i + 1)[i as int] == n);
                    }
                }
                assert forall|n: Seq<char>|
                    #[trigger] self@.nodes.dom().contains(n) && node_ids(orig_nodes).take(i + 1).contains(n)
                        implies crate::ids::adjacent_sorted(self@.nodes[n].child_ids, msg_prefix()) by {
                    if n != id {
                        assert(node_ids(orig_nodes).take(i as int).contains(n));
                        assert(self@.nodes[n] == before.nodes[n]);
                    }
                }
                assert forall|q: Seq<char>| orig.nodes.dom().contains(q) implies #[trigger] self@.nodes[q].message == orig.nodes[q].message by {
                    assert(before.nodes[q].message == orig.nodes[q].message);
                    if q != id {
                        assert(self@.nodes[q] == before.nodes[q]);
                    }
                }
            }
            i += 1;
        }
        proof {
            let v = self@;
            assert(node_ids(orig_nodes).take(i as int) =~= node_ids(orig_nodes));
            assert(children_sorted(v));
            assert(bs.len() == walk_order(orig).len());
            assert forall|m: Seq<char>| #[trigger] v.nodes.dom().contains(m) implies v.nodes[m].child_ids == walked_children(orig, m) by {
                let q = node_ids(orig_nodes).index_of(m);
                assert(node_ids(orig_nodes)[q] == m);
            }
            assert forall|n: Seq<char>| #![trigger v.nodes[n]] v.nodes.dom().contains(n) implies {
                &&& v.nodes[n].child_ids.no_duplicates()
                &&& forall|c: Seq<char>| #[trigger] v.nodes[n].child_ids.contains(c) <==> path_adjacent(v.branches, n, c)
                &&& (v.nodes[n].parent_id matches Some(p) ==> path_adjacent(v.branches, p, n))
                &&& (v.nodes[n].parent_id is None ==> forall|p: Seq<char>| !path_adjacent(v.branches, p, n))
            } by {
                assert forall|c: Seq<char>| v.nodes[n].child_ids.contains(c) <==> path_adjacent(v.branches, n, c) by {
                    lemma_adj_all(bs, n, c);
                }
                if let Some(p) = v.nodes[n].parent_id {
                    lemma_adj_all(bs, p, n);
                }
                if v.nodes[n].parent_id is None {
                    assert forall|p: Seq<char>| !path_adjacent(v.branches, p, n) by {
                        lemma_adj_all(bs, p, n);
                    }
                }
            }
        }
    }
}

/// Some branch's path holds `id`.
pub open spec fn referenced(branches: Map<Seq<char>, BranchView>, id: Seq<char>) -> bool {
    exists|bid: Seq<char>|
        #![trigger branches[bid]]
        branches.dom().contains(bid) && branches[bid].path.contains(id)
}

/// The nodes that some branch path refers to.
pub open spec fn referenced_nodes(v: TreeView) -> Map<Seq<char>, NodeView> {
    v.nodes.restrict(Set::new(|k: Seq<char>| referenced(v.branches, k)))
}

/// The ids `msg-start` .. `msg-(start + n - 1)`.
pub open spec fn new_message_ids(start: nat, n: nat) -> Seq<Seq<char>> {
    Seq::new(n, |k: int| seq_id(msg_prefix(), (start + k) as nat))
}

/// No message id from `next_message_seq` on is a node or on a branch path yet.
pub open spec fn fresh_message_ids(v: TreeView) -> bool {
    forall|n: nat|
        n >= v.next_message_seq ==> !v.nodes.dom().contains(#[trigger] seq_id(msg_prefix(), n))
            && !referenced(v.branches, seq_id(msg_prefix(), n))
}

proof fn lemma_messages_along_same(n1: Map<Seq<char>, NodeView>, n2: Map<Seq<char>, NodeView>, p: Seq<Seq<char>>)
    requires
        forall|i: int|
            0 <= i < p.len() ==> (n1.dom().contains(#[trigger] p[i]) <==> n2.dom().contains(p[i])),
        forall|i: int|
            0 <= i < p.len() && n1.dom().contains(#[trigger] p[i]) ==> n1[p[i]].message == n2[p[i]].message,
    ensures
        messages_along(n1, p) == messages_along(n2, p),
    decreases p.len(),
{
    if p.len() > 0 {
        let q = p.drop_last();
        assert forall|i: int| 0 <= i < q.len() implies (n1.dom().contains(#[trigger] q[i]) <==> n2.dom().contains(q[i])) by {
            assert(q[i] == p[i]);
        }
        assert forall|i: int| 0 <= i < q.len() && n1.dom().contains(#[trigger] q[i]) implies n1[q[i]].message == n2[q[i]].message by {
            assert(q[i] == p[i]);
        }
        lemma_messages_along_same(n1, n2, q);
        assert(p.last() == p[p.len() - 1]);
    }
}

proof fn lemma_messages_along_new(nodes: Map<Seq<char>, NodeView>, start: nat, all: Seq<ChatMessage>, n: nat)
    requires
        n <= all.len(),
        forall|k: int|
            0 <= k < n ==> nodes.dom().contains(#[trigger] seq_id(msg_prefix(), (start + k) as nat)),
        forall|k: int|
            0 <= k < n ==> #[trigger] nodes[seq_id(msg_prefix(), (start + k) as nat)].message == all[k]@,
    ensures
        messages_along(nodes, new_message_ids(start, n)) == message_views(all.take(n as int)),
    decreases n,
{
    if n > 0 {
        lemma_messages_along_new(nodes, start, all, (n - 1) as nat);
        assert(new_message_ids(start, n).drop_last() =~= new_message_ids(start, (n - 1) as nat));
        assert(new_message_ids(start, n).last() == seq_id(msg_prefix(), (start + (n - 1)) as nat));
        assert(nodes.dom().contains(seq_id(msg_prefix(), (start + (n - 1)) as nat)));
        assert(message_views(all.take(n as int)) =~= message_views(all.take(n - 1)).push(all[n - 1]@));
    } else {
        assert(message_views(all.take(0)) =~= Seq::<MessageView>::empty());
    }
}

impl ConversationNode {
    /// A field-by-field copy.
    pub fn copy(&self) -> (r: ConversationNode)
        ensures
            r.id@ == self.id@,
            node_view(r) == node_view(*self),
    {
        ConversationNode {
            id: self.id.clone(),
            parent_id: crate::protocol::copy_opt_string(&self.parent_id),
            child_ids: crate::protocol::copy_strings(&self.child_ids),
            message: self.message.copy(),
        }
    }
}

impl ConversationTree {
    /// Whether some branch path holds `id`.
    fn is_referenced(&self, id: &String) -> (r: bool)
        requires
            self.wf(),
        ensures
            r == referenced(self@.branches, id@),
    {
        let mut j: usize = 0;
        while j < self.branches.len()
            invariant
                self.wf(),
                j <= self.branches@.len(),
                forall|jj: int| 0 <= jj < j ==> !views(#[trigger] self.branches@[jj].path@).contains(id@),
            decreases self.branches@.len() - j,
        {
            match position_of(self.branches[j].path.as_slice(), id) {
                Some(p) => {
                    proof {
                        self.lemma_branch_at(j as int);
                        let bid = self.branches@[j as int].id@;
                        assert(views(self.branches@[j as int].path@)[p as int] == id@);
                        assert(self@.branches[bid].path.contains(id@));
                    }
                    return true;
                },
                None => {
                    proof {
                        let ps = views(self.branches@[j as int].path@);
                        assert forall|q: int| 0 <= q < ps.len() implies ps[q] != id@ by {
                            assert(ps[q] == self.branches@[j as int].path@[q]@);
                        }
                    }
                },
            }
            j += 1;
        }
        proof {
            assert forall|bid: Seq<char>| self@.branches.dom().contains(bid) implies !#[trigger] self@.branches[bid].path.contains(id@) by {
                let jj = branch_ids(self.branches@).index_of(bid);
                assert(branch_ids(self.branches@)[jj] == bid);
                self.lemma_branch_at(jj);
            }
        }
        false
    }

    /// Drops the nodes that no branch path refers to.
    fn retain_referenced_nodes(&mut self)
        requires
            old(self).wf(),
        ensures
            final(self).wf(),
            final(self).branches@ == old(self).branches@,
            final(self)@ == (TreeView { nodes: referenced_nodes(old(self)@), ..old(self)@ }),
    {
        let ghost orig = self@;
        let ghost ids = node_ids(self.nodes@);
        let mut kept: Vec<ConversationNode> = Vec::new();
        let mut i: usize = 0;
        while i < self.nodes.len()
            invariant
                self.wf(),
                self@ == orig,
                ids == node_ids(self.nodes@),
                i <= self.nodes@.len(),
                node_ids(kept@).no_duplicates(),
                forall|k: Seq<char>|
                    #[trigger] node_ids(kept@).contains(k) <==> (ids.subrange(0, i as int).contains(k)
                        && referenced(orig.branches, k)),
                forall|k: Seq<char>|
                    node_ids(kept@).contains(k) ==> #[trigger] node_map(kept@)[k] == orig.nodes[k],
            decreases self.nodes@.len() - i,
        {
            let r = self.is_referenced(&self.nodes[i].id);
            let ghost before = kept@;
            let ghost k = ids[i as int];
            proof {
                self.lemma_node_at(i as int);
                assert(ids.subrange(0, i + 1) =~= ids.subrange(0, i as int).push(k));
            }
            if r {
                let node = self.nodes[i].copy();
                let ghost nv = node_view(node);
                proof {
                    if node_ids(before).contains(k) {
                        let p = ids.subrange(0, i as int).index_of(k);
                        assert(ids[p] == k);
                    }
                    lemma_keyed_push(node_ids(before), before.map_values(|n: ConversationNode| node_view(n)), k, nv);
                }
                kept.push(node);
                proof {
                    assert(node_ids(kept@) =~= node_ids(before).push(k));
                    assert(kept@.map_values(|n: ConversationNode| node_view(n)) =~= before.map_values(
                        |n: ConversationNode| node_view(n),
                    ).push(nv));
                    assert(k == self.nodes@[i as int].id@);
                    assert(nv == orig.nodes[k]);
                    assert forall|x: Seq<char>| #[trigger] node_ids(kept@).contains(x) <==> (node_ids(before).contains(x) || x == k) by {
                        if node_ids(before).contains(x) {
                            let q = node_ids(before).index_of(x);
                            assert(node_ids(kept@)[q] == x);
                        }
                        if x == k {
                            assert(node_ids(kept@)[before.len() as int] == k);
                        }
                        if node_ids(kept@).contains(x) && x != k {
                            let q = node_ids(kept@).index_of(x);
                            assert(node_ids(before)[q] == x);
                        }
                    }
                    assert forall|x: Seq<char>| node_ids(kept@).contains(x) implies #[trigger] node_map(kept@)[x] == orig.nodes[x] by {
                        if x != k {
                            assert(node_ids(before).contains(x));
                            assert(node_map(before)[x] == orig.nodes[x]);
                        }
                    }
                    assert forall|x: Seq<char>| #[trigger] node_ids(kept@).contains(x) <==> (ids.subrange(0, i + 1).contains(x)
                        && referenced(orig.branches, x)) by {
                        if ids.subrange(0, i as int).contains(x) {
                            let q = ids.subrange(0, i as int).index_of(x);
                            assert(ids.subrange(0, i + 1)[q] == x);
                        }
                        if ids.subrange(0, i + 1).contains(x) && x != k {
                            let q = ids.subrange(0, i + 1).index_of(x);
                            assert(ids.subrange(0, i as int)[q] == x);
                        }
                        if x == k {
                            assert(ids.subrange(0, i + 1)[i as int] == x);
                        }
                    }
                }
            } else {
                proof {
                    assert forall|x: Seq<char>| #[trigger] node_ids(kept@).contains(x) <==> (ids.subrange(0, i + 1).contains(x)
                        && referenced(orig.branches, x)) by {
                        if ids.subrange(0, i as int).contains(x) {
                            let q = ids.subrange(0, i as int).index_of(x);
                            assert(ids.subrange(0, i + 1)[q] == x);
                        }
                        if ids.subrange(0, i + 1).contains(x) && x != k {
                            let q = ids.subrange(0, i + 1).index_of(x);
                            assert(ids.subrange(0, i as int)[q] == x);
                        }
                    }
                }
            }
            i += 1;
        }
        proof {
            assert(ids.subrange(0, ids.len() as int) =~= ids);
        }
        self.nodes = kept;
        proof {
            assert(self@.nodes =~= referenced_nodes(orig));
        }
    }

    /// Drops unreferenced nodes and rebuilds the links from the branch paths.
    fn prune_unreferenced_nodes(&mut self)
        requires
            old(self).wf(),
        ensures
            final(self).wf(),
            final(self)@.branches == old(self)@.branches,
            final(self)@.current == old(self)@.current,
            final(self)@.next_message_seq == old(self)@.next_message_seq,
            final(self)@.next_branch_seq == old(self)@.next_branch_seq,
            final(self)@.nodes.dom() == referenced_nodes(old(self)@).dom(),
            final(self)@.root_ids == walked_roots(old(self)@),
            forall|m: Seq<char>|
                #[trigger] final(self)@.nodes.dom().contains(m) ==> final(self)@.nodes[m].child_ids == walked_children(
                    old(self)@,
                    m,
                ),
            forall|k: Seq<char>|
                referenced_nodes(old(self)@).dom().contains(k) ==> #[trigger] final(self)@.nodes[k].message
                    == old(self)@.nodes[k].message,
            structure_rebuilt(final(self)@),
            crate::ids::adjacent_sorted(final(self)@.root_ids, msg_prefix()),
            children_sorted(final(self)@),
    {
        self.retain_referenced_nodes();
        self.rebuild_structure_from_paths();
    }
}

impl ConversationTree {
    /// Replaces the messages of the active branch: its path is cleared, the
    /// messages are appended in order, and nodes left without a branch go.
    pub fn replace_current_branch_messages(&mut self, messages: Vec<ChatMessage>)
        requires
            old(self).wf(),
            old(self)@.next_message_seq + messages@.len() < u64::MAX,
        ensures
            final(self).wf(),
            final(self)@.current == old(self)@.current,
            final(self)@.next_message_seq == old(self)@.next_message_seq + messages@.len(),
            final(self)@.next_branch_seq == old(self)@.next_branch_seq,
            final(self)@.branches.dom() == old(self)@.branches.dom(),
            forall|b: Seq<char>|
                old(self)@.branches.dom().contains(b) && b != old(self)@.current
                    ==> #[trigger] final(self)@.branches[b] == old(self)@.branches[b],
            old(self)@.branches.dom().contains(old(self)@.current) ==> final(self)@.branches[old(
                self,
            )@.current] == (BranchView {
                path: new_message_ids(old(self)@.next_message_seq as nat, messages@.len()),
                created_from: None,
            }),
            old(self)@.branches.dom().contains(old(self)@.current) ==> visible_messages(final(self)@)
                == message_views(messages@),
            fresh_message_ids(old(self)@) ==> forall|b: Seq<char>|
                old(self)@.branches.dom().contains(b) && b != old(self)@.current ==> messages_along(
                    final(self)@.nodes,
                    #[trigger] final(self)@.branches[b].path,
                ) == messages_along(old(self)@.nodes, old(self)@.branches[b].path),
            forall|k: Seq<char>| #[trigger] final(self)@.nodes.dom().contains(k) ==> referenced(final(self)@.branches, k),
            structure_rebuilt(final(self)@),
            crate::ids::adjacent_sorted(final(self)@.root_ids, msg_prefix()),
            children_sorted(final(self)@),
    {
        let ghost old_v = self@;
        let ghost cur = old_v.current;
        let ghost has = old_v.branches.dom().contains(cur);
        let ghost start = old_v.next_message_seq as nat;
        match self.find_branch(&self.current_branch_id) {
            Some(bi) => {
                let cleared = ConversationBranch {
                    id: self.branches[bi].id.clone(),
                    path: Vec::new(),
                    created_from: None,
                };
                proof {
                    self.lemma_branch_at(bi as int);
                    assert(views(cleared.path@) =~= Seq::<Seq<char>>::empty());
                }
                self.insert_branch(cleared);
                assert(self@.branches.dom() =~= old_v.branches.dom());
            },
            None => {},
        }
        let ghost all = messages@;
        let mut msgs = messages;
        let n = msgs.len();
        let mut i: usize = 0;
        proof {
            assert(new_message_ids(start, 0) =~= Seq::<Seq<char>>::empty());
        }
        while msgs.len() > 0
            invariant
                self.wf(),
                msgs@ == all.skip(i as int),
                i + msgs@.len() == all.len(),
                n == all.len(),
                start + n < u64::MAX,
                start == old_v.next_message_seq,
                has == old_v.branches.dom().contains(cur),
                self@.current == cur,
                cur == old_v.current,
                self@.next_branch_seq == old_v.next_branch_seq,
                self@.next_message_seq == start + i,
                self@.branches.dom() == old_v.branches.dom(),
                forall|b: Seq<char>|
                    old_v.branches.dom().contains(b) && b != cur ==> #[trigger] self@.branches[b]
                        == old_v.branches[b],
                has ==> self@.branches[cur] == (BranchView {
                    path: new_message_ids(start, i as nat),
                    created_from: None,
                }),
                forall|k: int|
                    0 <= k < i ==> self@.nodes.dom().contains(#[trigger] seq_id(msg_prefix(), (start + k) as nat)),
                forall|k: int|
                    0 <= k < i ==> #[trigger] self@.nodes[seq_id(msg_prefix(), (start + k) as nat)].message
                        == all[k]@,
                forall|x: Seq<char>|
                    #[trigger] self@.nodes.dom().contains(x) ==> old_v.nodes.dom().contains(x)
                        || new_message_ids(start, i as nat).contains(x),
                forall|x: Seq<char>|
                    old_v.nodes.dom().contains(x) && !new_message_ids(start, i as nat).contains(x)
                        ==> self@.nodes.dom().contains(x) && #[trigger] self@.nodes[x].message
                        == old_v.nodes[x].message,
            decreases msgs.len(),
        {
            let message = msgs.remove(0);
            assert(message == all[i as int]);
            let ghost before = self@;
            let ghost mv = message@;
            let id = self.add_message_to_current(message);
            proof {
                let new_id = seq_id(msg_prefix(), (start + i) as nat);
                assert(id@ == new_id);
                let path = current_path_of(before);
                let ids_i = new_message_ids(start, i as nat);
                let ids_n = new_message_ids(start, (i + 1) as nat);
                assert(ids_n =~= ids_i.push(new_id));
                assert(has ==> path == ids_i);
                let parent: Option<Seq<char>> = if path.len() > 0 { Some(path.last()) } else { None };
                let inserted = before.nodes.insert(
                    new_id,
                    NodeView { parent_id: parent, child_ids: Seq::empty(), message: mv },
                );
                assert forall|x: Seq<char>| #[trigger] self@.nodes.dom().contains(x) implies self@.nodes[x].message
                    == inserted[x].message by {
                    match parent {
                        Some(p) => {
                            if x == p {
                                assert(children_added(inserted[p], self@.nodes[p], new_id));
                            }
                        },
                        None => {},
                    }
                }
                assert forall|k: int| 0 <= k < i + 1 implies self@.nodes.dom().contains(
                    #[trigger] seq_id(msg_prefix(), (start + k) as nat),
                ) && self@.nodes[seq_id(msg_prefix(), (start + k) as nat)].message == all[k]@ by {
                    let kid = seq_id(msg_prefix(), (start + k) as nat);
                    if k < i {
                        if kid == new_id {
                            lemma_seq_id_injective(msg_prefix(), (start + k) as nat, (start + i) as nat);
                        }
                        assert(before.nodes.dom().contains(kid));
                        assert(before.nodes[kid].message == all[k]@);
                    }
                }
                assert forall|x: Seq<char>| #[trigger] self@.nodes.dom().contains(x) implies old_v.nodes.dom().contains(x)
                    || ids_n.contains(x) by {
                    if x == new_id {
                        assert(ids_n[i as int] == x);
                    } else {
                        assert(before.nodes.dom().contains(x));
                        if ids_i.contains(x) {
                            let q = ids_i.index_of(x);
                            assert(ids_n[q] == x);
                        }
                    }
                }
                assert forall|x: Seq<char>| old_v.nodes.dom().contains(x) && !ids_n.contains(x) implies self@.nodes.dom().contains(x)
                    && #[trigger] self@.nodes[x].message == old_v.nodes[x].message by {
                    if ids_i.contains(x) {
                        let q = ids_i.index_of(x);
                        assert(ids_n[q] == x);
                    }
                    if x == new_id {
                        assert(ids_n[i as int] == x);
                    }
                    assert(before.nodes.dom().contains(x));
                    assert(before.nodes[x].message == old_v.nodes[x].message);
                }
                if has {
                    assert(self@.branches[cur] == BranchView { path: ids_n, created_from: None });
                }
                assert forall|b: Seq<char>| old_v.branches.dom().contains(b) && b != cur implies #[trigger] self@.branches[b]
                    == old_v.branches[b] by {
                    assert(before.branches[b] == old_v.branches[b]);
                }
            }
            i += 1;
            assert(msgs@ =~= all.skip(i as int));
        }
        let ghost mid = self@;
        self.prune_unreferenced_nodes();
        proof {
            let fin = self@;
            assert(all.take(n as int) == all);
            if has {
                assert forall|k: int| 0 <= k < n implies fin.nodes.dom().contains(
                    #[trigger] seq_id(msg_prefix(), (start + k) as nat),
                ) && fin.nodes[seq_id(msg_prefix(), (start + k) as nat)].message == all[k]@ by {
                    let kid = seq_id(msg_prefix(), (start + k) as nat);
                    assert(new_message_ids(start, n as nat)[k] == kid);
                    assert(mid.branches[cur].path.contains(kid));
                    assert(referenced(mid.branches, kid));
                    assert(referenced_nodes(mid).dom().contains(kid));
                }
                lemma_messages_along_new(fin.nodes, start, all, n as nat);
                assert(current_path_of(fin) == new_message_ids(start, n as nat));
            }
            if fresh_message_ids(old_v) {
                assert forall|b: Seq<char>| old_v.branches.dom().contains(b) && b != cur implies messages_along(
                    fin.nodes,
                    #[trigger] fin.branches[b].path,
                ) == messages_along(old_v.nodes, old_v.branches[b].path) by {
                    let p = old_v.branches[b].path;
                    assert(fin.branches[b] == mid.branches[b]);
                    assert(mid.branches[b] == old_v.branches[b]);
                    assert forall|q: int| 0 <= q < p.len() implies (fin.nodes.dom().contains(#[trigger] p[q])
                        <==> old_v.nodes.dom().contains(p[q])) && (fin.nodes.dom().contains(p[q])
                        ==> fin.nodes[p[q]].message == old_v.nodes[p[q]].message) by {
                        let x = p[q];
                        assert(p.contains(x));
                        assert(referenced(old_v.branches, x));
                        assert(referenced(mid.branches, x));
                        if new_message_ids(start, n as nat).contains(x) {
                            let w = new_message_ids(start, n as nat).index_of(x);
                            assert(x == seq_id(msg_prefix(), (start + w) as nat));
                            assert(!referenced(old_v.branches, seq_id(msg_prefix(), (start + w) as nat)));
                        }
                        if old_v.nodes.dom().contains(x) {
                            assert(mid.nodes.dom().contains(x));
                            assert(referenced_nodes(mid).dom().contains(x));
                        }
                    }
                    lemma_messages_along_same(fin.nodes, old_v.nodes, p);
                }
            }
            assert forall|k: Seq<char>| #[trigger] fin.nodes.dom().contains(k) implies referenced(fin.branches, k) by {
                assert(referenced_nodes(mid).dom().contains(k));
            }
        }
    }
}

/// The parent that position `q` of `path` gives its message.
pub open spec fn parent_at(path: Seq<Seq<char>>, q: int) -> Option<Seq<char>> {
    if q == 0 {
        None
    } else {
        Some(path[q - 1])
    }
}

/// Every branch path names existing nodes, none twice, and all paths agree
/// on the parent of each message they share.
pub open spec fn paths_consistent(v: TreeView) -> bool {
    &&& forall|b: Seq<char>|
        #![trigger v.branches[b]]
        v.branches.dom().contains(b) ==> {
            &&& v.branches[b].path.no_duplicates()
            &&& forall|q: int|
                0 <= q < v.branches[b].path.len() ==> v.nodes.dom().contains(
                    #[trigger] v.branches[b].path[q],
                )
        }
    &&& forall|b1: Seq<char>, b2: Seq<char>, q1: int, q2: int|
        #![trigger v.branches[b1].path[q1], v.branches[b2].path[q2]]
        v.branches.dom().contains(b1) && v.branches.dom().contains(b2) && 0 <= q1
            < v.branches[b1].path.len() && 0 <= q2 < v.branches[b2].path.len()
            && v.branches[b1].path[q1] == v.branches[b2].path[q2] ==> parent_at(
            v.branches[b1].path,
            q1,
        ) == parent_at(v.branches[b2].path, q2)
}

/// `e` names a real defect of the branch paths of `v`.
pub open spec fn path_problem(v: TreeView, e: TreeError) -> bool {
    match e {
        TreeError::MissingMessage { branch, message } => {
            &&& v.branches.dom().contains(branch@)
            &&& v.branches[branch@].path.contains(message@)
            &&& !v.nodes.dom().contains(message@)
        },
        TreeError::DuplicateMessage { branch, message } => {
            &&& v.branches.dom().contains(branch@)
            &&& exists|q1: int, q2: int|
                #![trigger v.branches[branch@].path[q1], v.branches[branch@].path[q2]]
                0 <= q1 < q2 < v.branches[branch@].path.len() && v.branches[branch@].path[q1] == message@
                    && v.branches[branch@].path[q2] == message@
        },
        TreeError::InconsistentParents(m) => exists|b1: Seq<char>, b2: Seq<char>, q1: int, q2: int|
            #![trigger v.branches[b1].path[q1], v.branches[b2].path[q2]]
            v.branches.dom().contains(b1) && v.branches.dom().contains(b2) && 0 <= q1
                < v.branches[b1].path.len() && 0 <= q2 < v.branches[b2].path.len()
                && v.branches[b1].path[q1] == m@ && v.branches[b2].path[q2] == m@ && parent_at(
                v.branches[b1].path,
                q1,
            ) != parent_at(v.branches[b2].path, q2),
        _ => false,
    }
}

spec fn bpath(bs: Seq<ConversationBranch>, j: int) -> Seq<Seq<char>> {
    views(bs[j].path@)
}

/// Position `q` of branch `j` names a node, is its first occurrence there, and
/// agrees on its parent with every earlier branch.
spec fn ok_elem(bs: Seq<ConversationBranch>, nodes: Map<Seq<char>, NodeView>, j: int, q: int) -> bool {
    &&& nodes.dom().contains(bpath(bs, j)[q])
    &&& forall|q0: int| 0 <= q0 < q ==> #[trigger] bpath(bs, j)[q0] != bpath(bs, j)[q]
    &&& forall|jj: int, qq: int|
        0 <= jj < j && 0 <= qq < bpath(bs, jj).len() && #[trigger] bpath(bs, jj)[qq] == bpath(bs, j)[q]
            ==> parent_at(bpath(bs, jj), qq) == parent_at(bpath(bs, j), q)
}

spec fn checked_upto(bs: Seq<ConversationBranch>, nodes: Map<Seq<char>, NodeView>, j: int, q: int) -> bool {
    forall|jj: int, qq: int|
        0 <= jj < bs.len() && 0 <= qq < bpath(bs, jj).len() && (jj < j || (jj == j && qq < q))
            ==> #[trigger] ok_elem(bs, nodes, jj, qq)
}

impl ConversationTree {
    proof fn lemma_checked_consistent(&self)
        requires
            self.wf(),
            checked_upto(self.branches@, self@.nodes, self.branches@.len() as int, 0),
        ensures
            paths_consistent(self@),
    {
        let bs = self.branches@;
        let v = self@;
        assert forall|b: Seq<char>| #![trigger v.branches[b]] v.branches.dom().contains(b) implies {
            &&& v.branches[b].path.no_duplicates()
            &&& forall|q: int|
                0 <= q < v.branches[b].path.len() ==> v.nodes.dom().contains(
                    #[trigger] v.branches[b].path[q],
                )
        } by {
            let j = branch_ids(bs).index_of(b);
            assert(branch_ids(bs)[j] == b);
            self.lemma_branch_at(j);
            let p = bpath(bs, j);
            assert(v.branches[b].path == p);
            assert forall|q1: int, q2: int| 0 <= q1 < p.len() && 0 <= q2 < p.len() && q1 != q2 implies p[q1] != p[q2] by {
                if q1 < q2 {
                    assert(ok_elem(bs, v.nodes, j, q2));
                } else {
                    assert(ok_elem(bs, v.nodes, j, q1));
                }
            }
            assert forall|q: int| 0 <= q < p.len() implies v.nodes.dom().contains(#[trigger] p[q]) by {
                assert(ok_elem(bs, v.nodes, j, q));
            }
        }
        assert forall|b1: Seq<char>, b2: Seq<char>, q1: int, q2: int|
            #![trigger v.branches[b1].path[q1], v.branches[b2].path[q2]]
            v.branches.dom().contains(b1) && v.branches.dom().contains(b2) && 0 <= q1
                < v.branches[b1].path.len() && 0 <= q2 < v.branches[b2].path.len()
                && v.branches[b1].path[q1] == v.branches[b2].path[q2] implies parent_at(
                v.branches[b1].path,
                q1,
            ) == parent_at(v.branches[b2].path, q2) by {
            let j1 = branch_ids(bs).index_of(b1);
            let j2 = branch_ids(bs).index_of(b2);
            assert(branch_ids(bs)[j1] == b1);
            assert(branch_ids(bs)[j2] == b2);
            self.lemma_branch_at(j1);
            self.lemma_branch_at(j2);
            if j1 < j2 {
                assert(ok_elem(bs, v.nodes, j2, q2));
                assert(bpath(bs, j1)[q1] == bpath(bs, j2)[q2]);
            } else if j2 < j1 {
                assert(ok_elem(bs, v.nodes, j1, q1));
                assert(bpath(bs, j2)[q2] == bpath(bs, j1)[q1]);
            } else {
                if q1 < q2 {
                    assert(ok_elem(bs, v.nodes, j1, q2));
                    assert(bpath(bs, j1)[q1] != bpath(bs, j1)[q2]);
                } else if q2 < q1 {
                    assert(ok_elem(bs, v.nodes, j1, q1));
                    assert(bpath(bs, j1)[q2] != bpath(bs, j1)[q1]);
                }
            }
        }
    }

    /// Whether the parents that two path positions give agree.
    fn same_parent(p1: &Vec<String>, q1: usize, p2: &Vec<String>, q2: usize) -> (r: bool)
        requires
            q1 < p1@.len(),
            q2 < p2@.len(),
        ensures
            r == (parent_at(views(p1@), q1 as int) == parent_at(views(p2@), q2 as int)),
    {
        if q1 == 0 && q2 == 0 {
            true
        } else if q1 == 0 || q2 == 0 {
            false
        } else {
            p1[q1 - 1] == p2[q2 - 1]
        }
    }

    /// The first defect of the branch paths, in branch and path order.
    fn first_path_problem(&self) -> (r: Option<TreeError>)
        requires
            self.wf(),
        ensures
            match r {
                Some(e) => path_problem(self@, e),
                None => paths_consistent(self@),
            },
    {
        let ghost bs = self.branches@;
        let ghost nodes = self@.nodes;
        let mut j: usize = 0;
        while j < self.branches.len()
            invariant
                self.wf(),
                bs == self.branches@,
                nodes == self@.nodes,
                j <= bs.len(),
                checked_upto(bs, nodes, j as int, 0),
            decreases bs.len() - j,
        {
            proof {
                self.lemma_branch_at(j as int);
            }
            let path = &self.branches[j].path;
            let mut q: usize = 0;
            while q < path.len()
                invariant
                    self.wf(),
                    bs == self.branches@,
                    nodes == self@.nodes,
                    j < bs.len(),
                    path == bs[j as int].path,
                    q <= path@.len(),
                    checked_upto(bs, nodes, j as int, q as int),
                    self@.branches[bs[j as int].id@] == branch_view(bs[j as int]),
                    self@.branches.dom().contains(bs[j as int].id@),
                decreases path@.len() - q,
            {
                let m = &path[q];
                let ghost pj = bpath(bs, j as int);
                assert(pj[q as int] == m@);
                match self.find_node(m) {
                    None => {
                        proof {
                            assert(pj.contains(m@));
                        }
                        return Some(
                            TreeError::MissingMessage { branch: self.branches[j].id.clone(), message: m.clone() },
                        );
                    },
                    Some(ni) => {
                        proof {
                            self.lemma_node_at(ni as int);
                        }
                    },
                }
                match position_of(path.as_slice(), m) {
                    Some(p) => {
                        if p < q {
                            proof {
                                assert(pj[p as int] == m@);
                                assert(self@.branches[bs[j as int].id@].path[p as int] == m@);
                                assert(self@.branches[bs[j as int].id@].path[q as int] == m@);
                            }
                            return Some(
                                TreeError::DuplicateMessage {
                                    branch: self.branches[j].id.clone(),
                                    message: m.clone(),
                                },
                            );
                        }
                    },
                    None => {},
                }
                proof {
                    assert forall|q0: int| 0 <= q0 < q implies #[trigger] pj[q0] != pj[q as int] by {
                        assert(pj[q0] == path@[q0]@);
                    }
                }
                let mut jj: usize = 0;
                while jj < j
                    invariant
                        self.wf(),
                        bs == self.branches@,
                        nodes == self@.nodes,
                        j < bs.len(),
                        jj <= j,
                        path == bs[j as int].path,
                        q < path@.len(),
                        pj == bpath(bs, j as int),
                        pj[q as int] == m@,
                        checked_upto(bs, nodes, j as int, q as int),
                        nodes.dom().contains(pj[q as int]),
                        forall|q0: int| 0 <= q0 < q ==> #[trigger] pj[q0] != pj[q as int],
                        self@.branches[bs[j as int].id@] == branch_view(bs[j as int]),
                        self@.branches.dom().contains(bs[j as int].id@),
                        forall|j0: int, qq: int|
                            0 <= j0 < jj && 0 <= qq < bpath(bs, j0).len() && #[trigger] bpath(bs, j0)[qq] == pj[q as int]
                                ==> parent_at(bpath(bs, j0), qq) == parent_at(pj, q as int),
                    decreases j - jj,
                {
                    let other = &self.branches[jj].path;
                    let ghost po = bpath(bs, jj as int);
                    match position_of(other.as_slice(), m) {
                        Some(p) => {
                            if !Self::same_parent(other, p, path, q) {
                                proof {
                                    self.lemma_branch_at(jj as int);
                                    let b1 = bs[jj as int].id@;
                                    let b2 = bs[j as int].id@;
                                    assert(self@.branches[b1].path[p as int] == m@);
                                    assert(self@.branches[b2].path[q as int] == m@);
                                }
                                return Some(TreeError::InconsistentParents(m.clone()));
                            }
                            proof {
                                assert forall|qq: int| 0 <= qq < po.len() && #[trigger] po[qq] == pj[q as int] implies parent_at(po, qq)
                                    == parent_at(pj, q as int) by {
                                    if qq < p {
                                        assert(po[qq] != m@);
                                    } else if p < qq {
                                        assert(ok_elem(bs, nodes, jj as int, qq));
                                        assert(po[p as int] == m@);
                                    }
                                }
                            }
                        },
                        None => {
                            proof {
                                assert forall|qq: int| 0 <= qq < po.len() implies #[trigger] po[qq] != pj[q as int] by {
                                    assert(po[qq] == other@[qq]@);
                                }
                            }
                        },
                    }
                    jj += 1;
                }
                proof {
                    assert(ok_elem(bs, nodes, j as int, q as int));
                    assert forall|j0: int, qq: int|
                        0 <= j0 < bs.len() && 0 <= qq < bpath(bs, j0).len() && (j0 < j || (j0 == j && qq < q + 1))
                            implies #[trigger] ok_elem(bs, nodes, j0, qq) by {
                        if j0 == j && qq == q {
                        }
                    }
                }
                q += 1;
            }
            proof {
                assert forall|j0: int, qq: int|
                    0 <= j0 < bs.len() && 0 <= qq < bpath(bs, j0).len() && (j0 < j + 1 || (j0 == j + 1 && qq < 0))
                        implies #[trigger] ok_elem(bs, nodes, j0, qq) by {
                    if j0 == j {
                        assert(qq < bpath(bs, j as int).len());
                    }
                }
            }
            j += 1;
        }
        proof {
            self.lemma_checked_consistent();
        }
        None
    }
}

/// `r` is what `next_sequence` gives for `ids`: one more than the largest
/// sequence number among them, and never less than `minimum`.
pub open spec fn next_sequence_of(ids: Set<Seq<char>>, prefix: Seq<char>, minimum: nat, r: nat) -> bool {
    &&& r >= minimum
    &&& forall|k: Seq<char>|
        #[trigger] ids.contains(k) && parse_sequence_spec(k, prefix) is Some ==> parse_sequence_spec(
            k,
            prefix,
        )->0 < r
    &&& r == minimum || exists|k: Seq<char>|
        #[trigger] ids.contains(k) && parse_sequence_spec(k, prefix) == Some((r - 1) as u64)
}

/// No node or branch id carries the largest sequence number.
pub open spec fn sequence_ids_bounded(v: TreeView) -> bool {
    &&& forall|k: Seq<char>|
        #[trigger] v.nodes.dom().contains(k) ==> parse_sequence_spec(k, msg_prefix()) != Some(u64::MAX)
    &&& forall|k: Seq<char>|
        #[trigger] v.branches.dom().contains(k) ==> parse_sequence_spec(k, branch_prefix()) != Some(
            u64::MAX,
        )
}

/// The active branch id names a branch and is not blank.
pub open spec fn current_ok(v: TreeView) -> bool {
    trim(v.current).len() > 0 && v.branches.dom().contains(v.current)
}

/// `b` without a `created_from` that its path does not hold.
pub open spec fn without_stale_origin(b: BranchView) -> BranchView {
    BranchView {
        path: b.path,
        created_from: match b.created_from {
            Some(c) => if b.path.contains(c) {
                Some(c)
            } else {
                None
            },
            None => None,
        },
    }
}

/// Some branch path is not empty.
pub open spec fn has_path_entries(v: TreeView) -> bool {
    exists|b: Seq<char>| #![trigger v.branches[b]] v.branches.dom().contains(b) && v.branches[b].path.len() > 0
}

/// What a successful repair of a tree with branches leaves.
pub open spec fn repaired(old: TreeView, new: TreeView) -> bool {
    &&& new.branches == old.branches.map_values(|b: BranchView| without_stale_origin(b))
    &&& current_ok(old) ==> new.current == old.current
    &&& !current_ok(old) ==> {
        &&& old.branches.dom().contains(new.current)
        &&& walk_order(old).len() > 0
        &&& new.current == walk_order(old)[0]
    }
    &&& new.nodes.dom() == referenced_nodes(old).dom()
    &&& forall|k: Seq<char>|
        #[trigger] new.nodes.dom().contains(k) ==> new.nodes[k].message == old.nodes[k].message
    &&& structure_rebuilt(new)
    &&& children_sorted(new)
    &&& crate::ids::adjacent_sorted(new.root_ids, msg_prefix())
    &&& new.root_ids == walked_roots(new)
    &&& forall|m: Seq<char>| #[trigger] new.nodes.dom().contains(m) ==> new.nodes[m].child_ids == walked_children(new, m)
    &&& next_sequence_of(new.nodes.dom(), msg_prefix(), 1, new.next_message_seq as nat)
    &&& next_sequence_of(new.branches.dom(), branch_prefix(), 2, new.next_branch_seq as nat)
}

/// One more than the largest sequence number among `ids`, at least `minimum`.
fn next_sequence(ids: &Vec<String>, prefix: &[char], minimum: u64) -> (r: u64)
    requires
        forall|i: int| 0 <= i < ids@.len() ==> parse_sequence_spec(#[trigger] ids@[i]@, prefix@) != Some(u64::MAX),
    ensures
        next_sequence_of(Set::new(|k: Seq<char>| views(ids@).contains(k)), prefix@, minimum as nat, r as nat),
{
    let mut best = minimum;
    let mut i: usize = 0;
    while i < ids.len()
        invariant
            i <= ids@.len(),
            forall|i: int| 0 <= i < ids@.len() ==> parse_sequence_spec(#[trigger] ids@[i]@, prefix@) != Some(u64::MAX),
            best >= minimum,
            forall|k: int|
                0 <= k < i && parse_sequence_spec(#[trigger] ids@[k]@, prefix@) is Some ==> parse_sequence_spec(
                    ids@[k]@,
                    prefix@,
                )->0 < best,
            best == minimum || exists|k: int|
                0 <= k < i && parse_sequence_spec(#[trigger] ids@[k]@, prefix@) == Some((best - 1) as u64),
        decreases ids@.len() - i,
    {
        let chars = crate::text::to_chars(ids[i].as_str());
        match crate::ids::parse_sequence(&chars, prefix) {
            Some(v) => {
                assert(parse_sequence_spec(ids@[i as int]@, prefix@) == Some(v));
                if v >= best {
                    best = v + 1;
                }
            },
            None => {},
        }
        i += 1;
    }
    proof {
        let ids_set = Set::new(|k: Seq<char>| views(ids@).contains(k));
        assert forall|k: Seq<char>| #[trigger] ids_set.contains(k) && parse_sequence_spec(k, prefix@) is Some implies parse_sequence_spec(
            k,
            prefix@,
        )->0 < best by {
            let q = views(ids@).index_of(k);
            assert(ids@[q]@ == k);
        }
        if best != minimum {
            let q = choose|q: int| 0 <= q < i && parse_sequence_spec(#[trigger] ids@[q]@, prefix@) == Some((best - 1) as u64);
            assert(views(ids@)[q] == ids@[q]@);
            assert(ids_set.contains(ids@[q]@));
        }
    }
    best
}

impl ConversationTree {
    /// The id of the branch that comes first in walk order.
    fn first_branch_id(&self) -> (r: String)
        requires
            self.wf(),
            self.branches@.len() > 0,
        ensures
            self@.branches.dom().contains(r@),
            walk_order(self@).len() > 0,
            r@ == walk_order(self@)[0],
    {
        let order = self.walk_order_ids();
        proof {
            self.lemma_branch_at(0);
            assert(views(order@).contains(self.branches@[0].id@));
        }
        let r = order[0].clone();
        proof {
            assert(views(order@)[0] == r@);
            assert(views(order@).contains(r@));
        }
        r
    }

    /// Clears each `created_from` that its branch's path does not hold.
    fn clear_stale_origins(&mut self)
        requires
            old(self).wf(),
        ensures
            final(self).wf(),
            final(self)@ == (TreeView {
                branches: old(self)@.branches.map_values(|b: BranchView| without_stale_origin(b)),
                ..old(self)@
            }),
    {
        let ghost orig = self@;
        let ghost ids = branch_ids(self.branches@);
        let mut j: usize = 0;
        while j < self.branches.len()
            invariant
                self.wf(),
                branch_ids(self.branches@) == ids,
                j <= self.branches@.len(),
                self@.nodes == orig.nodes,
                self@.root_ids == orig.root_ids,
                self@.current == orig.current,
                self@.next_message_seq == orig.next_message_seq,
                self@.next_branch_seq == orig.next_branch_seq,
                self@.branches.dom() == orig.branches.dom(),
                forall|k: int|
                    0 <= k < j ==> #[trigger] self@.branches[ids[k]] == without_stale_origin(orig.branches[ids[k]]),
                forall|k: int| j <= k < ids.len() ==> #[trigger] self@.branches[ids[k]] == orig.branches[ids[k]],
            decreases self.branches@.len() - j,
        {
            proof {
                self.lemma_branch_at(j as int);
            }
            let ghost before = self@;
            let ghost bv = before.branches[ids[j as int]];
            let mut stale = false;
            match &self.branches[j].created_from {
                Some(c) => {
                    let pos = position_of(self.branches[j].path.as_slice(), c);
                    proof {
                        match pos {
                            Some(p) => {
                                assert(bv.path[p as int] == c@);
                            },
                            None => {
                                assert forall|q: int| 0 <= q < bv.path.len() implies bv.path[q] != c@ by {
                                    assert(bv.path[q] == self.branches@[j as int].path@[q]@);
                                }
                            },
                        }
                    }
                    stale = pos.is_none();
                },
                None => {},
            }
            proof {
                assert(bv == orig.branches[ids[j as int]]);
            }
            if stale {
                let cleared = ConversationBranch {
                    id: self.branches[j].id.clone(),
                    path: crate::protocol::copy_strings(&self.branches[j].path),
                    created_from: None,
                };
                let ghost cv = branch_view(cleared);
                self.set_branch_at(j, cleared);
                proof {
                    assert(cv == without_stale_origin(bv));
                }
            } else {
                proof {
                    assert(bv == without_stale_origin(bv));
                }
            }
            j += 1;
        }
        proof {
            assert forall|b: Seq<char>| #[trigger] self@.branches.dom().contains(b) implies self@.branches[b]
                == without_stale_origin(orig.branches[b]) by {
                let k = ids.index_of(b);
                assert(ids[k] == b);
            }
            assert(self@.branches =~= orig.branches.map_values(|b: BranchView| without_stale_origin(b)));
        }
    }
}

impl ConversationTree {
    fn node_id_list(&self) -> (r: Vec<String>)
        ensures
            views(r@) == node_ids(self.nodes@),
    {
        let mut r: Vec<String> = Vec::new();
        let mut i: usize = 0;
        while i < self.nodes.len()
            invariant
                i <= self.nodes@.len(),
                views(r@) == node_ids(self.nodes@).take(i as int),
            decreases self.nodes@.len() - i,
        {
            let ghost before = r@;
            let id = self.nodes[i].id.clone();
            r.push(id);
            proof {
                assert(views(r@) =~= views(before).push(self.nodes@[i as int].id@));
                assert(node_ids(self.nodes@).take(i + 1) =~= node_ids(self.nodes@).take(i as int).push(
                    node_ids(self.nodes@)[i as int],
                ));
            }
            i += 1;
        }
        assert(node_ids(self.nodes@).take(i as int) =~= node_ids(self.nodes@));
        r
    }

    fn branch_id_list(&self) -> (r: Vec<String>)
        ensures
            views(r@) == branch_ids(self.branches@),
    {
        let mut r: Vec<String> = Vec::new();
        let mut i: usize = 0;
        while i < self.branches.len()
            invariant
                i <= self.branches@.len(),
                views(r@) == branch_ids(self.branches@).take(i as int),
            decreases self.branches@.len() - i,
        {
            let ghost before = r@;
            let id = self.branches[i].id.clone();
            r.push(id);
            proof {
                assert(views(r@) =~= views(before).push(self.branches@[i as int].id@));
                assert(branch_ids(self.branches@).take(i + 1) =~= branch_ids(self.branches@).take(i as int).push(
                    branch_ids(self.branches@)[i as int],
                ));
            }
            i += 1;
        }
        assert(branch_ids(self.branches@).take(i as int) =~= branch_ids(self.branches@));
        r
    }

    fn any_path_entries(&self) -> (r: bool)
        requires
            self.wf(),
        ensures
            r == has_path_entries(self@),
    {
        let mut j: usize = 0;
        while j < self.branches.len()
            invariant
                self.wf(),
                j <= self.branches@.len(),
                forall|k: int| 0 <= k < j ==> #[trigger] self.branches@[k].path@.len() == 0,
            decreases self.branches@.len() - j,
        {
            if self.branches[j].path.len() > 0 {
                proof {
                    self.lemma_branch_at(j as int);
                    let b = self.branches@[j as int].id@;
                    assert(self@.branches[b].path.len() > 0);
                }
                return true;
            }
            j += 1;
        }
        proof {
            assert forall|b: Seq<char>| self@.branches.dom().contains(b) implies #[trigger] self@.branches[b].path.len() == 0 by {
                let k = branch_ids(self.branches@).index_of(b);
                assert(branch_ids(self.branches@)[k] == b);
                self.lemma_branch_at(k);
            }
        }
        false
    }

    /// Checks the branch paths and, where they are sound, repairs the rest:
    /// the active branch, stale branch origins, unreferenced nodes, the
    /// parent and child links, and the next sequence numbers.
    pub fn validate_or_repair(&mut self) -> (r: Result<(), TreeError>)
        requires
            old(self).wf(),
            sequence_ids_bounded(old(self)@),
        ensures
            final(self).wf(),
            old(self)@.branches == Map::<Seq<char>, BranchView>::empty() && old(self)@.nodes == Map::<
                Seq<char>,
                NodeView,
            >::empty() ==> r is Ok && final(self)@ == empty_tree(),
            old(self)@.branches == Map::<Seq<char>, BranchView>::empty() && old(self)@.nodes != Map::<
                Seq<char>,
                NodeView,
            >::empty() ==> (r matches Err(TreeError::NodesWithoutBranches) && final(self)@ == old(self)@),
            old(self)@.branches != Map::<Seq<char>, BranchView>::empty() && !paths_consistent(old(self)@)
                ==> (r matches Err(e) && path_problem(old(self)@, e) && final(self)@ == old(self)@),
            old(self)@.branches != Map::<Seq<char>, BranchView>::empty() && paths_consistent(old(self)@)
                && !has_path_entries(old(self)@) && old(self)@.nodes != Map::<Seq<char>, NodeView>::empty()
                ==> (r matches Err(TreeError::NodesWithoutPaths) && final(self)@ == old(self)@),
            old(self)@.branches != Map::<Seq<char>, BranchView>::empty() && paths_consistent(old(self)@)
                && (has_path_entries(old(self)@) || old(self)@.nodes == Map::<Seq<char>, NodeView>::empty())
                ==> r is Ok && repaired(old(self)@, final(self)@),
    {
        let ghost orig = self@;
        if self.branches.len() == 0 {
            proof {
                assert(self@.branches =~= Map::<Seq<char>, BranchView>::empty());
            }
            if self.nodes.len() == 0 {
                proof {
                    assert(self@.nodes =~= Map::<Seq<char>, NodeView>::empty());
                }
                *self = ConversationTree::new();
                return Ok(());
            }
            proof {
                self.lemma_node_at(0);
                assert(!Map::<Seq<char>, NodeView>::empty().dom().contains(self.nodes@[0].id@));
            }
            return Err(TreeError::NodesWithoutBranches);
        }
        proof {
            self.lemma_branch_at(0);
            assert(!Map::<Seq<char>, BranchView>::empty().dom().contains(self.branches@[0].id@));
        }
        match self.first_path_problem() {
            Some(e) => {
                return Err(e);
            },
            None => {},
        }
        let entries = self.any_path_entries();
        if !entries && self.nodes.len() > 0 {
            proof {
                self.lemma_node_at(0);
                assert(!Map::<Seq<char>, NodeView>::empty().dom().contains(self.nodes@[0].id@));
            }
            return Err(TreeError::NodesWithoutPaths);
        }
        proof {
            if !entries {
                assert(self@.nodes =~= Map::<Seq<char>, NodeView>::empty());
            }
        }
        let trimmed = crate::text::trim_str(self.current_branch_id.as_str());
        let known = self.find_branch(&self.current_branch_id).is_some();
        if trimmed.len() == 0 || !known {
            self.current_branch_id = self.first_branch_id();
        }
        proof {
            if known {
                let bi = choose|bi: int| 0 <= bi < self.branches@.len() && self.branches@[bi].id@ == orig.current;
                self.lemma_branch_at(bi);
            }
        }
        let ghost repaired_current = self@;
        self.clear_stale_origins();
        let ghost mid = self@;
        proof {
            assert forall|k: Seq<char>| referenced(mid.branches, k) == referenced(orig.branches, k) by {
                if referenced(orig.branches, k) {
                    let b = choose|b: Seq<char>| #![trigger orig.branches[b]] orig.branches.dom().contains(b) && orig.branches[b].path.contains(k);
                    assert(mid.branches[b].path == orig.branches[b].path);
                }
                if referenced(mid.branches, k) {
                    let b = choose|b: Seq<char>| #![trigger mid.branches[b]] mid.branches.dom().contains(b) && mid.branches[b].path.contains(k);
                    assert(mid.branches[b].path == orig.branches[b].path);
                }
            }
            assert(referenced_nodes(mid).dom() =~= referenced_nodes(orig).dom());
        }
        self.prune_unreferenced_nodes();
        let node_list = self.node_id_list();
        let mp = vec!['m', 's', 'g', '-'];
        proof {
            assert(mp@ == msg_prefix());
            assert forall|i: int| 0 <= i < node_list@.len() implies parse_sequence_spec(#[trigger] node_list@[i]@, mp@) != Some(u64::MAX) by {
                assert(views(node_list@)[i] == node_list@[i]@);
                assert(node_ids(self.nodes@)[i] == node_list@[i]@);
                assert(node_ids(self.nodes@).contains(node_list@[i]@));
                assert(self@.nodes.dom().contains(node_list@[i]@));
                assert(orig.nodes.dom().contains(node_list@[i]@));
            }
        }
        self.next_message_seq = next_sequence(&node_list, &mp, 1);
        let branch_list = self.branch_id_list();
        let bp = vec!['b', 'r', 'a', 'n', 'c', 'h', '-'];
        proof {
            assert(bp@ == branch_prefix());
            assert forall|i: int| 0 <= i < branch_list@.len() implies parse_sequence_spec(#[trigger] branch_list@[i]@, bp@) != Some(u64::MAX) by {
                assert(views(branch_list@)[i] == branch_list@[i]@);
                assert(branch_ids(self.branches@)[i] == branch_list@[i]@);
                assert(branch_ids(self.branches@).contains(branch_list@[i]@));
                assert(self@.branches.dom().contains(branch_list@[i]@));
                assert(orig.branches.dom().contains(branch_list@[i]@));
            }
        }
        self.next_branch_seq = next_sequence(&branch_list, &bp, 2);
        proof {
            let fin = self@;
            assert(Set::new(|k: Seq<char>| views(node_list@).contains(k)) =~= fin.nodes.dom());
            assert(Set::new(|k: Seq<char>| views(branch_list@).contains(k)) =~= fin.branches.dom());
            assert forall|k: Seq<char>| #[trigger] fin.nodes.dom().contains(k) implies fin.nodes[k].message
                == orig.nodes[k].message by {
                assert(referenced_nodes(mid).dom().contains(k));
            }
        }
        Ok(())
    }
}

impl ConversationTree {
    /// Adds `node`, replacing a node with the same id.
    pub fn insert_node(&mut self, node: ConversationNode)
        requires
            old(self).wf(),
        ensures
            final(self).wf(),
            final(self)@ == (TreeView {
                nodes: old(self)@.nodes.insert(node.id@, node_view(node)),
                ..old(self)@
            }),
    {
        self.put_node(node);
    }

    /// The node with id `id`.
    pub fn node(&self, id: &str) -> (r: Option<&ConversationNode>)
        requires
            self.wf(),
        ensures
            self@.nodes.dom().contains(id@) <==> r is Some,
            r matches Some(n) ==> n.id@ == id@ && node_view(*n) == self@.nodes[id@],
    {
        let key = crate::text::owned(id);
        match self.find_node(&key) {
            Some(i) => {
                proof {
                    self.lemma_node_at(i as int);
                }
                Some(&self.nodes[i])
            },
            None => None,
        }
    }

    /// The branch with id `id`.
    pub fn branch(&self, id: &str) -> (r: Option<&ConversationBranch>)
        requires
            self.wf(),
        ensures
            self@.branches.dom().contains(id@) <==> r is Some,
            r matches Some(b) ==> b.id@ == id@ && branch_view(*b) == self@.branches[id@],
    {
        let key = crate::text::owned(id);
        match self.find_branch(&key) {
            Some(i) => {
                proof {
                    self.lemma_branch_at(i as int);
                }
                Some(&self.branches[i])
            },
            None => None,
        }
    }

    /// All nodes, each once.
    pub fn nodes(&self) -> (r: &[ConversationNode])
        requires
            self.wf(),
        ensures
            node_ids(r@).no_duplicates(),
            node_map(r@) == self@.nodes,
    {
        self.nodes.as_slice()
    }

    /// All branches, each once.
    pub fn branches(&self) -> (r: &[ConversationBranch])
        requires
            self.wf(),
        ensures
            branch_ids(r@).no_duplicates(),
            branch_map(r@) == self@.branches,
    {
        self.branches.as_slice()
    }

    /// The ids of the messages that start a branch.
    pub fn root_ids(&self) -> (r: &[String])
        ensures
            views(r@) == self@.root_ids,
    {
        self.root_ids.as_slice()
    }

    /// Replaces the root ids; `validate_or_repair` recomputes them.
    pub fn set_root_ids(&mut self, root_ids: Vec<String>)
        requires
            old(self).wf(),
        ensures
            final(self).wf(),
            final(self)@ == (TreeView { root_ids: views(root_ids@), ..old(self)@ }),
    {
        self.root_ids = root_ids;
    }

    pub fn next_message_seq(&self) -> (r: u64)
        ensures
            r == self@.next_message_seq,
    {
        self.next_message_seq
    }

    pub fn next_branch_seq(&self) -> (r: u64)
        ensures
            r == self@.next_branch_seq,
    {
        self.next_branch_seq
    }

    /// A tree from its parts, refused (`None`) where two nodes or two
    /// branches share an id.
    pub fn from_parts(
        nodes: Vec<ConversationNode>,
        root_ids: Vec<String>,
        branches: Vec<ConversationBranch>,
        current_branch_id: String,
        next_message_seq: u64,
        next_branch_seq: u64,
    ) -> (r: Option<ConversationTree>)
        ensures
            r is Some <==> node_ids(nodes@).no_duplicates() && branch_ids(branches@).no_duplicates(),
            r matches Some(t) ==> t.wf() && t@ == (TreeView {
                nodes: node_map(nodes@),
                root_ids: views(root_ids@),
                branches: branch_map(branches@),
                current: current_branch_id@,
                next_message_seq,
                next_branch_seq,
            }),
    {
        let t = ConversationTree {
            nodes,
            root_ids,
            branches,
            current_branch_id,
            next_message_seq,
            next_branch_seq,
        };
        let node_list = t.node_id_list();
        let branch_list = t.branch_id_list();
        if has_duplicate(&node_list) || has_duplicate(&branch_list) {
            None
        } else {
            Some(t)
        }
    }
}

/// Whether two entries of `ids` are equal.
fn has_duplicate(ids: &Vec<String>) -> (r: bool)
    ensures
        r == !views(ids@).no_duplicates(),
{
    let mut i: usize = 0;
    while i < ids.len()
        invariant
            i <= ids@.len(),
            forall|a: int, b: int| 0 <= a < i && 0 <= b < ids@.len() && a != b ==> #[trigger] views(ids@)[a] != #[trigger] views(ids@)[b],
        decreases ids@.len() - i,
    {
        let mut k: usize = 0;
        while k < ids.len()
            invariant
                i < ids@.len(),
                k <= ids@.len(),
                forall|a: int, b: int| 0 <= a < i && 0 <= b < ids@.len() && a != b ==> #[trigger] views(ids@)[a] != #[trigger] views(ids@)[b],
                forall|b: int| 0 <= b < k && b != i ==> views(ids@)[i as int] != #[trigger] views(ids@)[b],
            decreases ids@.len() - k,
        {
            if k != i && ids[i] == ids[k] {
                proof {
                    assert(views(ids@)[i as int] == views(ids@)[k as int]);
                }
                return true;
            }
            k += 1;
        }
        i += 1;
    }
    false
}

impl TreeError {
    /// The error's text.
    pub fn message(&self) -> (r: String)
        ensures
            r@ == tree_error_text(*self),
    {
        let mut s = String::new();
        match self {
            TreeError::MessageNotInActiveBranch(m) => {
                crate::text::push_str(&mut s, "message ");
                crate::text::push_str(&mut s, m.as_str());
                crate::text::push_str(&mut s, " is not in the active branch");
            },
            TreeError::UnknownBranch(b) => {
                crate::text::push_str(&mut s, "unknown branch ");
                crate::text::push_str(&mut s, b.as_str());
            },
            TreeError::NodesWithoutBranches => {
                crate::text::push_str(&mut s, "conversation tree has message nodes but no branches");
            },
            TreeError::MissingMessage { branch, message } => {
                crate::text::push_str(&mut s, "branch ");
                crate::text::push_str(&mut s, branch.as_str());
                crate::text::push_str(&mut s, " references missing message ");
                crate::text::push_str(&mut s, message.as_str());
            },
            TreeError::DuplicateMessage { branch, message } => {
                crate::text::push_str(&mut s, "branch ");
                crate::text::push_str(&mut s, branch.as_str());
                crate::text::push_str(&mut s, " contains duplicate message ");
                crate::text::push_str(&mut s, message.as_str());
            },
            TreeError::InconsistentParents(m) => {
                crate::text::push_str(&mut s, "message ");
                crate::text::push_str(&mut s, m.as_str());
                crate::text::push_str(&mut s, " has inconsistent parents across branches");
            },
            TreeError::NodesWithoutPaths => {
                crate::text::push_str(&mut s, "conversation tree has message nodes but no branch paths");
            },
        }
        s
    }
}

pub open spec fn tree_error_text(e: TreeError) -> Seq<char> {
    match e {
        TreeError::MessageNotInActiveBranch(m) => "message "@ + m@ + " is not in the active branch"@,
        TreeError::UnknownBranch(b) => "unknown branch "@ + b@,
        TreeError::NodesWithoutBranches => "conversation tree has message nodes but no branches"@,
        TreeError::MissingMessage { branch, message } => "branch "@ + branch@ + " references missing message "@
            + message@,
        TreeError::DuplicateMessage { branch, message } => "branch "@ + branch@ + " contains duplicate message "@
            + message@,
        TreeError::InconsistentParents(m) => "message "@ + m@ + " has inconsistent parents across branches"@,
        TreeError::NodesWithoutPaths => "conversation tree has message nodes but no branch paths"@,
    }
}

proof fn lemma_push_no_dup<A>(s: Seq<A>, x: A)
    requires
        s.no_duplicates(),
        !s.contains(x),
    ensures
        s.push(x).no_duplicates(),
{
    assert forall|a: int, b: int| 0 <= a < s.len() + 1 && 0 <= b < s.len() + 1 && a != b implies s.push(x)[a] != s.push(x)[b] by {
        if a == s.len() {
            assert(s.push(x)[b] == s[b]);
        } else if b == s.len() {
            assert(s.push(x)[a] == s[a]);
        }
    }
}

proof fn lemma_messages_along_concat(nodes: Map<Seq<char>, NodeView>, a: Seq<Seq<char>>, b: Seq<Seq<char>>)
    ensures
        messages_along(nodes, a + b) == messages_along(nodes, a) + messages_along(nodes, b),
    decreases b.len(),
{
    if b.len() == 0 {
        assert(a + b =~= a);
        assert(messages_along(nodes, a) + messages_along(nodes, b) =~= messages_along(nodes, a));
    } else {
        lemma_messages_along_concat(nodes, a, b.drop_last());
        assert((a + b).drop_last() =~= a + b.drop_last());
        assert((a + b).last() == b.last());
        let ma = messages_along(nodes, a);
        let mb = messages_along(nodes, b.drop_last());
        if nodes.dom().contains(b.last()) {
            assert((ma + mb).push(nodes[b.last()].message) =~= ma + mb.push(nodes[b.last()].message));
        }
    }
}

/// Switching to a branch shows that branch's messages, and switching back
/// to the branch that was active restores the tree exactly.
pub proof fn law_switch_round_trip(v: TreeView, b: Seq<char>)
    requires
        v.branches.dom().contains(v.current),
        v.branches.dom().contains(b),
    ensures
        visible_messages(switched_to(v, b)) == messages_along(v.nodes, v.branches[b].path),
        switched_to(switched_to(v, b), v.current) == v,
{
}

/// Adding a message with a fresh id extends the visible messages by that
/// message and leaves every other branch, and the messages it shows, as
/// they were.
pub proof fn law_add_message_extends_active_branch(
    old: TreeView,
    new: TreeView,
    id: Seq<char>,
    msg: MessageView,
)
    requires
        added_message(old, new, id, msg),
        old.branches.dom().contains(old.current),
        !old.nodes.dom().contains(id),
        !current_path_of(old).contains(id),
    ensures
        visible_messages(new) == visible_messages(old).push(msg),
        forall|b: Seq<char>|
            #![trigger new.branches[b]]
            old.branches.dom().contains(b) && b != old.current ==> new.branches.dom().contains(b)
                && new.branches[b] == old.branches[b] && (!old.branches[b].path.contains(id)
                ==> messages_along(new.nodes, new.branches[b].path) == messages_along(
                old.nodes,
                old.branches[b].path,
            )),
{
    let path = current_path_of(old);
    let inserted = old.nodes.insert(
        id,
        NodeView {
            parent_id: if path.len() > 0 {
                Some(path.last())
            } else {
                None
            },
            child_ids: Seq::empty(),
            message: msg,
        },
    );
    let parent_is = |k: Seq<char>| path.len() > 0 && k == path.last();
    assert forall|k: Seq<char>| k != id && old.nodes.dom().contains(k) implies new.nodes.dom().contains(
        k,
    ) && #[trigger] new.nodes[k].message == old.nodes[k].message by {
        assert(inserted.dom().contains(k));
        if path.len() > 0 && k == path.last() {
            assert(children_added(inserted[k], new.nodes[k], id));
        } else if path.len() > 0 {
            assert(new.nodes[k] == inserted[k]);
        }
    }
    assert forall|k: Seq<char>| k != id implies (old.nodes.dom().contains(k) <==> new.nodes.dom().contains(
        k,
    )) by {
        assert(new.nodes.dom().contains(k) == inserted.dom().contains(k));
    }
    // The active path.
    lemma_messages_along_same(old.nodes, new.nodes, path);
    let np = path.push(id);
    assert(current_path_of(new) == np);
    assert(np.drop_last() =~= path);
    assert(new.nodes.dom().contains(id));
    if path.len() > 0 {
        assert(path.contains(path.last())) by {
            assert(path[path.len() - 1] == path.last());
        }
        assert(new.nodes[id] == inserted[id]);
    } else {
        assert(new.nodes == inserted);
    }
    // The other branches.
    assert forall|b: Seq<char>|
        #![trigger new.branches[b]]
        old.branches.dom().contains(b) && b != old.current implies new.branches.dom().contains(b)
            && new.branches[b] == old.branches[b] && (!old.branches[b].path.contains(id)
            ==> messages_along(new.nodes, new.branches[b].path) == messages_along(
            old.nodes,
            old.branches[b].path,
        )) by {
        if !old.branches[b].path.contains(id) {
            lemma_messages_along_same(old.nodes, new.nodes, old.branches[b].path);
        }
    }
}

/// Making a branch from a message of the active branch leaves the branch
/// it came from unchanged: switching back shows the same messages. The new
/// branch shows the messages up to and including that message, which begin
/// the messages of the original branch.
pub proof fn law_branching_keeps_original(old: TreeView, message_id: Seq<char>, new_id: Seq<char>)
    requires
        old.branches.dom().contains(old.current),
        current_path_of(old).contains(message_id),
        new_id != old.current,
    ensures
        branched(old, message_id, new_id).branches[old.current] == old.branches[old.current],
        visible_messages(switched_to(branched(old, message_id, new_id), old.current))
            == visible_messages(old),
        ({
            let path = current_path_of(old);
            visible_messages(old) == visible_messages(branched(old, message_id, new_id))
                + messages_along(old.nodes, path.skip(first_pos(path, message_id) + 1))
        }),
{
    let path = current_path_of(old);
    path.index_of_first_ensures(message_id);
    let j = path.index_of_first(message_id).unwrap();
    lemma_first_pos(path, message_id, j);
    let k = first_pos(path, message_id) + 1;
    let nv = branched(old, message_id, new_id);
    assert(nv.branches.dom().contains(old.current));
    assert(switched_to(nv, old.current).branches[old.current] == old.branches[old.current]);
    assert(current_path_of(nv) == path.take(k));
    lemma_messages_along_concat(old.nodes, path.take(k), path.skip(k));
    assert(path.take(k) + path.skip(k) =~= path);
}

/// The branch that a tree read without one starts on.
pub fn default_branch_id() -> (r: String)
    ensures
        r@ == default_branch_view(),
{
    format_branch_id(1)
}

/// The message sequence number that a tree read without one starts at.
pub fn default_next_message_seq() -> (r: u64)
    ensures
        r == 1,
{
    1
}

/// The branch sequence number that a tree read without one starts at.
pub fn default_next_branch_seq() -> (r: u64)
    ensures
        r == 2,
{
    2
}

/// A repaired tree passes validation: its branch paths are consistent and
/// name only nodes it keeps, so repairing it again takes the successful
/// branch rather than reporting a defect.
pub proof fn law_repaired_tree_is_consistent(old: TreeView, new: TreeView)
    requires
        old.branches != Map::<Seq<char>, BranchView>::empty(),
        paths_consistent(old),
        has_path_entries(old) || old.nodes == Map::<Seq<char>, NodeView>::empty(),
        repaired(old, new),
    ensures
        new.branches != Map::<Seq<char>, BranchView>::empty(),
        paths_consistent(new),
        has_path_entries(new) || new.nodes == Map::<Seq<char>, NodeView>::empty(),
        forall|b: Seq<char>| #[trigger] new.branches.dom().contains(b) ==> new.branches[b].path == old.branches[b].path,
{
    assert(new.branches.dom() == old.branches.dom());
    assert forall|b: Seq<char>| #[trigger] new.branches.dom().contains(b) implies new.branches[b].path
        == old.branches[b].path by {
        assert(new.branches[b] == without_stale_origin(old.branches[b]));
    }
    let b0 = old.branches.dom().choose();
    assert(old.branches.dom().contains(b0)) by {
        if !old.branches.dom().contains(b0) {
            assert(old.branches.dom() =~= Set::<Seq<char>>::empty());
            assert(old.branches =~= Map::<Seq<char>, BranchView>::empty());
        }
    }
    assert(new.branches.dom().contains(b0));
    assert forall|b: Seq<char>| #![trigger new.branches[b]] new.branches.dom().contains(b) implies {
        &&& new.branches[b].path.no_duplicates()
        &&& forall|q: int|
            0 <= q < new.branches[b].path.len() ==> new.nodes.dom().contains(#[trigger] new.branches[b].path[q])
    } by {
        assert(new.branches[b].path == old.branches[b].path);
        assert(old.branches[b] == old.branches[b]);
        assert forall|q: int| 0 <= q < new.branches[b].path.len() implies new.nodes.dom().contains(
            #[trigger] new.branches[b].path[q],
        ) by {
            let id = old.branches[b].path[q];
            assert(old.nodes.dom().contains(id));
            assert(old.branches[b].path.contains(id));
            assert(referenced(old.branches, id));
            assert(referenced_nodes(old).dom().contains(id));
        }
    }
    assert forall|b1: Seq<char>, b2: Seq<char>, q1: int, q2: int|
        #![trigger new.branches[b1].path[q1], new.branches[b2].path[q2]]
        new.branches.dom().contains(b1) && new.branches.dom().contains(b2) && 0 <= q1
            < new.branches[b1].path.len() && 0 <= q2 < new.branches[b2].path.len()
            && new.branches[b1].path[q1] == new.branches[b2].path[q2] implies parent_at(
        new.branches[b1].path,
        q1,
    ) == parent_at(new.branches[b2].path, q2) by {
        assert(new.branches[b1].path == old.branches[b1].path);
        assert(new.branches[b2].path == old.branches[b2].path);
        assert(old.branches[b1].path[q1] == old.branches[b2].path[q2]);
    }
    if has_path_entries(old) {
        let b = choose|b: Seq<char>| #![trigger old.branches[b]] old.branches.dom().contains(b) && old.branches[b].path.len() > 0;
        assert(new.branches[b].path == old.branches[b].path);
        assert(new.branches.dom().contains(b) && new.branches[b].path.len() > 0);
    } else {
        assert(new.nodes.dom() =~= Set::<Seq<char>>::empty()) by {
            assert forall|k: Seq<char>| !new.nodes.dom().contains(k) by {
                assert(!old.nodes.dom().contains(k));
            }
        }
        assert(new.nodes =~= Map::<Seq<char>, NodeView>::empty());
    }
}

proof fn lemma_next_sequence_unique(ids: Set<Seq<char>>, prefix: Seq<char>, minimum: nat, r1: nat, r2: nat)
    requires
        next_sequence_of(ids, prefix, minimum, r1),
        next_sequence_of(ids, prefix, minimum, r2),
        r1 <= u64::MAX,
        r2 <= u64::MAX,
    ensures
        r1 == r2,
{
    if r1 < r2 {
        let k = choose|k: Seq<char>| #[trigger] ids.contains(k) && parse_sequence_spec(k, prefix) == Some((r2 - 1) as u64);
        assert(parse_sequence_spec(k, prefix)->0 < r1);
    } else if r2 < r1 {
        let k = choose|k: Seq<char>| #[trigger] ids.contains(k) && parse_sequence_spec(k, prefix) == Some((r1 - 1) as u64);
        assert(parse_sequence_spec(k, prefix)->0 < r2);
    }
}

/// Repairing is idempotent: repairing a repaired tree changes nothing.
pub proof fn law_repair_is_idempotent(old: TreeView, new: TreeView, again: TreeView)
    requires
        old.branches != Map::<Seq<char>, BranchView>::empty(),
        paths_consistent(old),
        has_path_entries(old) || old.nodes == Map::<Seq<char>, NodeView>::empty(),
        repaired(old, new),
        repaired(new, again),
    ensures
        again == new,
{
    law_repaired_tree_is_consistent(old, new);
    // Branches: dropping stale origins twice drops nothing more.
    assert(again.branches =~= new.branches) by {
        assert forall|b: Seq<char>| #[trigger] again.branches.dom().contains(b) implies again.branches[b]
            == new.branches[b] by {
            let ob = old.branches[b];
            assert(new.branches[b] == without_stale_origin(ob));
            assert(again.branches[b] == without_stale_origin(new.branches[b]));
        }
    }
    assert(new.branches.dom() == old.branches.dom());
    assert(walk_order(new) == walk_order(old));
    // The active branch: kept where it names a branch, else the first in
    // walk order both times.
    if !current_ok(new) {
        if current_ok(old) {
            assert(new.current == old.current);
        }
        assert(again.current == walk_order(new)[0]);
    }
    assert(again.current == new.current);
    // The same nodes stay.
    assert forall|k: Seq<char>| referenced(new.branches, k) <==> referenced(old.branches, k) by {
        if referenced(new.branches, k) {
            let b = choose|b: Seq<char>| #![trigger new.branches[b]] new.branches.dom().contains(b) && new.branches[b].path.contains(k);
            assert(old.branches[b].path == new.branches[b].path);
        }
        if referenced(old.branches, k) {
            let b = choose|b: Seq<char>| #![trigger old.branches[b]] old.branches.dom().contains(b) && old.branches[b].path.contains(k);
            assert(old.branches[b].path == new.branches[b].path);
        }
    }
    assert(again.nodes.dom() =~= new.nodes.dom());
    assert(walk_paths(again) == walk_paths(new));
    // Each node: same message, parent and children.
    assert forall|n: Seq<char>| #[trigger] new.nodes.dom().contains(n) implies again.nodes[n] == new.nodes[n] by {
        let x = new.nodes[n];
        let y = again.nodes[n];
        assert(y.message == x.message);
        assert(new.nodes.dom().contains(n) && again.nodes.dom().contains(n));
        match (x.parent_id, y.parent_id) {
            (Some(p), Some(q)) => {
                assert(path_adjacent(new.branches, p, n));
                assert(path_adjacent(again.branches, q, n));
                let (b1, k1) = choose|bid: Seq<char>, k: int|
                    #![trigger new.branches[bid].path[k], new.branches[bid].path[k + 1]]
                    new.branches.dom().contains(bid) && 0 <= k && k + 1 < new.branches[bid].path.len()
                        && new.branches[bid].path[k] == p && new.branches[bid].path[k + 1] == n;
                let (b2, k2) = choose|bid: Seq<char>, k: int|
                    #![trigger again.branches[bid].path[k], again.branches[bid].path[k + 1]]
                    again.branches.dom().contains(bid) && 0 <= k && k + 1 < again.branches[bid].path.len()
                        && again.branches[bid].path[k] == q && again.branches[bid].path[k + 1] == n;
                assert(new.branches[b2] == again.branches[b2]);
                assert(parent_at(new.branches[b1].path, k1 + 1) == parent_at(new.branches[b2].path, k2 + 1));
            },
            (Some(p), None) => {
                assert(path_adjacent(new.branches, p, n));
                assert(!path_adjacent(again.branches, p, n));
            },
            (None, Some(q)) => {
                assert(path_adjacent(again.branches, q, n));
                assert(!path_adjacent(new.branches, q, n));
            },
            (None, None) => {},
        }
        assert(y.child_ids == walked_children(again, n));
        assert(x.child_ids == walked_children(new, n));
    }
    assert(again.nodes =~= new.nodes);
    assert(again.root_ids == walked_roots(again));
    // Sequence counters.
    lemma_next_sequence_unique(new.nodes.dom(), msg_prefix(), 1, new.next_message_seq as nat, again.next_message_seq as nat);
    lemma_next_sequence_unique(new.branches.dom(), branch_prefix(), 2, new.next_branch_seq as nat, again.next_branch_seq as nat);
}

/// The order in which branches are walked: their ids in string order, then
/// sorted by `compare_branch_ids`.
pub open spec fn walk_order(v: TreeView) -> Seq<Seq<char>> {
    crate::ids::sort_spec(crate::ids::string_order(v.branches.dom()), branch_prefix())
}

proof fn lemma_keyed_from_values(ids: Seq<Seq<char>>, vals: Seq<BranchView>, m: Map<Seq<char>, BranchView>)
    requires
        ids.no_duplicates(),
        ids.len() == vals.len(),
        forall|x: Seq<char>| #[trigger] ids.contains(x) <==> m.dom().contains(x),
        forall|i: int| 0 <= i < ids.len() ==> vals[i] == m[#[trigger] ids[i]],
    ensures
        keyed(ids, vals) == m,
{
    assert forall|k: Seq<char>| #[trigger] keyed(ids, vals).dom().contains(k) implies keyed(ids, vals)[k] == m[k] by {
        let i = ids.index_of(k);
        assert(ids[i] == k);
    }
    assert(keyed(ids, vals).dom() =~= m.dom());
    assert(keyed(ids, vals) =~= m);
}

fn branch_index_in(rest: &Vec<ConversationBranch>, id: &String) -> (r: usize)
    requires
        branch_ids(rest@).contains(id@),
    ensures
        r < rest@.len(),
        rest@[r as int].id@ == id@,
{
    let mut i: usize = 0;
    while i < rest.len()
        invariant
            i <= rest@.len(),
            branch_ids(rest@).contains(id@),
            forall|k: int| 0 <= k < i ==> rest@[k].id@ != id@,
        decreases rest@.len() - i,
    {
        if rest[i].id == *id {
            return i;
        }
        i += 1;
    }
    proof {
        let k = branch_ids(rest@).index_of(id@);
        assert(rest@[k].id@ == id@);
    }
    0
}

impl ConversationTree {
    /// The branch ids in walk order.
    fn walk_order_ids(&self) -> (r: Vec<String>)
        requires
            self.wf(),
        ensures
            views(r@) == walk_order(self@),
            views(r@).no_duplicates(),
            forall|x: Seq<char>| #[trigger] views(r@).contains(x) <==> self@.branches.dom().contains(x),
    {
        let mut ids: Vec<String> = Vec::new();
        let mut i: usize = 0;
        while i < self.branches.len()
            invariant
                i <= self.branches@.len(),
                views(ids@) == branch_ids(self.branches@).take(i as int),
            decreases self.branches@.len() - i,
        {
            ids.push(self.branches[i].id.clone());
            assert(branch_ids(self.branches@).take(i + 1) =~= branch_ids(self.branches@).take(i as int).push(
                self.branches@[i as int].id@,
            ));
            assert(views(ids@) =~= branch_ids(self.branches@).take(i + 1));
            i += 1;
        }
        assert(branch_ids(self.branches@).take(i as int) =~= branch_ids(self.branches@));
        let ordered = crate::ids::string_ordered(&ids);
        proof {
            assert forall|x: Seq<char>| #[trigger] views(ordered@).contains(x) <==> self@.branches.dom().contains(x) by {}
            crate::ids::lemma_string_order(views(ordered@), self@.branches.dom());
            assert(views(ordered@).no_duplicates()) by {
                let o = views(ordered@);
                assert forall|a: int, b: int| 0 <= a < o.len() && 0 <= b < o.len() && a != b implies o[a] != o[b] by {
                    if a < b {
                        crate::ids::lemma_lex_order_antisym(o[a], o[b]);
                    } else {
                        crate::ids::lemma_lex_order_antisym(o[b], o[a]);
                    }
                }
            }
        }
        let r = crate::ids::sorted_branch_ids(&ordered);
        proof {
            lemma_no_dup_perm(views(ordered@), views(r@));
            views(ordered@).to_multiset_ensures();
            views(r@).to_multiset_ensures();
            assert forall|x: Seq<char>| #[trigger] views(r@).contains(x) <==> self@.branches.dom().contains(x) by {
                assert(views(r@).contains(x) <==> views(r@).to_multiset().count(x) > 0);
                assert(views(ordered@).contains(x) <==> views(ordered@).to_multiset().count(x) > 0);
            }
        }
        r
    }

    /// Puts the branches in walk order; the tree it stands for is unchanged.
    fn order_branches_for_walk(&mut self)
        requires
            old(self).wf(),
        ensures
            final(self).wf(),
            final(self)@ == old(self)@,
            branch_ids(final(self).branches@) == walk_order(old(self)@),
            final(self).nodes == old(self).nodes,
    {
        let order = self.walk_order_ids();
        let ghost m = self@.branches;
        let mut rest: Vec<ConversationBranch> = Vec::new();
        std::mem::swap(&mut rest, &mut self.branches);
        let mut ordered: Vec<ConversationBranch> = Vec::new();
        let mut k: usize = 0;
        proof {
            assert forall|q: int| 0 <= q < rest@.len() implies m.dom().contains(#[trigger] rest@[q].id@) && branch_view(rest@[q])
                == m[rest@[q].id@] by {
                lemma_keyed_index(branch_ids(rest@), rest@.map_values(|b: ConversationBranch| branch_view(b)), q);
            }
            assert forall|x: Seq<char>| #[trigger] branch_ids(rest@).contains(x) <==> (m.dom().contains(x)
                && !views(order@).take(0).contains(x)) by {}
        }
        while k < order.len()
            invariant
                k <= order@.len(),
                views(order@) == walk_order(old(self)@),
                views(order@).no_duplicates(),
                forall|x: Seq<char>| #[trigger] views(order@).contains(x) <==> m.dom().contains(x),
                m == old(self)@.branches,
                branch_ids(rest@).no_duplicates(),
                forall|q: int| 0 <= q < rest@.len() ==> m.dom().contains(#[trigger] rest@[q].id@) && branch_view(rest@[q])
                    == m[rest@[q].id@],
                forall|x: Seq<char>| #[trigger] branch_ids(rest@).contains(x) <==> (m.dom().contains(x)
                    && !views(order@).take(k as int).contains(x)),
                branch_ids(ordered@) == views(order@).take(k as int),
                forall|q: int| 0 <= q < ordered@.len() ==> branch_view(#[trigger] ordered@[q]) == m[ordered@[q].id@],
                self.nodes == old(self).nodes,
                self.root_ids == old(self).root_ids,
                self.current_branch_id == old(self).current_branch_id,
                self.next_message_seq == old(self).next_message_seq,
                self.next_branch_seq == old(self).next_branch_seq,
            decreases order@.len() - k,
        {
            let id = &order[k];
            proof {
                assert(views(order@)[k as int] == id@);
                assert(views(order@).contains(id@));
                assert(!views(order@).take(k as int).contains(id@)) by {
                    if views(order@).take(k as int).contains(id@) {
                        let q = views(order@).take(k as int).index_of(id@);
                        assert(views(order@)[q] == views(order@)[k as int]);
                    }
                }
            }
            let q = branch_index_in(&rest, id);
            let ghost before_rest = rest@;
            let b = rest.remove(q);
            let ghost before_ordered = ordered@;
            ordered.push(b);
            proof {
                assert(branch_ids(rest@) =~= branch_ids(before_rest).remove(q as int));
                assert(branch_ids(ordered@) =~= branch_ids(before_ordered).push(id@));
                assert(views(order@).take(k + 1) =~= views(order@).take(k as int).push(id@));
                assert forall|q2: int| 0 <= q2 < rest@.len() implies m.dom().contains(#[trigger] rest@[q2].id@)
                    && branch_view(rest@[q2]) == m[rest@[q2].id@] by {
                    if q2 < q {
                        assert(rest@[q2] == before_rest[q2]);
                    } else {
                        assert(rest@[q2] == before_rest[q2 + 1]);
                    }
                }
                assert forall|q2: int| 0 <= q2 < ordered@.len() implies branch_view(#[trigger] ordered@[q2]) == m[ordered@[q2].id@] by {
                    if q2 < before_ordered.len() {
                        assert(ordered@[q2] == before_ordered[q2]);
                    }
                }
                let bi = branch_ids(before_rest);
                assert(bi[q as int] == id@);
                assert forall|a: int, c: int| 0 <= a < branch_ids(rest@).len() && 0 <= c < branch_ids(rest@).len() && a != c implies branch_ids(rest@)[a] != branch_ids(rest@)[c] by {
                    let a1 = if a < q { a } else { a + 1 };
                    let c1 = if c < q { c } else { c + 1 };
                    assert(branch_ids(rest@)[a] == bi[a1]);
                    assert(branch_ids(rest@)[c] == bi[c1]);
                }
                assert forall|x: Seq<char>| #[trigger] branch_ids(rest@).contains(x) <==> (m.dom().contains(x)
                    && !views(order@).take(k + 1).contains(x)) by {
                    if branch_ids(rest@).contains(x) {
                        let r = branch_ids(rest@).index_of(x);
                        let r1 = if r < q { r } else { r + 1 };
                        assert(bi[r1] == x);
                        assert(bi.contains(x));
                        assert(r1 != q);
                        assert(x != id@);
                    }
                    if m.dom().contains(x) && !views(order@).take(k + 1).contains(x) {
                        assert(!views(order@).take(k as int).contains(x)) by {
                            if views(order@).take(k as int).contains(x) {
                                let r = views(order@).take(k as int).index_of(x);
                                assert(views(order@).take(k + 1)[r] == x);
                            }
                        }
                        assert(bi.contains(x));
                        let r = bi.index_of(x);
                        assert(x != id@) by {
                            assert(views(order@).take(k + 1)[k as int] == id@);
                        }
                        assert(r != q);
                        let r2 = if r < q { r } else { r - 1 };
                        assert(branch_ids(rest@)[r2] == x);
                    }
                }
            }
            k += 1;
        }
        proof {
            assert(views(order@).take(k as int) =~= views(order@));
            assert(branch_ids(ordered@) == views(order@));
            let vals = ordered@.map_values(|b: ConversationBranch| branch_view(b));
            assert forall|i: int| 0 <= i < branch_ids(ordered@).len() implies vals[i] == m[#[trigger] branch_ids(ordered@)[i]] by {}
            assert forall|x: Seq<char>| #[trigger] branch_ids(ordered@).contains(x) <==> m.dom().contains(x) by {}
            lemma_keyed_from_values(branch_ids(ordered@), vals, m);
        }
        self.branches = ordered;
        assert(self@ =~= old(self)@);
    }
}

} // verus!
