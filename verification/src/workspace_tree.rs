//! The indented tree of a workspace directory that is shown to the model:
//! one line per entry in walk order, cut after a budget of entries.
use vstd::prelude::*;

use crate::ids::{lex_compare, lex_order, IdOrder};
use crate::text::{join, join_strings, owned, push_char, push_str, string_views, to_chars};

verus! {

/// One entry met while walking a directory, at `depth` below the root.
#[derive(Debug, Clone)]
pub struct TreeEntry {
    pub depth: usize,
    pub name: String,
    pub is_dir: bool,
}

/// `- name`, indented by two spaces per level, with `/` after a directory.
pub open spec fn entry_line(depth: nat, name: Seq<char>, is_dir: bool) -> Seq<char> {
    Seq::new(2 * depth, |i: int| ' ') + "- "@ + name + if is_dir {
        "/"@
    } else {
        Seq::empty()
    }
}

pub open spec fn entry_lines(entries: Seq<TreeEntry>) -> Seq<Seq<char>> {
    entries.map_values(|e: TreeEntry| entry_line(e.depth as nat, e.name@, e.is_dir))
}

/// The tree text: a header naming the root, the first `max_entries`
/// entries, and a note where the budget was used up.
pub open spec fn tree_text(root: Seq<char>, entries: Seq<TreeEntry>, max_entries: nat) -> Seq<char> {
    let shown = if entries.len() < max_entries {
        entries.len()
    } else {
        max_entries
    };
    let body = seq!["Workspace: "@ + root] + entry_lines(entries.take(shown as int));
    join(
        if shown == max_entries {
            body.push("... output truncated ..."@)
        } else {
            body
        },
        "\n"@,
    )
}

fn render_entry(e: &TreeEntry) -> (r: String)
    ensures
        r@ == entry_line(e.depth as nat, e.name@, e.is_dir),
{
    let mut out = String::new();
    let mut k: usize = 0;
    while k < e.depth
        invariant
            k <= e.depth,
            out@ == Seq::new(2 * k as nat, |i: int| ' '),
        decreases e.depth - k,
    {
        push_char(&mut out, ' ');
        push_char(&mut out, ' ');
        assert(out@ =~= Seq::new(2 * (k + 1) as nat, |i: int| ' '));
        k += 1;
    }
    push_str(&mut out, "- ");
    push_str(&mut out, e.name.as_str());
    if e.is_dir {
        push_str(&mut out, "/");
    }
    out
}

/// The tree text of the directory shown as `root`, from the entries of a
/// walk that goes no deeper than wanted, at most `max_entries` of them.
pub fn summarize_directory(root: &str, entries: &Vec<TreeEntry>, max_entries: usize) -> (r: String)
    ensures
        r@ == tree_text(root@, entries@, max_entries as nat),
{
    let shown = if entries.len() < max_entries {
        entries.len()
    } else {
        max_entries
    };
    let mut header = owned("Workspace: ");
    push_str(&mut header, root);
    let mut parts: Vec<String> = Vec::new();
    parts.push(header);
    let ghost head = seq!["Workspace: "@ + root@];
    assert(string_views(parts@) =~= head);
    let mut i: usize = 0;
    while i < shown
        invariant
            i <= shown <= entries@.len(),
            shown <= max_entries,
            head == seq!["Workspace: "@ + root@],
            string_views(parts@) == head + entry_lines(entries@.take(i as int)),
        decreases shown - i,
    {
        let line = render_entry(&entries[i]);
        let ghost before = string_views(parts@);
        parts.push(line);
        assert(entry_lines(entries@.take(i + 1)) =~= entry_lines(entries@.take(i as int)).push(line@));
        assert(string_views(parts@) =~= before.push(line@));
        i += 1;
    }
    if shown == max_entries {
        let ghost before = string_views(parts@);
        parts.push(owned("... output truncated ..."));
        assert(string_views(parts@) =~= before.push("... output truncated ..."@));
    }
    join_strings(parts.as_slice(), "\n")
}

/// A directory entry as read from the file system, with the entries below
/// it where it is a directory (as deep as the walk goes).
#[derive(Debug)]
pub struct DirNode {
    pub name: String,
    pub is_dir: bool,
    pub children: Vec<DirNode>,
}

/// Names that start with a dot are hidden.
pub open spec fn shown_name(name: Seq<char>) -> bool {
    name.len() == 0 || name[0] != '.'
}

/// The entries whose names are shown, in their order.
pub open spec fn visible_nodes(s: Seq<DirNode>) -> Seq<DirNode>
    decreases s.len(),
{
    if s.len() == 0 {
        Seq::empty()
    } else if shown_name(s.last().name@) {
        visible_nodes(s.drop_last()).push(s.last())
    } else {
        visible_nodes(s.drop_last())
    }
}

pub open spec fn name_before(a: DirNode, b: DirNode) -> bool {
    lex_order(a.name@, b.name@) == IdOrder::Less
}

/// `x` put into `s` before the first entry whose name comes after its own.
pub open spec fn insert_by_name(s: Seq<DirNode>, x: DirNode) -> Seq<DirNode>
    decreases s.len(),
{
    if s.len() == 0 {
        seq![x]
    } else if name_before(x, s[0]) {
        seq![x] + s
    } else {
        seq![s[0]] + insert_by_name(s.drop_first(), x)
    }
}

/// The entries ordered by name; entries with equal names keep their order.
pub open spec fn sort_by_name(s: Seq<DirNode>) -> Seq<DirNode>
    decreases s.len(),
{
    if s.len() == 0 {
        Seq::empty()
    } else {
        insert_by_name(sort_by_name(s.drop_last()), s.last())
    }
}

/// The entries of a directory as listed: hidden ones left out, by name.
pub open spec fn listing(s: Seq<DirNode>) -> Seq<DirNode> {
    sort_by_name(visible_nodes(s))
}

/// The lines of a walk over `list` at `depth`: each entry, then (for a
/// directory) the listing of its entries one level deeper; nothing at or
/// below `max_depth`.
pub open spec fn walk_lines(list: Seq<DirNode>, depth: nat, max_depth: nat) -> Seq<Seq<char>>
    decreases max_depth - depth, list.len(),
{
    if depth >= max_depth || list.len() == 0 {
        Seq::empty()
    } else {
        let d = list[0];
        seq![entry_line(depth, d.name@, d.is_dir)] + (if d.is_dir {
            walk_lines(listing(d.children@), depth + 1, max_depth)
        } else {
            Seq::empty()
        }) + walk_lines(list.drop_first(), depth, max_depth)
    }
}

/// The tree text for the lines of a walk, cut after `max_entries`.
pub open spec fn tree_text_of_lines(root: Seq<char>, lines: Seq<Seq<char>>, max_entries: nat) -> Seq<char> {
    let shown = if lines.len() < max_entries {
        lines.len()
    } else {
        max_entries
    };
    let body = seq!["Workspace: "@ + root] + lines.take(shown as int);
    join(
        if shown == max_entries {
            body.push("... output truncated ..."@)
        } else {
            body
        },
        "\n"@,
    )
}

fn visible_of(nodes: Vec<DirNode>) -> (r: Vec<DirNode>)
    ensures
        r@ == visible_nodes(nodes@),
{
    let ghost orig = nodes@;
    let n = nodes.len();
    let mut rest = nodes;
    let mut kept: Vec<DirNode> = Vec::new();
    let mut k: usize = 0;
    assert(orig.take(0) =~= Seq::<DirNode>::empty());
    while rest.len() > 0
        invariant
            k + rest@.len() == orig.len(),
            orig.len() == n,
            rest@ == orig.skip(k as int),
            kept@ == visible_nodes(orig.take(k as int)),
        decreases rest@.len(),
    {
        let d = rest.remove(0);
        assert(d == orig[k as int]);
        assert(orig.take(k + 1).drop_last() =~= orig.take(k as int));
        assert(orig.take(k + 1).last() == d);
        let name = to_chars(d.name.as_str());
        if name.len() == 0 || name[0] != '.' {
            kept.push(d);
        }
        k += 1;
        assert(rest@ =~= orig.skip(k as int));
    }
    assert(orig.take(k as int) =~= orig);
    kept
}

proof fn lemma_insert_at(s: Seq<DirNode>, x: DirNode, p: int)
    requires
        0 <= p <= s.len(),
        forall|k: int| 0 <= k < p ==> !name_before(x, #[trigger] s[k]),
        p < s.len() ==> name_before(x, s[p]),
    ensures
        insert_by_name(s, x) == s.take(p) + seq![x] + s.skip(p),
    decreases p,
{
    if s.len() == 0 {
        assert(s.take(p) + seq![x] + s.skip(p) =~= seq![x]);
    } else if p == 0 {
        assert(s.take(p) + seq![x] + s.skip(p) =~= seq![x] + s);
    } else {
        let t = s.drop_first();
        assert forall|k: int| 0 <= k < p - 1 implies !name_before(x, #[trigger] t[k]) by {
            assert(t[k] == s[k + 1]);
        }
        if p - 1 < t.len() {
            assert(t[p - 1] == s[p]);
        }
        lemma_insert_at(t, x, p - 1);
        assert(seq![s[0]] + (t.take(p - 1) + seq![x] + t.skip(p - 1)) =~= s.take(p) + seq![x] + s.skip(p));
    }
}

fn sorted_by_name(nodes: Vec<DirNode>) -> (r: Vec<DirNode>)
    ensures
        r@ == sort_by_name(nodes@),
{
    let ghost orig = nodes@;
    let n = nodes.len();
    let mut rest = nodes;
    let mut out: Vec<DirNode> = Vec::new();
    let mut k: usize = 0;
    assert(orig.take(0) =~= Seq::<DirNode>::empty());
    while rest.len() > 0
        invariant
            k + rest@.len() == orig.len(),
            orig.len() == n,
            rest@ == orig.skip(k as int),
            out@ == sort_by_name(orig.take(k as int)),
        decreases rest@.len(),
    {
        let x = rest.remove(0);
        assert(x == orig[k as int]);
        assert(orig.take(k + 1).drop_last() =~= orig.take(k as int));
        assert(orig.take(k + 1).last() == x);
        let xn = to_chars(x.name.as_str());
        let mut p: usize = 0;
        let mut stop = false;
        while p < out.len() && !stop
            invariant
                p <= out@.len(),
                xn@ == x.name@,
                forall|j: int| 0 <= j < p ==> !name_before(x, #[trigger] out@[j]),
                stop ==> p < out@.len() && name_before(x, out@[p as int]),
            decreases out@.len() - p, if stop { 0int } else { 1int },
        {
            let on = to_chars(out[p].name.as_str());
            match lex_compare(xn.as_slice(), on.as_slice()) {
                IdOrder::Less => {
                    stop = true;
                },
                _ => {
                    p += 1;
                },
            }
        }
        proof {
            lemma_insert_at(out@, x, p as int);
        }
        let ghost before = out@;
        out.insert(p, x);
        assert(out@ =~= before.take(p as int) + seq![x] + before.skip(p as int));
        k += 1;
        assert(rest@ =~= orig.skip(k as int));
    }
    assert(orig.take(k as int) =~= orig);
    out
}

fn walk_into(list: Vec<DirNode>, depth: usize, max_depth: usize, out: &mut Vec<TreeEntry>)
    ensures
        entry_lines(final(out)@) == entry_lines(old(out)@) + walk_lines(list@, depth as nat, max_depth as nat),
    decreases max_depth - depth,
{
    let ghost start = entry_lines(out@);
    if depth >= max_depth {
        assert(entry_lines(out@) =~= start + walk_lines(list@, depth as nat, max_depth as nat));
        return;
    }
    let ghost orig = list@;
    let mut rest = list;
    assert(start + Seq::<Seq<char>>::empty() =~= start);
    while rest.len() > 0
        invariant
            depth < max_depth,
            entry_lines(out@) + walk_lines(rest@, depth as nat, max_depth as nat) == start + walk_lines(
                orig,
                depth as nat,
                max_depth as nat,
            ),
        decreases rest@.len(),
    {
        let ghost rest_before = rest@;
        let ghost before = entry_lines(out@);
        let d = rest.remove(0);
        assert(rest@ =~= rest_before.drop_first());
        let ghost line = entry_line(depth as nat, d.name@, d.is_dir);
        let ghost below = if d.is_dir {
            walk_lines(listing(d.children@), (depth + 1) as nat, max_depth as nat)
        } else {
            Seq::<Seq<char>>::empty()
        };
        assert(walk_lines(rest_before, depth as nat, max_depth as nat) == seq![line] + below + walk_lines(
            rest@,
            depth as nat,
            max_depth as nat,
        ));
        let DirNode { name, is_dir, children } = d;
        let ghost before_push = out@;
        out.push(TreeEntry { depth, name, is_dir });
        assert(entry_lines(out@) =~= before.push(line));
        if is_dir {
            let listed = sorted_by_name(visible_of(children));
            walk_into(listed, depth + 1, max_depth, out);
        }
        assert(entry_lines(out@) =~= before + seq![line] + below);
        assert(before + walk_lines(rest_before, depth as nat, max_depth as nat) =~= entry_lines(out@)
            + walk_lines(rest@, depth as nat, max_depth as nat));
    }
    assert(entry_lines(out@) + walk_lines(rest@, depth as nat, max_depth as nat) =~= entry_lines(out@));
}

/// The tree text of the directory shown as `root`, whose entries are
/// `nodes`: entries whose names start with a dot are hidden, each
/// directory is listed by name, entries go `max_depth` levels deep, and at
/// most `max_entries` are shown.
pub fn summarize_tree(root: &str, nodes: Vec<DirNode>, max_depth: usize, max_entries: usize) -> (r: String)
    ensures
        r@ == tree_text_of_lines(root@, walk_lines(listing(nodes@), 0, max_depth as nat), max_entries as nat),
{
    let listed = sorted_by_name(visible_of(nodes));
    let mut entries: Vec<TreeEntry> = Vec::new();
    walk_into(listed, 0, max_depth, &mut entries);
    assert(entry_lines(entries@) =~= Seq::<Seq<char>>::empty() + walk_lines(
        listing(nodes@),
        0,
        max_depth as nat,
    ));
    let r = summarize_directory(root, &entries, max_entries);
    proof {
        let lines = entry_lines(entries@);
        let shown = if entries@.len() < max_entries {
            entries@.len()
        } else {
            max_entries as nat
        };
        assert(entry_lines(entries@.take(shown as int)) =~= lines.take(shown as int));
    }
    r
}

} // verus!
