//! The slash-command menu that opens while the draft is a bare `/command`.
use vstd::prelude::*;

use crate::commands::{CommandInfo, command_table, commands, strip_slashes};
use crate::text::{
    utf8_len, utf8_length, chars_eq, contains, contains_char, contains_chars, has_ws, has_whitespace, lower, lower_vec,
    push_chars, push_str, slice_vec, starts_with, starts_with_chars, to_chars, trim_start,
    trim_start_index,
};

verus! {

/// A command offered by the menu.
#[derive(Debug, Clone)]
pub struct SlashMenuEntry {
    pub command: CommandInfo,
}

/// The command name typed so far: the draft after its leading white space
/// and a `/`, provided it holds no white space.
pub open spec fn current_query_spec(input: Seq<char>) -> Option<Seq<char>> {
    let t = trim_start(input);
    if t.len() > 0 && t[0] == '/' && !has_ws(t.drop_first()) {
        Some(t.drop_first())
    } else {
        None
    }
}

/// `c` is offered for the query `q`.
pub open spec fn query_matches(c: CommandInfo, q: Seq<char>) -> bool {
    let l = lower(q);
    ||| l.len() == 0
    ||| contains(c.name@, l)
    ||| starts_with(lower(strip_slashes(c.usage@)), l)
    ||| exists|k: int| 0 <= k < c.aliases@.len() && contains(lower(#[trigger] c.aliases@[k]@), l)
}

/// The commands of `t` offered for `q`, in order.
pub open spec fn offered(t: Seq<CommandInfo>, q: Seq<char>) -> Seq<CommandInfo>
    decreases t.len(),
{
    if t.len() == 0 {
        Seq::empty()
    } else if query_matches(t.last(), q) {
        offered(t.drop_last(), q).push(t.last())
    } else {
        offered(t.drop_last(), q)
    }
}

/// What `insertion_text` gives: `/name`, with a space when the command
/// takes arguments.
pub open spec fn insertion_spec(c: CommandInfo) -> Seq<char> {
    if c.usage@.contains('<') || c.usage@.contains('[') {
        seq!['/'] + c.name@ + seq![' ']
    } else {
        seq!['/'] + c.name@
    }
}

/// `c` is called `q`, ignoring ASCII case, by its name or an alias.
pub open spec fn exactly_named(c: CommandInfo, q: Seq<char>) -> bool {
    ||| lower(c.name@) == lower(q)
    ||| exists|k: int| 0 <= k < c.aliases@.len() && lower(#[trigger] c.aliases@[k]@) == lower(q)
}

pub open spec fn first_exact(t: Seq<CommandInfo>, q: Seq<char>) -> Option<CommandInfo>
    decreases t.len(),
{
    if t.len() == 0 {
        None
    } else if exactly_named(t[0], q) {
        Some(t[0])
    } else {
        first_exact(t.drop_first(), q)
    }
}

/// `p` cut back until `n` starts with it.
pub open spec fn shrink(p: Seq<char>, n: Seq<char>) -> Seq<char>
    decreases p.len(),
{
    if starts_with(n, p) || p.len() == 0 {
        p
    } else {
        shrink(p.drop_last(), n)
    }
}

/// The longest common prefix of the names, cut down name by name.
pub open spec fn common_prefix(names: Seq<Seq<char>>) -> Seq<char>
    decreases names.len(),
{
    if names.len() == 0 {
        Seq::empty()
    } else if names.len() == 1 {
        names[0]
    } else {
        shrink(common_prefix(names.drop_last()), names.last())
    }
}

pub open spec fn entry_names(es: Seq<CommandInfo>) -> Seq<Seq<char>> {
    es.map_values(|c: CommandInfo| c.name@)
}

/// What `autocomplete_input` gives for `input`.
pub open spec fn autocomplete_spec(input: Seq<char>) -> Option<Seq<char>> {
    match current_query_spec(input) {
        None => None,
        Some(q) => {
            let es = offered(command_table(), q);
            if es.len() == 0 {
                None
            } else {
                match first_exact(es, q) {
                    Some(c) => Some(insertion_spec(c)),
                    None => if es.len() == 1 {
                        Some(insertion_spec(es[0]))
                    } else {
                        let p = common_prefix(entry_names(es));
                        if utf8_len(p) > utf8_len(q) {
                            Some(seq!['/'] + p)
                        } else {
                            None
                        }
                    },
                }
            }
        },
    }
}

impl SlashMenuEntry {
    /// The text that choosing this entry puts in the draft.
    pub fn insertion_text(&self) -> (r: String)
        ensures
            r@ == insertion_spec(self.command),
    {
        let usage = to_chars(self.command.usage);
        let mut out = String::new();
        crate::text::push_char(&mut out, '/');
        push_str(&mut out, self.command.name);
        if contains_char(&usage, '<') || contains_char(&usage, '[') {
            crate::text::push_char(&mut out, ' ');
        }
        assert(out@ =~= insertion_spec(self.command));
        out
    }
}

/// The command name typed so far.
fn current_query(input: &[char]) -> (r: Option<Vec<char>>)
    ensures
        match r {
            Some(q) => current_query_spec(input@) == Some(q@),
            None => current_query_spec(input@) is None,
        },
{
    let (start, _) = trim_start_index(input);
    let t = slice_vec(input, start, input.len());
    assert(t@ == input@.skip(start as int));
    if t.len() == 0 || t[0] != '/' {
        return None;
    }
    let c = slice_vec(&t, 1, t.len());
    assert(c@ == t@.drop_first());
    if has_whitespace(&c) {
        return None;
    }
    Some(c)
}

/// Whether `c` is offered for the query `q`.
fn matches_query(c: &CommandInfo, q: &[char]) -> (r: bool)
    ensures
        r == query_matches(*c, q@),
{
    let l = lower_vec(q);
    if l.len() == 0 || contains_chars(&to_chars(c.name), &l) {
        return true;
    }
    let usage = to_chars(c.usage);
    let mut s: usize = 0;
    assert(usage@.skip(0) == usage@);
    while s < usage.len() && usage[s] == '/'
        invariant
            s <= usage@.len(),
            strip_slashes(usage@) == strip_slashes(usage@.skip(s as int)),
        decreases usage@.len() - s,
    {
        assert(usage@.skip(s as int).drop_first() == usage@.skip(s + 1));
        s += 1;
    }
    let stripped = slice_vec(&usage, s, usage.len());
    assert(stripped@ == usage@.skip(s as int));
    if starts_with_chars(&lower_vec(&stripped), &l) {
        return true;
    }
    let mut k: usize = 0;
    while k < c.aliases.len()
        invariant
            k <= c.aliases@.len(),
            l@ == lower(q@),
            forall|j: int| 0 <= j < k ==> !contains(lower(#[trigger] c.aliases@[j]@), l@),
        decreases c.aliases@.len() - k,
    {
        if contains_chars(&lower_vec(&to_chars(c.aliases[k])), &l) {
            return true;
        }
        k += 1;
    }
    false
}

fn entries_for(q: &[char]) -> (r: Vec<SlashMenuEntry>)
    ensures
        r@.map_values(|e: SlashMenuEntry| e.command) == offered(command_table(), q@),
{
    let table = commands();
    let mut r: Vec<SlashMenuEntry> = Vec::new();
    let mut i: usize = 0;
    while i < table.len()
        invariant
            table@ == command_table(),
            i <= table@.len(),
            r@.map_values(|e: SlashMenuEntry| e.command) == offered(table@.take(i as int), q@),
        decreases table@.len() - i,
    {
        assert(table@.take(i + 1).drop_last() == table@.take(i as int));
        assert(table@.take(i + 1).last() == table@[i as int]);
        if matches_query(&table[i], q) {
            let ghost before = r@;
            r.push(SlashMenuEntry { command: table[i] });
            assert(r@.map_values(|e: SlashMenuEntry| e.command) =~= before.map_values(
                |e: SlashMenuEntry| e.command,
            ).push(table@[i as int]));
        }
        i += 1;
    }
    assert(table@.take(table@.len() as int) == table@);
    r
}

/// The commands that the menu offers for the draft `input`; none when the
/// draft is not a bare `/command`.
pub fn visible_entries(input: &str) -> (r: Vec<SlashMenuEntry>)
    ensures
        r@.map_values(|e: SlashMenuEntry| e.command) == match current_query_spec(input@) {
            Some(q) => offered(command_table(), q),
            None => Seq::empty(),
        },
{
    match current_query(&to_chars(input)) {
        Some(q) => entries_for(&q),
        None => {
            let r: Vec<SlashMenuEntry> = Vec::new();
            assert(r@.map_values(|e: SlashMenuEntry| e.command) =~= Seq::<CommandInfo>::empty());
            r
        },
    }
}

/// Whether the draft is a bare `/command`, so that the menu is open.
pub fn is_active(input: &str) -> (r: bool)
    ensures
        r == current_query_spec(input@) is Some,
{
    current_query(&to_chars(input)).is_some()
}

fn is_exact(c: &CommandInfo, q: &[char]) -> (r: bool)
    ensures
        r == exactly_named(*c, q@),
{
    let lq = lower_vec(q);
    if chars_eq(&lower_vec(&to_chars(c.name)), &lq) {
        return true;
    }
    let mut k: usize = 0;
    while k < c.aliases.len()
        invariant
            k <= c.aliases@.len(),
            lq@ == lower(q@),
            forall|j: int| 0 <= j < k ==> lower(#[trigger] c.aliases@[j]@) != lower(q@),
        decreases c.aliases@.len() - k,
    {
        if chars_eq(&lower_vec(&to_chars(c.aliases[k])), &lq) {
            return true;
        }
        k += 1;
    }
    false
}

/// `p` cut back until `n` starts with it.
fn shrink_prefix(p: Vec<char>, n: &[char]) -> (r: Vec<char>)
    ensures
        r@ == shrink(p@, n@),
{
    let ghost orig = p@;
    let mut p = p;
    while !starts_with_chars(n, &p) && p.len() > 0
        invariant
            shrink(p@, n@) == shrink(orig, n@),
        decreases p@.len(),
    {
        let ghost before = p@;
        p.pop();
        assert(p@ == before.drop_last());
    }
    p
}

/// Completes the draft `input`: to the command typed exactly, the only
/// command offered, or the longest prefix that all offered names share.
pub fn autocomplete_input(input: &str) -> (r: Option<String>)
    ensures
        match r {
            Some(s) => autocomplete_spec(input@) == Some(s@),
            None => autocomplete_spec(input@) is None,
        },
{
    let chars = to_chars(input);
    let q = match current_query(&chars) {
        Some(q) => q,
        None => {
            return None;
        },
    };
    let entries = entries_for(&q);
    let ghost es = entries@.map_values(|e: SlashMenuEntry| e.command);
    if entries.len() == 0 {
        return None;
    }
    let mut i: usize = 0;
    assert(es.skip(0) == es);
    while i < entries.len()
        invariant
            i <= entries@.len(),
            es == entries@.map_values(|e: SlashMenuEntry| e.command),
            es == offered(command_table(), q@),
            current_query_spec(input@) == Some(q@),
            entries@.len() > 0,
            first_exact(es, q@) == first_exact(es.skip(i as int), q@),
        decreases entries@.len() - i,
    {
        assert(es.skip(i as int)[0] == entries@[i as int].command);
        if is_exact(&entries[i].command, &q) {
            assert(first_exact(es.skip(i as int), q@) == Some(es.skip(i as int)[0]));
            return Some(entries[i].insertion_text());
        }
        assert(es.skip(i as int).drop_first() == es.skip(i + 1));
        i += 1;
    }
    assert(es.skip(i as int) =~= Seq::<CommandInfo>::empty());
    if entries.len() == 1 {
        return Some(entries[0].insertion_text());
    }
    let mut prefix = to_chars(entries[0].command.name);
    let mut k: usize = 1;
    assert(entry_names(es).take(1) =~= seq![entry_names(es)[0]]);
    while k < entries.len()
        invariant
            1 <= k <= entries@.len(),
            es == entries@.map_values(|e: SlashMenuEntry| e.command),
            es == offered(command_table(), q@),
            current_query_spec(input@) == Some(q@),
            first_exact(es, q@) is None,
            prefix@ == common_prefix(entry_names(es).take(k as int)),
        decreases entries@.len() - k,
    {
        assert(entry_names(es).take(k + 1).drop_last() == entry_names(es).take(k as int));
        let name = to_chars(entries[k].command.name);
        prefix = shrink_prefix(prefix, &name);
        k += 1;
    }
    assert(entry_names(es).take(k as int) == entry_names(es));
    proof {
        lemma_common_prefix_len(entry_names(es));
    }
    if utf8_length(&prefix) > utf8_length(&q) {
        let mut out = String::new();
        crate::text::push_char(&mut out, '/');
        push_chars(&mut out, &prefix);
        assert(out@ =~= seq!['/'] + prefix@);
        Some(out)
    } else {
        None
    }
}

proof fn lemma_shrink_len(p: Seq<char>, n: Seq<char>)
    ensures
        shrink(p, n).len() <= p.len(),
    decreases p.len(),
{
    if !(starts_with(n, p) || p.len() == 0) {
        lemma_shrink_len(p.drop_last(), n);
    }
}

proof fn lemma_common_prefix_len(names: Seq<Seq<char>>)
    requires
        names.len() > 0,
    ensures
        common_prefix(names).len() <= names[0].len(),
    decreases names.len(),
{
    if names.len() > 1 {
        lemma_common_prefix_len(names.drop_last());
        lemma_shrink_len(common_prefix(names.drop_last()), names.last());
    }
}

} // verus!
