//! Short texts made from longer ones: transcript summaries, truncated
//! outputs and the first lines of diagnostics.
use vstd::prelude::*;

use crate::protocol::{ChatMessage, Role};
use crate::text::{
    from_chars, join, join_strings, lines, owned, push_chars, push_str, slice_vec, split_lines,
    split_words, string_views, to_chars, trim_end, trim_end_vec, words,
};

verus! {

/// The first `limit` characters of `s`, or all of them.
pub open spec fn prefix_chars(s: Seq<char>, limit: nat) -> Seq<char> {
    if s.len() <= limit {
        s
    } else {
        s.take(limit as int)
    }
}

/// The words of `content` joined by single spaces and cut to `limit`
/// characters, with `...` where cut; `(empty)` for no text.
pub open spec fn summary_of(content: Seq<char>, limit: nat) -> Seq<char> {
    let collapsed = join(words(content), " "@);
    let shortened = prefix_chars(collapsed, limit) + if collapsed.len() > limit {
        "..."@
    } else {
        Seq::empty()
    };
    if shortened.len() == 0 {
        "(empty)"@
    } else {
        shortened
    }
}

pub fn truncate_for_summary(content: &str, limit: usize) -> (r: String)
    ensures
        r@ == summary_of(content@, limit as nat),
{
    let words = split_words(&to_chars(content));
    let collapsed = to_chars(join_strings(words.as_slice(), " ").as_str());
    let n = if collapsed.len() <= limit {
        collapsed.len()
    } else {
        limit
    };
    let mut shortened = from_chars(&slice_vec(&collapsed, 0, n));
    assert(collapsed@.subrange(0, n as int) == prefix_chars(collapsed@, limit as nat));
    if collapsed.len() > limit {
        push_str(&mut shortened, "...");
    }
    if to_chars(shortened.as_str()).len() == 0 {
        owned("(empty)")
    } else {
        shortened
    }
}

/// The first `limit` characters of `content`, with a note where cut.
pub open spec fn output_summary_of(content: Seq<char>, limit: nat) -> Seq<char> {
    prefix_chars(content, limit) + if content.len() > limit {
        "\n\n... output truncated ..."@
    } else {
        Seq::empty()
    }
}

pub fn truncate_for_summary_output(content: &str, limit: usize) -> (r: String)
    ensures
        r@ == output_summary_of(content@, limit as nat),
{
    let chars = to_chars(content);
    let n = if chars.len() <= limit {
        chars.len()
    } else {
        limit
    };
    let mut shortened = from_chars(&slice_vec(&chars, 0, n));
    assert(chars@.subrange(0, n as int) == prefix_chars(chars@, limit as nat));
    if chars.len() > limit {
        push_str(&mut shortened, "\n\n... output truncated ...");
    }
    shortened
}

/// The lines without trailing white space that are not empty.
pub open spec fn nonblank_lines(ls: Seq<Seq<char>>) -> Seq<Seq<char>>
    decreases ls.len(),
{
    if ls.len() == 0 {
        Seq::empty()
    } else if trim_end(ls.last()).len() > 0 {
        nonblank_lines(ls.drop_last()).push(trim_end(ls.last()))
    } else {
        nonblank_lines(ls.drop_last())
    }
}

/// The first `max_lines` lines of `content` that are not blank, without
/// trailing white space, or a note that there was no output.
pub open spec fn first_lines_of(content: Seq<char>, max_lines: nat) -> Seq<char> {
    let ls = nonblank_lines(lines(content));
    let kept = if ls.len() <= max_lines {
        ls
    } else {
        ls.take(max_lines as int)
    };
    if kept.len() == 0 {
        "No diagnostics output."@
    } else {
        join(kept, "\n"@)
    }
}

pub fn first_non_empty_lines(content: &str, max_lines: usize) -> (r: String)
    ensures
        r@ == first_lines_of(content@, max_lines as nat),
{
    let all = split_lines(content);
    let ghost ls = all@.map_values(|l: Vec<char>| l@);
    let mut kept: Vec<String> = Vec::new();
    let mut i: usize = 0;
    while i < all.len()
        invariant
            i <= all@.len(),
            ls == all@.map_values(|l: Vec<char>| l@),
            string_views(kept@) == nonblank_lines(ls.take(i as int)),
        decreases all@.len() - i,
    {
        assert(ls.take(i + 1).drop_last() =~= ls.take(i as int));
        assert(ls.take(i + 1).last() == all@[i as int]@);
        let t = trim_end_vec(all[i].as_slice());
        if t.len() > 0 {
            let ghost before = kept@;
            kept.push(from_chars(&t));
            assert(string_views(kept@) =~= string_views(before).push(t@));
        }
        i += 1;
    }
    assert(ls.take(i as int) =~= ls);
    let ghost nb = string_views(kept@);
    if kept.len() > max_lines {
        kept.truncate(max_lines);
        assert(string_views(kept@) =~= nb.take(max_lines as int));
    }
    if kept.len() == 0 {
        owned("No diagnostics output.")
    } else {
        join_strings(kept.as_slice(), "\n")
    }
}

/// How a role is named in a summary.
pub open spec fn role_word(role: Role) -> Seq<char> {
    match role {
        Role::System => "System"@,
        Role::User => "You"@,
        Role::Assistant => "MiMo"@,
        Role::Tool => "Tool"@,
    }
}

/// One summary line per message.
pub open spec fn summary_lines(ms: Seq<ChatMessage>) -> Seq<char>
    decreases ms.len(),
{
    if ms.len() == 0 {
        Seq::empty()
    } else {
        summary_lines(ms.drop_last()) + "- "@ + role_word(ms.last().role) + ": "@ + summary_of(
            ms.last().content@,
            220,
        ) + "\n"@
    }
}

/// The summary that replaces compacted messages.
pub open spec fn compacted_summary_of(ms: Seq<ChatMessage>) -> Seq<char> {
    trim_end("Conversation summary (compacted)\n\n"@ + summary_lines(ms))
}

pub fn compacted_summary(messages: &[ChatMessage]) -> (r: String)
    ensures
        r@ == compacted_summary_of(messages@),
{
    let mut output = owned("Conversation summary (compacted)\n\n");
    let ghost head = output@;
    let mut i: usize = 0;
    while i < messages.len()
        invariant
            i <= messages@.len(),
            head == "Conversation summary (compacted)\n\n"@,
            output@ == head + summary_lines(messages@.take(i as int)),
        decreases messages@.len() - i,
    {
        assert(messages@.take(i + 1).drop_last() =~= messages@.take(i as int));
        assert(messages@.take(i + 1).last() == messages@[i as int]);
        let role = match messages[i].role {
            Role::System => "System",
            Role::User => "You",
            Role::Assistant => "MiMo",
            Role::Tool => "Tool",
        };
        push_str(&mut output, "- ");
        push_str(&mut output, role);
        push_str(&mut output, ": ");
        let short = truncate_for_summary(messages[i].content.as_str(), 220);
        push_str(&mut output, short.as_str());
        push_str(&mut output, "\n");
        i += 1;
    }
    assert(messages@.take(i as int) =~= messages@);
    from_chars(&trim_end_vec(&to_chars(output.as_str())))
}

/// The first `limit` characters of `value`, with `...` where it was
/// longer.
pub fn truncate_chars(value: &str, limit: usize) -> (r: String)
    ensures
        r@ == prefix_chars(value@, limit as nat) + if value@.len() > limit {
            "..."@
        } else {
            Seq::empty()
        },
{
    let chars = to_chars(value);
    let n = if chars.len() <= limit {
        chars.len()
    } else {
        limit
    };
    let mut out = from_chars(&slice_vec(&chars, 0, n));
    assert(chars@.subrange(0, n as int) == prefix_chars(chars@, limit as nat));
    if chars.len() > limit {
        push_str(&mut out, "...");
    }
    out
}

} // verus!
