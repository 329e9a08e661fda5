//! Small pieces of interface state: scrolling, remembered drafts and logs.
use vstd::prelude::*;

use crate::ids::views;
use crate::text::{owned, to_chars};

verus! {

/// The largest scroll offset that still shows the last line, within the
/// range of `u16`, and at most `scroll`.
pub open spec fn clamp_scroll_spec(line_count: nat, height: u16, scroll: u16) -> u16 {
    let inner: nat = if height >= 3 {
        (height - 2) as nat
    } else {
        1
    };
    let max_scroll: nat = if line_count >= inner {
        (line_count - inner) as nat
    } else {
        0
    };
    let capped: u16 = if max_scroll > u16::MAX {
        u16::MAX
    } else {
        max_scroll as u16
    };
    if capped <= scroll {
        capped
    } else {
        scroll
    }
}

pub fn clamp_scroll(line_count: usize, height: u16, scroll: u16) -> (r: u16)
    ensures
        r == clamp_scroll_spec(line_count as nat, height, scroll),
{
    let inner: usize = if height >= 3 {
        (height - 2) as usize
    } else {
        1
    };
    let max_scroll = if line_count >= inner {
        line_count - inner
    } else {
        0
    };
    let capped: u16 = if max_scroll > 65535 {
        u16::MAX
    } else {
        max_scroll as u16
    };
    if capped <= scroll {
        capped
    } else {
        scroll
    }
}

/// The scroll offset that keeps the selected line among `visible_lines`.
pub open spec fn selection_scroll_spec(selected: nat, scroll: u16, visible_lines: nat) -> u16 {
    if selected < scroll {
        selected as u16
    } else if selected >= scroll + visible_lines {
        (selected + 1 - visible_lines) as u16
    } else {
        scroll
    }
}

pub fn adjust_selection_scroll(selected: usize, scroll: u16, visible_lines: usize) -> (r: u16)
    requires
        scroll + visible_lines <= usize::MAX,
        selected < usize::MAX,
    ensures
        r == selection_scroll_spec(selected as nat, scroll, visible_lines as nat),
{
    if selected < scroll as usize {
        selected as u16
    } else if selected >= scroll as usize + visible_lines {
        (selected + 1 - visible_lines) as u16
    } else {
        scroll
    }
}

/// The most drafts that are remembered.
pub const MAX_REMEMBERED_DRAFTS: usize = 20;

/// The remembered drafts after remembering `draft`: it moves to the front,
/// appearing once, and at most twenty are kept.
pub open spec fn remembered(bucket: Seq<Seq<char>>, draft: Seq<char>) -> Seq<Seq<char>> {
    if draft.len() == 0 {
        bucket
    } else {
        let rest = if bucket.contains(draft) {
            bucket.remove(crate::branch::first_pos(bucket, draft))
        } else {
            bucket
        };
        let all = seq![draft] + rest;
        if all.len() > 20 {
            all.take(20)
        } else {
            all
        }
    }
}

pub fn remember_draft(bucket: &mut Vec<String>, draft: &str)
    ensures
        views(final(bucket)@) == remembered(views(old(bucket)@), draft@),
{
    let d = to_chars(draft);
    if d.len() == 0 {
        return;
    }
    let ghost b = views(bucket@);
    let key = owned(draft);
    match crate::ids::position_of(bucket.as_slice(), &key) {
        Some(i) => {
            proof {
                assert(b[i as int] == draft@);
                assert(b.contains(draft@));
                crate::branch::lemma_first_pos(b, draft@, i as int);
            }
            bucket.remove(i);
            assert(views(bucket@) =~= b.remove(i as int));
        },
        None => {
            proof {
                assert forall|k: int| 0 <= k < b.len() implies b[k] != draft@ by {}
            }
        },
    }
    let ghost rest = views(bucket@);
    bucket.insert(0, key);
    assert(views(bucket@) =~= seq![draft@] + rest);
    if bucket.len() > MAX_REMEMBERED_DRAFTS {
        bucket.truncate(MAX_REMEMBERED_DRAFTS);
        assert(views(bucket@) =~= (seq![draft@] + rest).take(20));
    }
}

/// The most lines that a task's activity log keeps.
pub const MAX_TASK_LOG_LINES: usize = 40;

/// Drops the oldest lines so that at most forty remain.
pub fn trim_task_log(log: &mut Vec<String>)
    ensures
        final(log)@ == if old(log)@.len() > 40 {
            old(log)@.skip(old(log)@.len() - 40)
        } else {
            old(log)@
        },
{
    if log.len() > MAX_TASK_LOG_LINES {
        let excess = log.len() - MAX_TASK_LOG_LINES;
        let ghost orig = log@;
        let mut kept: Vec<String> = Vec::new();
        let mut i = excess;
        while i < log.len()
            invariant
                excess <= i <= log@.len(),
                log@ == orig,
                kept@ == orig.subrange(excess as int, i as int),
            decreases log@.len() - i,
        {
            let s = log[i].clone();
            kept.push(s);
            i += 1;
            assert(kept@ =~= orig.subrange(excess as int, i as int));
        }
        *log = kept;
        assert(log@ =~= orig.skip(excess as int));
    }
}

/// The context size, in characters, assumed for every model.
pub fn estimated_max_context_chars(model: &str) -> (r: usize)
    ensures
        r == 1_000_000,
{
    1_000_000
}

} // verus!
