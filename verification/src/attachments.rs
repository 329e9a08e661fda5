//! Attaching workspace files to a prompt: the `@path` token being typed,
//! how candidates are scored and ranked, and the texts that describe what
//! is attached.
use vstd::prelude::*;

use crate::input::{InputBuffer, replace_range_spec, token_end, token_start};
use crate::models::FileAttachment;
use crate::protocol::ChatMessage;
use crate::text::{
    decimal, from_chars, join, owned, push_str, slice_vec, starts_with, starts_with_chars,
    to_chars, to_lowercase, trim, trim_str, unicode_lower, usize_to_string,
};

verus! {

#[derive(Debug, Clone, Copy, PartialEq, Eq, Structural)]
pub enum AttachmentEntryKind {
    File,
    Directory,
}

impl AttachmentEntryKind {
    pub fn label(self) -> (r: &'static str)
        ensures
            r@ == match self {
                AttachmentEntryKind::File => "file"@,
                AttachmentEntryKind::Directory => "dir"@,
            },
    {
        match self {
            AttachmentEntryKind::File => "file",
            AttachmentEntryKind::Directory => "dir",
        }
    }

    pub fn preview_label(self) -> (r: &'static str)
        ensures
            r@ == match self {
                AttachmentEntryKind::File => "file"@,
                AttachmentEntryKind::Directory => "directory"@,
            },
    {
        match self {
            AttachmentEntryKind::File => "file",
            AttachmentEntryKind::Directory => "directory",
        }
    }
}

/// The `@path` token around the cursor: its character range and the text
/// after the `@`.
#[derive(Debug, Clone, PartialEq, Eq)]
pub struct AttachmentQuery {
    pub token_start: usize,
    pub token_end: usize,
    pub raw: String,
}

/// The characters `start..end` of `s`, as many as there are.
pub open spec fn char_slice(s: Seq<char>, start: nat, end: nat) -> Seq<char> {
    let a = if start <= s.len() {
        start
    } else {
        s.len()
    };
    let n: nat = if end >= start {
        (end - start) as nat
    } else {
        0
    };
    let b = if a + n <= s.len() {
        a + n
    } else {
        s.len()
    };
    s.subrange(a as int, b as int)
}

pub fn slice_chars(value: &str, start: usize, end: usize) -> (r: String)
    ensures
        r@ == char_slice(value@, start as nat, end as nat),
{
    let chars = to_chars(value);
    let a = if start <= chars.len() {
        start
    } else {
        chars.len()
    };
    let n = if end >= start {
        end - start
    } else {
        0
    };
    let b = if n <= chars.len() - a {
        a + n
    } else {
        chars.len()
    };
    from_chars(&slice_vec(&chars, a, b))
}

/// The token around the cursor when it starts with `@`.
pub open spec fn attachment_query_spec(text: Seq<char>, cursor: nat) -> Option<(nat, nat, Seq<char>)> {
    let s = token_start(text, cursor as int);
    let e = token_end(text, cursor as int);
    let token = char_slice(text, s, e);
    if s == e || token.len() == 0 || token[0] != '@' {
        None
    } else {
        Some((s, e, token.drop_first()))
    }
}

impl AttachmentQuery {
    pub fn from_input(input: &InputBuffer) -> (r: Option<AttachmentQuery>)
        ensures
            match r {
                Some(q) => attachment_query_spec(input@.text, input@.cursor) == Some(
                    (q.token_start as nat, q.token_end as nat, q.raw@),
                ),
                None => attachment_query_spec(input@.text, input@.cursor) is None,
            },
    {
        let (token_start, token_end) = input.current_token_bounds();
        if token_start == token_end {
            return None;
        }
        let token = to_chars(slice_chars(input.as_str(), token_start, token_end).as_str());
        if token.len() == 0 || token[0] != '@' {
            return None;
        }
        let raw = from_chars(&slice_vec(&token, 1, token.len()));
        assert(token@.subrange(1, token@.len() as int) =~= token@.drop_first());
        Some(AttachmentQuery { token_start, token_end, raw })
    }
}

pub fn current_attachment_query(input: &InputBuffer) -> (r: Option<AttachmentQuery>)
    ensures
        match r {
            Some(q) => attachment_query_spec(input@.text, input@.cursor) == Some(
                (q.token_start as nat, q.token_end as nat, q.raw@),
            ),
            None => attachment_query_spec(input@.text, input@.cursor) is None,
        },
{
    AttachmentQuery::from_input(input)
}

/// A candidate file or directory for an attachment.
#[derive(Debug, Clone, PartialEq, Eq)]
pub struct AttachmentSuggestion {
    pub display_path: String,
    pub resolved_path: String,
    pub kind: AttachmentEntryKind,
    pub score: i64,
}

/// What the picker shows about the selected candidate.
#[derive(Debug, Clone, PartialEq, Eq)]
pub struct AttachmentPreview {
    pub metadata: Vec<String>,
    pub lines: Vec<String>,
    pub note: Option<String>,
}

/// The attachment picker.
#[derive(Debug, Clone)]
pub struct AttachmentPickerState {
    pub query: Option<AttachmentQuery>,
    pub dismissed_query: Option<AttachmentQuery>,
    pub open: bool,
    pub selected: usize,
    pub scroll: u16,
    pub suggestions: Vec<AttachmentSuggestion>,
    pub preview: Option<AttachmentPreview>,
    pub status: Option<String>,
}

impl AttachmentPickerState {
    pub fn is_visible(&self) -> (r: bool)
        ensures
            r == (self.open && self.query is Some),
    {
        self.open && self.query.is_some()
    }

    pub fn selected_suggestion(&self) -> (r: Option<&AttachmentSuggestion>)
        ensures
            match r {
                Some(s) => self.selected < self.suggestions@.len() && *s == self.suggestions@[self.selected as int],
                None => self.selected >= self.suggestions@.len(),
            },
    {
        if self.selected < self.suggestions.len() {
            Some(&self.suggestions[self.selected])
        } else {
            None
        }
    }

    /// Keeps the selection on an existing candidate, or at the top.
    pub fn clamp_selected(&mut self)
        ensures
            final(self).suggestions == old(self).suggestions,
            old(self).suggestions@.len() == 0 ==> final(self).selected == 0 && final(self).scroll == 0,
            old(self).suggestions@.len() > 0 ==> final(self).scroll == old(self).scroll
                && final(self).selected == if old(self).selected < old(self).suggestions@.len() {
                old(self).selected
            } else {
                (old(self).suggestions@.len() - 1) as usize
            },
    {
        if self.suggestions.len() == 0 {
            self.selected = 0;
            self.scroll = 0;
            return;
        }
        let last = self.suggestions.len() - 1;
        if self.selected > last {
            self.selected = last;
        }
    }
}

/// Removes the most recent attachment.
pub fn pop_last_attachment(attachments: &mut Vec<FileAttachment>) -> (r: Option<FileAttachment>)
    ensures
        old(attachments)@.len() == 0 ==> r is None && final(attachments)@ == old(attachments)@,
        old(attachments)@.len() > 0 ==> r == Some(old(attachments)@.last()) && final(attachments)@
            == old(attachments)@.drop_last(),
{
    attachments.pop()
}

pub open spec fn attachment_paths(a: Seq<FileAttachment>) -> Seq<Seq<char>> {
    a.map_values(|x: FileAttachment| x.path@)
}

/// The attachment line under the draft: up to three paths, then how many
/// more there are.
pub open spec fn attachment_preview_spec(a: Seq<FileAttachment>) -> Seq<char> {
    if a.len() == 0 {
        "No attachments"@
    } else {
        join(attachment_paths(if a.len() > 3 { a.take(3) } else { a }), ", "@) + if a.len() > 3 {
            " (+"@ + decimal((a.len() - 3) as nat) + " more)"@
        } else {
            Seq::empty()
        }
    }
}

pub fn attachment_preview(attachments: &[FileAttachment]) -> (r: String)
    ensures
        r@ == attachment_preview_spec(attachments@),
{
    if attachments.len() == 0 {
        return owned("No attachments");
    }
    let n = if attachments.len() > 3 {
        3
    } else {
        attachments.len()
    };
    let mut paths: Vec<String> = Vec::new();
    let mut i: usize = 0;
    while i < n
        invariant
            i <= n <= attachments@.len(),
            crate::text::string_views(paths@) == attachment_paths(attachments@.take(i as int)),
        decreases n - i,
    {
        let ghost before = paths@;
        let p = attachments[i].path.clone();
        paths.push(p);
        assert(crate::text::string_views(paths@) =~= crate::text::string_views(before).push(attachments@[i as int].path@));
        assert(attachment_paths(attachments@.take(i + 1)) =~= attachment_paths(attachments@.take(i as int)).push(
            attachments@[i as int].path@,
        ));
        i += 1;
    }
    assert(attachments@.len() <= 3 ==> attachments@.take(n as int) =~= attachments@);
    let mut preview = crate::text::join_strings(paths.as_slice(), ", ");
    if attachments.len() > 3 {
        push_str(&mut preview, " (+");
        let more = usize_to_string(attachments.len() - 3);
        push_str(&mut preview, more.as_str());
        push_str(&mut preview, " more)");
    }
    preview
}

/// The system text that carries attached files, given each attachment's
/// path and summary.
pub open spec fn attachment_context_spec(entries: Seq<(Seq<char>, Seq<char>)>) -> Seq<char>
    decreases entries.len(),
{
    if entries.len() == 0 {
        "Attached workspace context. Use it as read-only project context unless the user asks to modify those files explicitly.\n\n"@
    } else {
        attachment_context_spec(entries.drop_last()) + "Path: "@ + entries.last().0 + "\n"@ + entries.last().1
            + "\n\n"@
    }
}

pub open spec fn entry_views(paths: Seq<FileAttachment>, summaries: Seq<String>) -> Seq<(Seq<char>, Seq<char>)> {
    Seq::new(paths.len(), |i: int| (paths[i].path@, summaries[i]@))
}

/// The messages that carry the attachments, given a summary of each: none
/// for no attachments, else one system message.
pub fn attachment_messages(attachments: &[FileAttachment], summaries: &Vec<String>) -> (r: Vec<ChatMessage>)
    requires
        summaries@.len() == attachments@.len(),
    ensures
        attachments@.len() == 0 ==> r@.len() == 0,
        attachments@.len() > 0 ==> r@.len() == 1 && r@[0]@ == crate::protocol::plain_message(
            crate::protocol::Role::System,
            attachment_context_spec(entry_views(attachments@, summaries@)),
        ),
{
    let mut messages: Vec<ChatMessage> = Vec::new();
    if attachments.len() == 0 {
        return messages;
    }
    let mut context = owned(
        "Attached workspace context. Use it as read-only project context unless the user asks to modify those files explicitly.\n\n",
    );
    let mut i: usize = 0;
    while i < attachments.len()
        invariant
            i <= attachments@.len() == summaries@.len(),
            context@ == attachment_context_spec(entry_views(attachments@, summaries@).take(i as int)),
        decreases attachments@.len() - i,
    {
        assert(entry_views(attachments@, summaries@).take(i + 1).drop_last() =~= entry_views(attachments@, summaries@).take(
            i as int,
        ));
        push_str(&mut context, "Path: ");
        push_str(&mut context, attachments[i].path.as_str());
        push_str(&mut context, "\n");
        push_str(&mut context, summaries[i].as_str());
        push_str(&mut context, "\n\n");
        i += 1;
    }
    assert(entry_views(attachments@, summaries@).take(i as int) =~= entry_views(attachments@, summaries@));
    messages.push(ChatMessage::system(context.as_str()));
    messages
}

/// Adds the attachment `display_path`, whose target exists or not, and
/// removes the `@` token `start..end` from the draft; the message says what
/// happened.
pub fn confirm_attachment(
    input: &mut InputBuffer,
    attachments: &mut Vec<FileAttachment>,
    start: usize,
    end: usize,
    display_path: &str,
    exists: bool,
) -> (r: Result<Option<String>, String>)
    requires
        old(input)@.text.len() < usize::MAX,
    ensures
        !exists ==> (r matches Err(e) && e@ == "attachment path does not exist: "@ + display_path@
            && final(input)@ == old(input)@ && final(attachments)@ == old(attachments)@),
        exists && attachment_paths(old(attachments)@).contains(display_path@) ==> (r matches Ok(Some(m))
            && m@ == "Attachment already added: "@ + display_path@ && final(attachments)@ == old(attachments)@
            && final(input)@ == replace_range_spec(old(input)@, start as nat, end as nat, Seq::empty())),
        exists && !attachment_paths(old(attachments)@).contains(display_path@) ==> (r matches Ok(Some(m))
            && m@ == "Attached workspace context: "@ + display_path@ && final(attachments)@.len() == old(
            attachments,
        )@.len() + 1 && final(attachments)@.drop_last() == old(attachments)@ && final(attachments)@.last().path@
            == display_path@ && final(input)@ == replace_range_spec(old(input)@, start as nat, end as nat, Seq::empty())),
{
    if !exists {
        let mut e = owned("attachment path does not exist: ");
        push_str(&mut e, display_path);
        return Err(e);
    }
    let mut i: usize = 0;
    let mut found = false;
    while i < attachments.len()
        invariant
            i <= attachments@.len(),
            found == exists|k: int| 0 <= k < i && attachments@[k].path@ == display_path@,
        decreases attachments@.len() - i,
    {
        if crate::text::eq_str(&to_chars(attachments[i].path.as_str()), display_path) {
            found = true;
        }
        i += 1;
    }
    proof {
        let ps = attachment_paths(attachments@);
        if ps.contains(display_path@) {
            let k = ps.index_of(display_path@);
            assert(attachments@[k].path@ == display_path@);
        }
        if found {
            let k = choose|k: int| 0 <= k < i && attachments@[k].path@ == display_path@;
            assert(ps[k] == display_path@);
        }
    }
    proof {
        reveal_strlit("");
    }
    if found {
        input.replace_char_range(start, end, "");
        let mut m = owned("Attachment already added: ");
        push_str(&mut m, display_path);
        return Ok(Some(m));
    }
    attachments.push(FileAttachment::new(display_path));
    input.replace_char_range(start, end, "");
    let mut m = owned("Attached workspace context: ");
    push_str(&mut m, display_path);
    Ok(Some(m))
}

/// The first index at or after `start` where `cl` holds `c`.
pub open spec fn first_index_from(cl: Seq<char>, c: char, start: int) -> Option<int>
    decreases cl.len() - start,
{
    if start < 0 || start >= cl.len() {
        None
    } else if cl[start] == c {
        Some(start)
    } else {
        first_index_from(cl, c, start + 1)
    }
}

/// Where the characters of `ql` are found in `cl`, each after the one
/// before, taking the first place each time.
pub open spec fn match_from(cl: Seq<char>, ql: Seq<char>, start: int) -> Option<Seq<int>>
    decreases ql.len(),
{
    if ql.len() == 0 {
        Some(Seq::empty())
    } else {
        match first_index_from(cl, ql[0], start) {
            None => None,
            Some(i) => match match_from(cl, ql.drop_first(), i + 1) {
                Some(rest) => Some(seq![i] + rest),
                None => None,
            },
        }
    }
}

pub open spec fn with_prefix(p: Seq<int>, r: Option<Seq<int>>) -> Option<Seq<int>> {
    match r {
        Some(rest) => Some(p + rest),
        None => None,
    }
}

/// The score of a lower-cased candidate for a lower-cased query: an exact
/// match scores highest, a candidate without the query's characters in
/// order scores nothing, others score by prefix, contiguity, an early
/// first match, few gaps and a short name.
pub open spec fn fuzzy_spec(cl: Seq<char>, ql: Seq<char>) -> Option<int> {
    if cl == ql {
        Some(1_000_000 - cl.len())
    } else {
        match match_from(cl, ql, 0) {
            None => None,
            Some(p) => {
                let first = p[0];
                let span = p.last() - first + 1;
                let gaps = span - p.len();
                let prefix_bonus = if starts_with(cl, ql) {
                    100_000int
                } else {
                    0
                };
                let contiguous_bonus = if gaps == 0 {
                    20_000int
                } else {
                    0
                };
                let first_bonus = (100 - if first < 100 {
                    first
                } else {
                    100
                }) * 100;
                Some(prefix_bonus + contiguous_bonus + first_bonus - gaps * 50 - cl.len())
            },
        }
    }
}

proof fn lemma_first_index_from(cl: Seq<char>, c: char, start: int)
    ensures
        first_index_from(cl, c, start) matches Some(i) ==> start <= i < cl.len() && cl[i] == c,
    decreases cl.len() - start,
{
    if 0 <= start < cl.len() && cl[start] != c {
        lemma_first_index_from(cl, c, start + 1);
    }
}

proof fn lemma_match_from(cl: Seq<char>, ql: Seq<char>, start: int)
    requires
        start >= 0,
    ensures
        match_from(cl, ql, start) matches Some(p) ==> p.len() == ql.len() && (forall|k: int|
            0 <= k < p.len() ==> start <= #[trigger] p[k] < cl.len()) && (forall|a: int, b: int|
            0 <= a < b < p.len() ==> #[trigger] p[a] < #[trigger] p[b]),
    decreases ql.len(),
{
    if ql.len() > 0 {
        lemma_first_index_from(cl, ql[0], start);
        match first_index_from(cl, ql[0], start) {
            Some(i) => {
                lemma_match_from(cl, ql.drop_first(), i + 1);
                match match_from(cl, ql.drop_first(), i + 1) {
                    Some(rest) => {
                        let p = seq![i] + rest;
                        assert forall|k: int| 0 <= k < p.len() implies start <= #[trigger] p[k] < cl.len() by {
                            if k > 0 {
                                assert(p[k] == rest[k - 1]);
                            }
                        }
                        assert forall|a: int, b: int| 0 <= a < b < p.len() implies #[trigger] p[a] < #[trigger] p[b] by {
                            assert(p[b] == rest[b - 1]);
                            if a > 0 {
                                assert(p[a] == rest[a - 1]);
                            }
                        }
                    },
                    None => {},
                }
            },
            None => {},
        }
    }
}

proof fn lemma_span_ge_count(p: Seq<int>)
    requires
        p.len() > 0,
        forall|a: int, b: int| 0 <= a < b < p.len() ==> #[trigger] p[a] < #[trigger] p[b],
    ensures
        p.last() - p[0] + 1 >= p.len(),
    decreases p.len(),
{
    if p.len() > 1 {
        let q = p.drop_last();
        assert forall|a: int, b: int| 0 <= a < b < q.len() implies #[trigger] q[a] < #[trigger] q[b] by {
            assert(q[a] == p[a] && q[b] == p[b]);
        }
        lemma_span_ge_count(q);
        assert(p[p.len() - 2] < p[p.len() - 1]);
    }
}

/// A score where it fits the `i64` that carries it; the lowest is reached
/// only by candidates of more than 10^17 characters.
pub open spec fn fitting(score: Option<int>) -> Option<int> {
    match score {
        Some(x) => if x >= i64::MIN {
            Some(x)
        } else {
            None
        },
        None => None,
    }
}

/// A score computed exactly, as an `i64` where it fits.
fn narrowed(x: i128) -> (r: Option<i64>)
    ensures
        match r {
            Some(v) => x >= i64::MIN && x <= i64::MAX && v == x,
            None => x < i64::MIN || x > i64::MAX,
        },
{
    if x >= i64::MIN as i128 && x <= i64::MAX as i128 {
        Some(x as i64)
    } else {
        None
    }
}

/// The score for already lower-cased texts.
pub fn fuzzy_score_lowered(cl: &Vec<char>, ql: &Vec<char>) -> (r: Option<i64>)
    requires
        ql@.len() > 0 || cl@.len() == 0,
    ensures
        match r {
            Some(v) => fitting(fuzzy_spec(cl@, ql@)) == Some(v as int),
            None => fitting(fuzzy_spec(cl@, ql@)) is None,
        },
{
    if crate::text::chars_eq(cl, ql) {
        return narrowed(1_000_000i128 - cl.len() as i128);
    }
    proof {
        if ql@.len() == 0 {
            assert(cl@ =~= ql@);
        }
    }
    let mut positions: Vec<usize> = Vec::new();
    let mut search_start: usize = 0;
    let mut k: usize = 0;
    assert(ql@.skip(0) =~= ql@);
    while k < ql.len()
        invariant
            k <= ql@.len(),
            search_start <= cl@.len(),
            ql@.len() > 0,
            cl@ != ql@,
            positions@.len() == k,
            match_from(cl@, ql@, 0) == with_prefix(
                positions@.map_values(|x: usize| x as int),
                match_from(cl@, ql@.skip(k as int), search_start as int),
            ),
            k > 0 ==> search_start == positions@[k - 1] + 1,
        decreases ql@.len() - k,
    {
        let needle = ql[k];
        let mut j = search_start;
        while j < cl.len() && cl[j] != needle
            invariant
                search_start <= j <= cl@.len(),
                first_index_from(cl@, needle, search_start as int) == first_index_from(cl@, needle, j as int),
            decreases cl@.len() - j,
        {
            j += 1;
        }
        let ghost rest = ql@.skip(k as int);
        assert(rest[0] == needle);
        assert(rest.drop_first() =~= ql@.skip(k + 1));
        if j >= cl.len() {
            assert(first_index_from(cl@, needle, j as int) is None);
            assert(match_from(cl@, rest, search_start as int) is None);
            return None;
        }
        let ghost before = positions@.map_values(|x: usize| x as int);
        positions.push(j);
        assert(positions@.map_values(|x: usize| x as int) =~= before.push(j as int));
        proof {
            match match_from(cl@, ql@.skip(k + 1), j + 1) {
                Some(r2) => {
                    assert(before + (seq![j as int] + r2) =~= before.push(j as int) + r2);
                },
                None => {},
            }
        }
        search_start = j + 1;
        k += 1;
    }
    assert(ql@.skip(k as int) =~= Seq::<char>::empty());
    let ghost p = positions@.map_values(|x: usize| x as int);
    assert(p + Seq::<int>::empty() =~= p);
    proof {
        lemma_match_from(cl@, ql@, 0);
    }
    let first = positions[0];
    let last = positions[positions.len() - 1];
    proof {
        assert(p[0] == first as int);
        assert(p.last() == last as int);
        lemma_span_ge_count(p);
    }
    let span = last - first + 1;
    let gaps = span - positions.len();
    let prefix_bonus: i128 = if crate::text::starts_with_chars(cl, ql) {
        100_000
    } else {
        0
    };
    let contiguous_bonus: i128 = if gaps == 0 {
        20_000
    } else {
        0
    };
    let capped_first = if first < 100 {
        first
    } else {
        100
    };
    let first_bonus = ((100 - capped_first) as i128) * 100;
    let gap_penalty = (gaps as i128) * 50;
    let length_penalty = cl.len() as i128;
    narrowed(prefix_bonus + contiguous_bonus + first_bonus - gap_penalty - length_penalty)
}

/// What `fuzzy_score` gives: `Some(0)` for a blank query, else the score of
/// the lower-cased texts where it fits an `i64`. A non-blank query whose
/// lower case is empty is given no score against a non-empty candidate.
pub open spec fn fuzzy_score_of(candidate: Seq<char>, query: Seq<char>) -> Option<int> {
    let cl = unicode_lower(candidate);
    let ql = unicode_lower(trim(query));
    if trim(query).len() == 0 {
        Some(0)
    } else if ql.len() == 0 && cl.len() > 0 {
        None
    } else {
        fitting(fuzzy_spec(cl, ql))
    }
}

/// How well `candidate` matches the fuzzy query; `None` where it does not.
pub fn fuzzy_score(candidate: &str, query: &str) -> (r: Option<i64>)
    ensures
        match r {
            Some(v) => fuzzy_score_of(candidate@, query@) == Some(v as int),
            None => fuzzy_score_of(candidate@, query@) is None,
        },
{
    let q = from_chars(&trim_str(query));
    if to_chars(q.as_str()).len() == 0 {
        return Some(0);
    }
    let cl = to_chars(to_lowercase(candidate).as_str());
    let ql = to_chars(to_lowercase(q.as_str()).as_str());
    if ql.len() == 0 && cl.len() > 0 {
        return None;
    }
    fuzzy_score_lowered(&cl, &ql)
}

} // verus!
