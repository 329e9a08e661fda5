//! The workspace file tools: what each is called and asks for, how an
//! exact search-and-replace edit is decided, and the diff that a write or
//! an edit reports.
use vstd::prelude::*;

use crate::text::{
    decimal, from_chars, lines, occurs_at, owned, push_chars, push_str, split_lines, starts_with_at,
    to_chars, trim_end, trim_end_vec, usize_to_string,
};
use crate::tooling::{ApprovalRequirement, ToolKind};

verus! {

/// Reads a UTF-8 file of the workspace.
pub struct ReadFileTool;

/// Lists a directory of the workspace.
pub struct ListDirTool;

/// Creates or overwrites a text file of the workspace.
pub struct WriteFileTool;

/// Edits a text file of the workspace by exact search and replace.
pub struct EditFileTool;

/// `prefix` followed by the path, or `fallback` where the input names none.
pub open spec fn labelled(prefix: Seq<char>, path: Option<Seq<char>>, fallback: Seq<char>) -> Seq<
    char,
> {
    prefix + match path {
        Some(p) => p,
        None => fallback,
    }
}

pub(crate) fn label(prefix: &str, path: Option<&str>, fallback: &str) -> (r: String)
    ensures
        r@ == labelled(
            prefix@,
            match path {
                Some(p) => Some(p@),
                None => None,
            },
            fallback@,
        ),
{
    let mut out = owned(prefix);
    match path {
        Some(p) => push_str(&mut out, p),
        None => push_str(&mut out, fallback),
    }
    out
}

pub open spec fn opt_str_view(path: Option<&str>) -> Option<Seq<char>> {
    match path {
        Some(p) => Some(p@),
        None => None,
    }
}

impl ReadFileTool {
    pub fn name(&self) -> (r: &'static str)
        ensures
            r@ == "read_file"@,
    {
        "read_file"
    }

    pub fn description(&self) -> (r: &'static str)
        ensures
            r@ == "Read a UTF-8 file from the current workspace."@,
    {
        "Read a UTF-8 file from the current workspace."
    }

    pub fn kind(&self) -> (r: ToolKind)
        ensures
            r == ToolKind::FileRead,
    {
        ToolKind::FileRead
    }

    pub fn approval_requirement(&self) -> (r: ApprovalRequirement)
        ensures
            r == ApprovalRequirement::Auto,
    {
        ApprovalRequirement::Auto
    }

    /// The one-line summary of a call; `path` is the input's `path` field.
    pub fn summarize(&self, path: Option<&str>) -> (r: String)
        ensures
            r@ == labelled("Read file "@, opt_str_view(path), "<missing>"@),
    {
        label("Read file ", path, "<missing>")
    }
}

impl ListDirTool {
    pub fn name(&self) -> (r: &'static str)
        ensures
            r@ == "list_dir"@,
    {
        "list_dir"
    }

    pub fn description(&self) -> (r: &'static str)
        ensures
            r@ == "List directory contents within the current workspace."@,
    {
        "List directory contents within the current workspace."
    }

    pub fn kind(&self) -> (r: ToolKind)
        ensures
            r == ToolKind::FileRead,
    {
        ToolKind::FileRead
    }

    pub fn approval_requirement(&self) -> (r: ApprovalRequirement)
        ensures
            r == ApprovalRequirement::Auto,
    {
        ApprovalRequirement::Auto
    }

    /// The one-line summary of a call; the workspace root where no path is
    /// given.
    pub fn summarize(&self, path: Option<&str>) -> (r: String)
        ensures
            r@ == labelled("List directory "@, opt_str_view(path), "."@),
    {
        label("List directory ", path, ".")
    }
}

impl WriteFileTool {
    pub fn name(&self) -> (r: &'static str)
        ensures
            r@ == "write_file"@,
    {
        "write_file"
    }

    pub fn description(&self) -> (r: &'static str)
        ensures
            r@ == "Create or overwrite a UTF-8 text file inside the workspace."@,
    {
        "Create or overwrite a UTF-8 text file inside the workspace."
    }

    pub fn kind(&self) -> (r: ToolKind)
        ensures
            r == ToolKind::FileWrite,
    {
        ToolKind::FileWrite
    }

    pub fn approval_requirement(&self) -> (r: ApprovalRequirement)
        ensures
            r == ApprovalRequirement::Prompt,
    {
        ApprovalRequirement::Prompt
    }

    pub fn summarize(&self, path: Option<&str>) -> (r: String)
        ensures
            r@ == labelled("Write file "@, opt_str_view(path), "<missing>"@),
    {
        label("Write file ", path, "<missing>")
    }
}

impl EditFileTool {
    pub fn name(&self) -> (r: &'static str)
        ensures
            r@ == "edit_file"@,
    {
        "edit_file"
    }

    pub fn description(&self) -> (r: &'static str)
        ensures
            r@ == "Edit a UTF-8 text file by exact search and replace."@,
    {
        "Edit a UTF-8 text file by exact search and replace."
    }

    pub fn kind(&self) -> (r: ToolKind)
        ensures
            r == ToolKind::FileWrite,
    {
        ToolKind::FileWrite
    }

    pub fn approval_requirement(&self) -> (r: ApprovalRequirement)
        ensures
            r == ApprovalRequirement::Prompt,
    {
        ApprovalRequirement::Prompt
    }

    pub fn summarize(&self, path: Option<&str>) -> (r: String)
        ensures
            r@ == labelled("Edit file "@, opt_str_view(path), "<missing>"@),
    {
        label("Edit file ", path, "<missing>")
    }
}

/// The number of non-overlapping occurrences of a non-empty `p` in `s` at
/// or after `i`, found from the left (`str::matches`).
pub open spec fn matches_from(s: Seq<char>, p: Seq<char>, i: int) -> nat
    decreases s.len() - i,
{
    if p.len() == 0 || i < 0 || i + p.len() > s.len() {
        0
    } else if occurs_at(s, p, i) {
        1 + matches_from(s, p, i + p.len())
    } else {
        matches_from(s, p, i + 1)
    }
}

/// How many times `str::matches` finds `p` in `s`; an empty pattern is
/// found at every character boundary.
pub open spec fn match_count(s: Seq<char>, p: Seq<char>) -> nat {
    if p.len() == 0 {
        s.len() + 1
    } else {
        matches_from(s, p, 0)
    }
}

/// Where the first occurrence of `p` in `s` at or after `i` starts.
pub open spec fn first_occurrence_from(s: Seq<char>, p: Seq<char>, i: int) -> Option<int>
    decreases s.len() + 1 - i,
{
    if i < 0 || i + p.len() > s.len() {
        None
    } else if occurs_at(s, p, i) {
        Some(i)
    } else {
        first_occurrence_from(s, p, i + 1)
    }
}

/// `str::replacen(s, p, r, 1)`: the first occurrence of `p` replaced.
pub open spec fn replace_first(s: Seq<char>, p: Seq<char>, r: Seq<char>) -> Seq<char> {
    match first_occurrence_from(s, p, 0) {
        Some(i) => s.take(i) + r + s.skip(i + p.len()),
        None => s,
    }
}

/// Why an edit was refused.
#[derive(Debug, Clone, Copy, PartialEq, Eq, Structural)]
pub enum EditError {
    /// The search text does not occur.
    NotFound,
    /// The search text occurs this many times.
    Ambiguous(usize),
}

/// What editing `existing` gives: the text with the one occurrence of
/// `search` replaced; refused where `search` occurs never or more than once.
pub open spec fn edit_outcome(existing: Seq<char>, search: Seq<char>, replace: Seq<char>) -> Result<
    Seq<char>,
    EditError,
> {
    let n = match_count(existing, search);
    if n == 0 {
        Err(EditError::NotFound)
    } else if n > 1 {
        Err(EditError::Ambiguous(n as usize))
    } else {
        Ok(replace_first(existing, search, replace))
    }
}

proof fn lemma_first_occurrence_found(s: Seq<char>, p: Seq<char>, i: int)
    requires
        p.len() > 0,
        0 <= i,
        matches_from(s, p, i) > 0,
    ensures
        first_occurrence_from(s, p, i) is Some,
    decreases s.len() - i,
{
    if i + p.len() <= s.len() && !occurs_at(s, p, i) {
        lemma_first_occurrence_found(s, p, i + 1);
    }
}

/// Counts the occurrences of a non-empty `p` in `s` up to two, and finds
/// the first.
fn count_up_to_two(s: &[char], p: &[char]) -> (r: (usize, Option<usize>))
    requires
        p@.len() > 0,
        s@.len() + 1 < usize::MAX,
    ensures
        r.0 == if matches_from(s@, p@, 0) > 2 {
            2
        } else {
            matches_from(s@, p@, 0)
        },
        r.0 > 0 ==> (r.1 matches Some(i) && first_occurrence_from(s@, p@, 0) == Some(i as int)),
{
    let mut i: usize = 0;
    let mut count: usize = 0;
    let mut first: Option<usize> = None;
    while p.len() <= s.len() && i <= s.len() - p.len() && count < 2
        invariant
            i <= s@.len() + 1,
            p@.len() > 0,
            s@.len() + 1 < usize::MAX,
            count <= 2,
            matches_from(s@, p@, 0) == count + matches_from(s@, p@, i as int),
            count == 0 ==> first is None && first_occurrence_from(s@, p@, 0)
                == first_occurrence_from(s@, p@, i as int),
            count > 0 ==> (first matches Some(f) && first_occurrence_from(s@, p@, 0) == Some(
                f as int,
            )),
        decreases s@.len() + 1 - i,
    {
        if starts_with_at(s, i, p) {
            assert(s@.skip(i as int).take(p@.len() as int) =~= s@.subrange(i as int, i + p@.len()));
            if count == 0 {
                first = Some(i);
            }
            count += 1;
            i += p.len();
        } else {
            assert(s@.skip(i as int).take(p@.len() as int) =~= s@.subrange(i as int, i + p@.len()));
            i += 1;
        }
    }
    (count, first)
}

/// Decides a search-and-replace edit of `existing`: the edited text, or
/// why it is refused.
pub fn plan_edit(existing: &str, search: &str, replace: &str) -> (r: Result<String, EditError>)
    requires
        existing@.len() + 1 < usize::MAX,
    ensures
        match r {
            Ok(t) => edit_outcome(existing@, search@, replace@) == Ok::<Seq<char>, EditError>(t@),
            Err(e) => edit_outcome(existing@, search@, replace@) == Err::<Seq<char>, EditError>(e),
        },
{
    let s = to_chars(existing);
    let p = to_chars(search);
    let rep = to_chars(replace);
    if p.len() == 0 {
        if s.len() == 0 {
            assert(s@.subrange(0, 0) =~= p@);
            assert(occurs_at(s@, p@, 0));
            assert(s@.take(0) + rep@ + s@.skip(0) =~= rep@);
            return Ok(from_chars(&rep));
        }
        return Err(EditError::Ambiguous(s.len() + 1));
    }
    let (count, first) = count_up_to_two(&s, &p);
    if count == 0 {
        return Err(EditError::NotFound);
    }
    if count > 1 {
        let total = count_all(&s, &p);
        return Err(EditError::Ambiguous(total));
    }
    match first {
        Some(i) => {
            proof {
                lemma_first_occurrence_is_match(s@, p@, 0);
            }
            let mut out: String = from_chars(&crate::text::slice_vec(&s, 0, i));
            push_chars(&mut out, &rep);
            let tail = crate::text::slice_vec(&s, i + p.len(), s.len());
            push_chars(&mut out, &tail);
            Ok(out)
        },
        None => Err(EditError::NotFound),
    }
}

proof fn lemma_first_occurrence_is_match(s: Seq<char>, p: Seq<char>, i: int)
    ensures
        first_occurrence_from(s, p, i) matches Some(k) ==> occurs_at(s, p, k) && i <= k,
    decreases s.len() + 1 - i,
{
    if i >= 0 && i + p.len() <= s.len() && !occurs_at(s, p, i) {
        lemma_first_occurrence_is_match(s, p, i + 1);
    }
}

/// Counts every occurrence of a non-empty `p` in `s`.
fn count_all(s: &[char], p: &[char]) -> (r: usize)
    requires
        p@.len() > 0,
        s@.len() + 1 < usize::MAX,
    ensures
        r == matches_from(s@, p@, 0),
{
    let mut i: usize = 0;
    let mut count: usize = 0;
    while p.len() <= s.len() && i <= s.len() - p.len()
        invariant
            i <= s@.len() + 1,
            p@.len() > 0,
            s@.len() + 1 < usize::MAX,
            matches_from(s@, p@, 0) == count + matches_from(s@, p@, i as int),
            count <= i,
        decreases s@.len() + 1 - i,
    {
        assert(s@.skip(i as int).take(p@.len() as int) =~= s@.subrange(i as int, i + p@.len()));
        if starts_with_at(s, i, p) {
            count += 1;
            i += p.len();
        } else {
            i += 1;
        }
    }
    count
}

/// The text of a refused edit of the file shown as `path`.
pub fn edit_error_message(error: EditError, path: &str) -> (r: String)
    ensures
        r@ == match error {
            EditError::NotFound => "search text not found in "@ + path@,
            EditError::Ambiguous(n) => "search text matches "@ + decimal(n as nat) + " times in "@
                + path@ + "; provide a unique occurrence"@,
        },
{
    match error {
        EditError::NotFound => {
            let mut s = owned("search text not found in ");
            push_str(&mut s, path);
            s
        },
        EditError::Ambiguous(n) => {
            let mut s = owned("search text matches ");
            push_str(&mut s, usize_to_string(n).as_str());
            push_str(&mut s, " times in ");
            push_str(&mut s, path);
            push_str(&mut s, "; provide a unique occurrence");
            s
        },
    }
}

/// The lines of `ls`, each after `mark` and followed by a line break.
pub open spec fn marked_lines(ls: Seq<Seq<char>>, mark: char) -> Seq<char>
    decreases ls.len(),
{
    if ls.len() == 0 {
        Seq::empty()
    } else {
        marked_lines(ls.drop_last(), mark) + seq![mark] + ls.last() + "\n"@
    }
}

/// The diff that a write or an edit reports: the old lines with `-`, then
/// the new ones with `+`, under a header naming the file.
pub open spec fn diff_text(path: Seq<char>, before: Seq<char>, after: Seq<char>) -> Seq<char> {
    let header = "--- "@ + path + "\n+++ "@ + path + "\n"@;
    if before == after {
        header + "(no changes)"@
    } else {
        trim_end(header + marked_lines(lines(before), '-') + marked_lines(lines(after), '+'))
    }
}

fn push_marked_lines(out: &mut String, text: &str, mark: char)
    ensures
        final(out)@ == old(out)@ + marked_lines(lines(text@), mark),
{
    let all = split_lines(text);
    let ghost ls = all@.map_values(|l: Vec<char>| l@);
    let ghost start = out@;
    let mut i: usize = 0;
    while i < all.len()
        invariant
            i <= all@.len(),
            ls == all@.map_values(|l: Vec<char>| l@),
            ls == lines(text@),
            out@ == start + marked_lines(ls.take(i as int), mark),
        decreases all@.len() - i,
    {
        assert(ls.take(i + 1).drop_last() =~= ls.take(i as int));
        assert(ls.take(i + 1).last() == all@[i as int]@);
        crate::text::push_char(out, mark);
        push_chars(out, all[i].as_slice());
        push_str(out, "\n");
        assert(out@ =~= start + marked_lines(ls.take(i + 1), mark));
        i += 1;
    }
    assert(ls.take(i as int) =~= ls);
}

/// The diff between two versions of the file shown as `path`.
pub fn render_diff(path: &str, before: &str, after: &str) -> (r: String)
    ensures
        r@ == diff_text(path@, before@, after@),
{
    let mut header = owned("--- ");
    push_str(&mut header, path);
    push_str(&mut header, "\n+++ ");
    push_str(&mut header, path);
    push_str(&mut header, "\n");
    let b = to_chars(before);
    let a = to_chars(after);
    if crate::text::chars_eq(&b, &a) {
        push_str(&mut header, "(no changes)");
        return header;
    }
    push_marked_lines(&mut header, before, '-');
    push_marked_lines(&mut header, after, '+');
    from_chars(&trim_end_vec(&to_chars(header.as_str())))
}

} // verus!
