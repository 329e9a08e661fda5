//! Paths that tools may touch: the candidate path for a request, its
//! lexical normal form, and whether it stays inside the workspace. Paths
//! are `/`-separated; looking at the file system is the caller's part.
use vstd::prelude::*;

use crate::text::{
    from_chars, join, join_strings, owned, push_str, split_chars, split_on, string_views, to_chars,
    trim, trim_vec,
};

verus! {

/// The named parts of a path: the pieces between `/` that are neither
/// empty nor `.`.
pub open spec fn named_parts(parts: Seq<Seq<char>>) -> Seq<Seq<char>>
    decreases parts.len(),
{
    if parts.len() == 0 {
        Seq::empty()
    } else if parts.last().len() == 0 || parts.last() == "."@ {
        named_parts(parts.drop_last())
    } else {
        named_parts(parts.drop_last()).push(parts.last())
    }
}

/// The parts left after each `..` removes the part before it (none at the
/// top).
pub open spec fn resolved_parts(parts: Seq<Seq<char>>) -> Seq<Seq<char>>
    decreases parts.len(),
{
    if parts.len() == 0 {
        Seq::empty()
    } else {
        let rest = resolved_parts(parts.drop_last());
        if parts.last() == ".."@ {
            if rest.len() > 0 {
                rest.drop_last()
            } else {
                rest
            }
        } else {
            rest.push(parts.last())
        }
    }
}

pub open spec fn is_absolute(p: Seq<char>) -> bool {
    p.len() > 0 && p[0] == '/'
}

/// The lexical normal form of a path: `.` parts and empty parts dropped,
/// each `..` removing the part before it, absolute paths kept absolute.
pub open spec fn normal_form(p: Seq<char>) -> Seq<char> {
    let parts = resolved_parts(named_parts(split_on(p, '/')));
    if is_absolute(p) {
        "/"@ + join(parts, "/"@)
    } else {
        join(parts, "/"@)
    }
}

proof fn lemma_resolved_has_no_parent(parts: Seq<Seq<char>>)
    ensures
        forall|i: int| 0 <= i < resolved_parts(parts).len() ==> #[trigger] resolved_parts(parts)[i] != ".."@,
    decreases parts.len(),
{
    if parts.len() > 0 {
        lemma_resolved_has_no_parent(parts.drop_last());
        let rest = resolved_parts(parts.drop_last());
        if parts.last() == ".."@ {
            if rest.len() > 0 {
                assert forall|i: int| 0 <= i < rest.drop_last().len() implies #[trigger] rest.drop_last()[i] != ".."@ by {
                    assert(rest.drop_last()[i] == rest[i]);
                }
            }
        } else {
            let r = rest.push(parts.last());
            assert forall|i: int| 0 <= i < r.len() implies #[trigger] r[i] != ".."@ by {
                if i < rest.len() {
                    assert(r[i] == rest[i]);
                }
            }
        }
    }
}

/// A path in normal form never climbs: none of its parts is `..`.
pub proof fn law_normal_form_does_not_climb(p: Seq<char>)
    ensures
        forall|i: int|
            0 <= i < resolved_parts(named_parts(split_on(p, '/'))).len() ==> #[trigger] resolved_parts(
                named_parts(split_on(p, '/')),
            )[i] != ".."@,
{
    lemma_resolved_has_no_parent(named_parts(split_on(p, '/')));
}

/// The lexical normal form of `path`.
pub fn normalize_path(path: &str) -> (r: String)
    ensures
        r@ == normal_form(path@),
{
    let chars = to_chars(path);
    let pieces = split_chars(chars.as_slice(), '/');
    let ghost pv = pieces@.map_values(|l: Vec<char>| l@);
    let dot = to_chars(".");
    let dotdot = to_chars("..");
    proof {
        reveal_strlit(".");
        reveal_strlit("..");
    }
    let mut stack: Vec<String> = Vec::new();
    let mut i: usize = 0;
    while i < pieces.len()
        invariant
            i <= pieces@.len(),
            pv == pieces@.map_values(|l: Vec<char>| l@),
            dot@ == "."@,
            dotdot@ == ".."@,
            string_views(stack@) == resolved_parts(named_parts(pv.take(i as int))),
        decreases pieces@.len() - i,
    {
        assert(pv.take(i + 1).drop_last() =~= pv.take(i as int));
        assert(pv.take(i + 1).last() == pieces@[i as int]@);
        let piece = &pieces[i];
        let named = piece.len() > 0 && !crate::text::chars_eq(piece.as_slice(), dot.as_slice());
        if named {
            let ghost before = string_views(stack@);
            assert(named_parts(pv.take(i + 1)) == named_parts(pv.take(i as int)).push(piece@));
            assert(named_parts(pv.take(i as int)).push(piece@).drop_last() =~= named_parts(pv.take(i as int)));
            if crate::text::chars_eq(piece.as_slice(), dotdot.as_slice()) {
                if stack.len() > 0 {
                    stack.pop();
                    assert(string_views(stack@) =~= before.drop_last());
                }
            } else {
                stack.push(from_chars(piece.as_slice()));
                assert(string_views(stack@) =~= before.push(piece@));
            }
        } else {
            assert(named_parts(pv.take(i + 1)) == named_parts(pv.take(i as int)));
        }
        i += 1;
    }
    assert(pv.take(i as int) =~= pv);
    let body = join_strings(stack.as_slice(), "/");
    if chars.len() > 0 && chars[0] == '/' {
        let mut out = owned("/");
        push_str(&mut out, body.as_str());
        out
    } else {
        body
    }
}

/// Whether `parts` begins with `prefix`.
pub open spec fn parts_prefix(prefix: Seq<Seq<char>>, parts: Seq<Seq<char>>) -> bool {
    prefix.len() <= parts.len() && parts.take(prefix.len() as int) == prefix
}

/// Whether `path` lies in `root` (`Path::starts_with` on paths without `.`
/// and `..`): both absolute or both relative, and the named parts of `root`
/// begin those of `path`.
pub open spec fn lies_within(path: Seq<char>, root: Seq<char>) -> bool {
    is_absolute(path) == is_absolute(root) && parts_prefix(
        named_parts(split_on(root, '/')),
        named_parts(split_on(path, '/')),
    )
}

fn named_parts_of(path: &str) -> (r: Vec<String>)
    ensures
        string_views(r@) == named_parts(split_on(path@, '/')),
{
    let chars = to_chars(path);
    let pieces = split_chars(chars.as_slice(), '/');
    let ghost pv = pieces@.map_values(|l: Vec<char>| l@);
    let dot = to_chars(".");
    proof {
        reveal_strlit(".");
    }
    let mut out: Vec<String> = Vec::new();
    let mut i: usize = 0;
    while i < pieces.len()
        invariant
            i <= pieces@.len(),
            pv == pieces@.map_values(|l: Vec<char>| l@),
            dot@ == "."@,
            string_views(out@) == named_parts(pv.take(i as int)),
        decreases pieces@.len() - i,
    {
        assert(pv.take(i + 1).drop_last() =~= pv.take(i as int));
        assert(pv.take(i + 1).last() == pieces@[i as int]@);
        let piece = &pieces[i];
        if piece.len() > 0 && !crate::text::chars_eq(piece.as_slice(), dot.as_slice()) {
            let ghost before = string_views(out@);
            out.push(from_chars(piece.as_slice()));
            assert(string_views(out@) =~= before.push(piece@));
        }
        i += 1;
    }
    assert(pv.take(i as int) =~= pv);
    out
}

/// Whether `path` lies in `root`.
pub fn path_within(path: &str, root: &str) -> (r: bool)
    ensures
        r == lies_within(path@, root@),
{
    let p = to_chars(path);
    let q = to_chars(root);
    let p_abs = p.len() > 0 && p[0] == '/';
    let q_abs = q.len() > 0 && q[0] == '/';
    if p_abs != q_abs {
        return false;
    }
    let pp = named_parts_of(path);
    let rp = named_parts_of(root);
    if rp.len() > pp.len() {
        return false;
    }
    let ghost pv = string_views(pp@);
    let ghost rv = string_views(rp@);
    let mut k: usize = 0;
    while k < rp.len()
        invariant
            k <= rp@.len() <= pp@.len(),
            pv == string_views(pp@),
            rv == string_views(rp@),
            pv == named_parts(split_on(path@, '/')),
            rv == named_parts(split_on(root@, '/')),
            is_absolute(path@) == is_absolute(root@),
            pv.take(k as int) == rv.take(k as int),
        decreases rp@.len() - k,
    {
        let a = to_chars(pp[k].as_str());
        let b = to_chars(rp[k].as_str());
        if !crate::text::chars_eq(a.as_slice(), b.as_slice()) {
            assert(pv[k as int] == pp@[k as int]@);
            assert(rv[k as int] == rp@[k as int]@);
            assert(pv.take(rv.len() as int)[k as int] == pv[k as int]);
            assert(pv.take(rv.len() as int)[k as int] != rv[k as int]);
            assert(pv.take(rv.len() as int) != rv);
            return false;
        }
        assert(pv.take(k + 1) =~= pv.take(k as int).push(pv[k as int]));
        assert(rv.take(k + 1) =~= rv.take(k as int).push(rv[k as int]));
        k += 1;
    }
    assert(rv.take(k as int) =~= rv);
    true
}

/// Why a tool path is refused.
#[derive(Debug, Clone, PartialEq, Eq)]
pub enum PathError {
    /// The requested path is blank.
    Empty,
    /// The resolved path leaves the workspace.
    EscapesWorkspace(String),
}

impl PathError {
    pub fn message(&self) -> (r: String)
        ensures
            r@ == match self {
                PathError::Empty => "path cannot be empty"@,
                PathError::EscapesWorkspace(p) => "path escapes workspace: "@ + p@,
            },
    {
        match self {
            PathError::Empty => owned("path cannot be empty"),
            PathError::EscapesWorkspace(p) => {
                let mut s = owned("path escapes workspace: ");
                push_str(&mut s, p.as_str());
                s
            },
        }
    }
}

/// The path a tool request names, before the file system is asked: the
/// trimmed request where it is absolute, else the request under the
/// workspace.
pub open spec fn candidate_path(workspace: Seq<char>, raw: Seq<char>) -> Option<Seq<char>> {
    let t = trim(raw);
    if t.len() == 0 {
        None
    } else if is_absolute(t) {
        Some(t)
    } else if workspace.len() > 0 && workspace.last() == '/' {
        Some(workspace + t)
    } else {
        Some(workspace + "/"@ + t)
    }
}

pub fn tool_path_candidate(workspace: &str, raw: &str) -> (r: Result<String, PathError>)
    ensures
        match candidate_path(workspace@, raw@) {
            Some(c) => r matches Ok(s) && s@ == c,
            None => r == Err::<String, PathError>(PathError::Empty),
        },
{
    let t = trim_vec(&to_chars(raw));
    if t.len() == 0 {
        return Err(PathError::Empty);
    }
    if t[0] == '/' {
        return Ok(from_chars(&t));
    }
    let w = to_chars(workspace);
    let mut out = owned(workspace);
    if !(w.len() > 0 && w[w.len() - 1] == '/') {
        push_str(&mut out, "/");
    }
    push_str(&mut out, from_chars(&t).as_str());
    Ok(out)
}

/// Accepts a resolved path only where it lies in the workspace.
pub fn ensure_within_workspace(resolved: &str, workspace: &str) -> (r: Result<(), PathError>)
    ensures
        lies_within(resolved@, workspace@) ==> r is Ok,
        !lies_within(resolved@, workspace@) ==> (r matches Err(PathError::EscapesWorkspace(p)) && p@
            == resolved@),
{
    if path_within(resolved, workspace) {
        Ok(())
    } else {
        Err(PathError::EscapesWorkspace(owned(resolved)))
    }
}

/// How a path is shown relative to a root: the named parts after the
/// root's where it lies in the root, else the path as given.
pub open spec fn relative_text(root: Seq<char>, path: Seq<char>) -> Seq<char> {
    if lies_within(path, root) {
        join(
            named_parts(split_on(path, '/')).skip(named_parts(split_on(root, '/')).len() as int),
            "/"@,
        )
    } else {
        path
    }
}

/// Shows `path` relative to `root` where it lies in it.
pub fn relative_display(root: &str, path: &str) -> (r: String)
    ensures
        r@ == relative_text(root@, path@),
{
    if !path_within(path, root) {
        return owned(path);
    }
    let pp = named_parts_of(path);
    let rp = named_parts_of(root);
    let n = rp.len();
    if n > pp.len() {
        return owned(path);
    }
    let mut rest: Vec<String> = Vec::new();
    let mut k = n;
    while k < pp.len()
        invariant
            n <= k <= pp@.len(),
            string_views(rest@) == string_views(pp@).subrange(n as int, k as int),
        decreases pp@.len() - k,
    {
        let ghost before = string_views(rest@);
        let part = owned(pp[k].as_str());
        rest.push(part);
        assert(string_views(rest@) =~= before.push(pp@[k as int]@));
        assert(string_views(rest@) =~= string_views(pp@).subrange(n as int, k + 1));
        k += 1;
    }
    assert(string_views(pp@).subrange(n as int, k as int) =~= string_views(pp@).skip(n as int));
    join_strings(rest.as_slice(), "/")
}

} // verus!
