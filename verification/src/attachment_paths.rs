//! Where the attachment picker looks: the directory to list and the name
//! fragment to match, from the `@path` text typed so far. Paths are
//! `/`-separated; `~` stands for the home directory that the caller knows.
use vstd::prelude::*;

use crate::text::{
    ends_with, from_chars, join, join_strings, owned, push_str, split_chars, split_on, starts_with,
    starts_with_chars, string_views, to_chars, trim, trim_vec,
};
use crate::workspace_paths::is_absolute;

verus! {

/// The parts of a path that name something: empty parts and `.` dropped,
/// except a leading `.` of a relative path.
pub open spec fn path_parts(p: Seq<char>) -> Seq<Seq<char>> {
    let named = crate::workspace_paths::named_parts(split_on(p, '/'));
    if !is_absolute(p) && (p == "."@ || starts_with(p, "./"@)) {
        seq!["."@] + named
    } else {
        named
    }
}

/// `Path::file_name`: the last part where it names a file or directory.
pub open spec fn file_name_of(p: Seq<char>) -> Option<Seq<char>> {
    let parts = path_parts(p);
    if parts.len() == 0 || parts.last() == "."@ || parts.last() == ".."@ {
        None
    } else {
        Some(parts.last())
    }
}

/// `Path::parent`: the path without its last part, where it has one.
pub open spec fn parent_of(p: Seq<char>) -> Option<Seq<char>> {
    let parts = path_parts(p);
    if parts.len() == 0 {
        None
    } else {
        let rest = join(parts.drop_last(), "/"@);
        Some(
            if is_absolute(p) {
                "/"@ + rest
            } else {
                rest
            },
        )
    }
}

/// `Path::join`: `p` where it is absolute, else `p` under `base`.
pub open spec fn joined(base: Seq<char>, p: Seq<char>) -> Seq<char> {
    if is_absolute(p) || base.len() == 0 {
        p
    } else if base.last() == '/' {
        base + p
    } else {
        base + "/"@ + p
    }
}

fn join_path(base: &str, p: &str) -> (r: String)
    ensures
        r@ == joined(base@, p@),
{
    let pc = to_chars(p);
    let bc = to_chars(base);
    if (pc.len() > 0 && pc[0] == '/') || bc.len() == 0 {
        return owned(p);
    }
    let mut out = owned(base);
    if bc[bc.len() - 1] != '/' {
        push_str(&mut out, "/");
    }
    push_str(&mut out, p);
    out
}

fn path_parts_of(p: &str) -> (r: Vec<String>)
    ensures
        string_views(r@) == path_parts(p@),
{
    let chars = to_chars(p);
    let pieces = split_chars(chars.as_slice(), '/');
    let ghost pv = pieces@.map_values(|l: Vec<char>| l@);
    let dot = to_chars(".");
    proof {
        reveal_strlit(".");
        reveal_strlit("./");
    }
    let mut out: Vec<String> = Vec::new();
    let lead = to_chars("./");
    let absolute = chars.len() > 0 && chars[0] == '/';
    if !absolute && (crate::text::chars_eq(chars.as_slice(), dot.as_slice()) || starts_with_chars(&chars, &lead)) {
        out.push(owned("."));
    }
    let ghost head = string_views(out@);
    proof {
        if !absolute && (chars@ == "."@ || starts_with(chars@, "./"@)) {
            assert(head =~= seq!["."@]);
        } else {
            assert(head =~= Seq::<Seq<char>>::empty());
        }
    }
    let mut i: usize = 0;
    while i < pieces.len()
        invariant
            i <= pieces@.len(),
            pv == pieces@.map_values(|l: Vec<char>| l@),
            dot@ == "."@,
            string_views(out@) == head + crate::workspace_paths::named_parts(pv.take(i as int)),
        decreases pieces@.len() - i,
    {
        assert(pv.take(i + 1).drop_last() =~= pv.take(i as int));
        assert(pv.take(i + 1).last() == pieces@[i as int]@);
        let piece = &pieces[i];
        if piece.len() > 0 && !crate::text::chars_eq(piece.as_slice(), dot.as_slice()) {
            let ghost before = string_views(out@);
            out.push(from_chars(piece.as_slice()));
            assert(string_views(out@) =~= before.push(piece@));
        }
        i += 1;
    }
    assert(pv.take(i as int) =~= pv);
    proof {
        if !absolute && (chars@ == "."@ || starts_with(chars@, "./"@)) {
            assert(head =~= seq!["."@]);
        } else {
            assert(head =~= Seq::<Seq<char>>::empty());
            assert(string_views(out@) =~= crate::workspace_paths::named_parts(pv));
        }
    }
    out
}

fn file_name(p: &str) -> (r: Option<String>)
    ensures
        match r {
            Some(n) => file_name_of(p@) == Some(n@),
            None => file_name_of(p@) is None,
        },
{
    let parts = path_parts_of(p);
    proof {
        reveal_strlit(".");
        reveal_strlit("..");
    }
    if parts.len() == 0 {
        return None;
    }
    let last = to_chars(parts[parts.len() - 1].as_str());
    assert(string_views(parts@).last() == last@);
    if crate::text::eq_str(&last, ".") || crate::text::eq_str(&last, "..") {
        return None;
    }
    Some(from_chars(&last))
}

fn parent(p: &str) -> (r: Option<String>)
    ensures
        match r {
            Some(s) => parent_of(p@) == Some(s@),
            None => parent_of(p@) is None,
        },
{
    let parts = path_parts_of(p);
    if parts.len() == 0 {
        return None;
    }
    let (front, _) = parts.as_slice().split_at(parts.len() - 1);
    assert(string_views(front@) =~= string_views(parts@).drop_last());
    let rest = join_strings(front, "/");
    let chars = to_chars(p);
    if chars.len() > 0 && chars[0] == '/' {
        let mut out = owned("/");
        push_str(&mut out, rest.as_str());
        Some(out)
    } else {
        Some(rest)
    }
}

/// Where to look for a path typed after `@`, relative to `base`: the
/// directory named by all but the last part, and the last part as the
/// fragment to match; the whole path where it names no file.
pub open spec fn fragment_root(base: Seq<char>, p: Seq<char>) -> (Seq<char>, Seq<char>) {
    if p.len() == 0 {
        (base, Seq::empty())
    } else {
        match file_name_of(p) {
            None => (joined(base, p), Seq::empty()),
            Some(name) => match parent_of(p) {
                Some(par) => if par.len() > 0 {
                    (joined(base, par), name)
                } else {
                    (base, name)
                },
                None => (base, name),
            },
        }
    }
}

pub open spec fn is_separator(c: char) -> bool {
    c == '/' || c == '\\'
}

/// `p` without its trailing `/` and `\` characters.
pub open spec fn strip_trailing_separators(p: Seq<char>) -> Seq<char>
    decreases p.len(),
{
    if p.len() > 0 && is_separator(p.last()) {
        strip_trailing_separators(p.drop_last())
    } else {
        p
    }
}

/// Where to look for `raw` typed relative to `base`: a path ending in a
/// separator names the directory itself (the file system root where only
/// separators were typed); any other path is split into directory and
/// fragment.
pub open spec fn root_from_base(base: Seq<char>, raw: Seq<char>) -> (Seq<char>, Seq<char>) {
    if raw.len() == 0 {
        (base, Seq::empty())
    } else if is_separator(raw.last()) {
        let t = strip_trailing_separators(raw);
        if t.len() == 0 {
            ("/"@, Seq::empty())
        } else if is_absolute(t) {
            (t, Seq::empty())
        } else {
            (joined(base, t), Seq::empty())
        }
    } else {
        fragment_root(base, raw)
    }
}

/// Where the picker looks for the trimmed `raw`: `~` and `~/...` start at
/// the home directory (`~` itself where none is known), anything else at
/// `base`.
pub open spec fn search_root(base: Seq<char>, raw: Seq<char>, home: Option<Seq<char>>) -> (Seq<char>, Seq<char>) {
    let r = trim(raw);
    let h = match home {
        Some(h) => h,
        None => "~"@,
    };
    if r.len() == 0 {
        (base, Seq::empty())
    } else if r == "~"@ {
        (h, Seq::empty())
    } else if starts_with(r, "~/"@) {
        root_from_base(h, r.skip(2))
    } else {
        root_from_base(base, r)
    }
}

fn resolve_path_fragment(base: &str, p: &str) -> (r: (String, String))
    ensures
        (r.0@, r.1@) == fragment_root(base@, p@),
{
    if to_chars(p).len() == 0 {
        return (owned(base), String::new());
    }
    match file_name(p) {
        None => (join_path(base, p), String::new()),
        Some(name) => match parent(p) {
            Some(par) => {
                if to_chars(par.as_str()).len() > 0 {
                    (join_path(base, par.as_str()), name)
                } else {
                    (owned(base), name)
                }
            },
            None => (owned(base), name),
        },
    }
}

fn resolve_search_root_from_base(base: &str, raw: &str) -> (r: (String, String))
    ensures
        (r.0@, r.1@) == root_from_base(base@, raw@),
{
    let chars = to_chars(raw);
    if chars.len() == 0 {
        return (owned(base), String::new());
    }
    let last = chars[chars.len() - 1];
    if last == '/' || last == '\\' {
        let mut n = chars.len();
        assert(chars@.take(n as int) =~= chars@);
        while n > 0 && (chars[n - 1] == '/' || chars[n - 1] == '\\')
            invariant
                n <= chars@.len(),
                chars@ == raw@,
                strip_trailing_separators(chars@) == strip_trailing_separators(chars@.take(n as int)),
            decreases n,
        {
            assert(chars@.take(n as int).drop_last() =~= chars@.take(n - 1));
            n -= 1;
        }
        let t = crate::text::from_char_range(&chars, 0, n);
        assert(t@ == strip_trailing_separators(raw@));
        if n == 0 {
            return (owned("/"), String::new());
        }
        if chars[0] == '/' {
            return (t, String::new());
        }
        return (join_path(base, t.as_str()), String::new());
    }
    resolve_path_fragment(base, raw)
}

/// The directory the picker lists for the `@path` text `raw`, and the name
/// fragment to match in it.
pub fn resolve_attachment_search_root(base: &str, raw: &str, home: Option<&str>) -> (r: (String, String))
    ensures
        (r.0@, r.1@) == search_root(
            base@,
            raw@,
            match home {
                Some(h) => Some(h@),
                None => None,
            },
        ),
{
    let r = from_chars(&trim_vec(&to_chars(raw)));
    let rc = to_chars(r.as_str());
    let h = match home {
        Some(h) => owned(h),
        None => owned("~"),
    };
    proof {
        reveal_strlit("~");
        reveal_strlit("~/");
    }
    if rc.len() == 0 {
        return (owned(base), String::new());
    }
    if crate::text::eq_str(&rc, "~") {
        return (h, String::new());
    }
    if starts_with_chars(&rc, &to_chars("~/")) {
        let rest = crate::text::from_char_range(&rc, 2, rc.len());
        assert(rest@ =~= r@.skip(2));
        return resolve_search_root_from_base(h.as_str(), rest.as_str());
    }
    resolve_search_root_from_base(base, r.as_str())
}

} // verus!
