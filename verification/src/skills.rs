//! Local skills: their names, descriptions and the hosts they may come from.
use vstd::prelude::*;

use crate::text::{
    from_chars, is_ascii_alnum, is_ws, lines, lower_char, owned, slice_vec, split_lines, starts_with,
    starts_with_chars, to_chars, trim, trim_vec,
};

verus! {

/// An installed skill: its name, description, file and text.
#[derive(Debug, Clone)]
pub struct InstalledSkill {
    pub name: String,
    pub description: String,
    pub path: String,
    pub content: String,
}

/// The characters of a skill name before the outer dashes are cut, and
/// whether the last one written was a dash: ASCII letters and digits are
/// kept in lower case, and each run of `-`, `_` and white space becomes
/// one dash; other characters are dropped.
pub open spec fn skill_chars(s: Seq<char>) -> (Seq<char>, bool)
    decreases s.len(),
{
    if s.len() == 0 {
        (Seq::empty(), false)
    } else {
        let (o, d) = skill_chars(s.drop_last());
        let c = s.last();
        if is_ascii_alnum(c) {
            (o.push(lower_char(c)), false)
        } else if (c == '-' || c == '_' || is_ws(c)) && !d {
            (o.push('-'), true)
        } else {
            (o, d)
        }
    }
}

/// `s` without leading and trailing dashes.
pub open spec fn strip_dashes(s: Seq<char>) -> Seq<char>
    decreases s.len(),
{
    if s.len() > 0 && s[0] == '-' {
        strip_dashes(s.drop_first())
    } else if s.len() > 0 && s.last() == '-' {
        strip_dashes(s.drop_last())
    } else {
        s
    }
}

/// What `normalize_skill_name` gives.
pub open spec fn skill_name_of(value: Seq<char>) -> Seq<char> {
    strip_dashes(skill_chars(trim(value)).0)
}

fn strip_dashes_vec(v: &Vec<char>) -> (r: Vec<char>)
    ensures
        r@ == strip_dashes(v@),
{
    let mut a: usize = 0;
    let mut b = v.len();
    assert(v@.subrange(0, v@.len() as int) =~= v@);
    while a < b && (v[a] == '-' || v[b - 1] == '-')
        invariant
            a <= b <= v@.len(),
            strip_dashes(v@) == strip_dashes(v@.subrange(a as int, b as int)),
        decreases b - a,
    {
        let ghost s = v@.subrange(a as int, b as int);
        if v[a] == '-' {
            assert(s[0] == v@[a as int]);
            assert(s.drop_first() =~= v@.subrange(a + 1, b as int));
            a += 1;
        } else {
            assert(s[0] == v@[a as int]);
            assert(s.last() == v@[b - 1]);
            assert(s.drop_last() =~= v@.subrange(a as int, b - 1));
            b -= 1;
        }
    }
    proof {
        let s = v@.subrange(a as int, b as int);
        if s.len() > 0 {
            assert(s[0] == v@[a as int]);
            assert(s.last() == v@[b - 1]);
        }
    }
    slice_vec(v.as_slice(), a, b)
}

/// A skill name made of lower-case ASCII letters, digits and single dashes.
pub fn normalize_skill_name(value: &str) -> (r: String)
    ensures
        r@ == skill_name_of(value@),
{
    let chars = trim_vec(&to_chars(value));
    let mut out: Vec<char> = Vec::new();
    let mut prev_dash = false;
    let mut i: usize = 0;
    while i < chars.len()
        invariant
            i <= chars@.len(),
            (out@, prev_dash) == skill_chars(chars@.take(i as int)),
        decreases chars@.len() - i,
    {
        assert(chars@.take(i + 1).drop_last() =~= chars@.take(i as int));
        assert(chars@.take(i + 1).last() == chars@[i as int]);
        let c = chars[i];
        if crate::text::is_ascii_alphanumeric(c) {
            out.push(crate::text::to_lower_char(c));
            prev_dash = false;
        } else if (c == '-' || c == '_' || crate::text::is_whitespace(c)) && !prev_dash {
            out.push('-');
            prev_dash = true;
        }
        i += 1;
    }
    assert(chars@.take(i as int) =~= chars@);
    from_chars(&strip_dashes_vec(&out))
}

/// The text after `# ` of the first trimmed line that starts with it.
pub open spec fn first_heading(ls: Seq<Seq<char>>) -> Option<Seq<char>>
    decreases ls.len(),
{
    if ls.len() == 0 {
        None
    } else if starts_with(trim(ls[0]), "# "@) {
        Some(trim(ls[0]).skip(2))
    } else {
        first_heading(ls.drop_first())
    }
}

/// What `infer_skill_name` gives: the normalized first heading, or the
/// normalized fallback where there is none or it normalizes to nothing.
pub open spec fn inferred_name(content: Seq<char>, fallback: Seq<char>) -> Seq<char> {
    let heading = match first_heading(lines(content)) {
        Some(h) => h,
        None => fallback,
    };
    if skill_name_of(heading).len() == 0 {
        skill_name_of(fallback)
    } else {
        skill_name_of(heading)
    }
}

fn heading_of(content: &str) -> (r: Option<Vec<char>>)
    ensures
        match r {
            Some(h) => first_heading(lines(content@)) == Some(h@),
            None => first_heading(lines(content@)) is None,
        },
{
    let all = split_lines(content);
    let ghost ls = all@.map_values(|l: Vec<char>| l@);
    let marker = to_chars("# ");
    let mut i: usize = 0;
    assert(ls.skip(0) =~= ls);
    while i < all.len()
        invariant
            i <= all@.len(),
            ls == all@.map_values(|l: Vec<char>| l@),
            ls == lines(content@),
            marker@ == "# "@,
            first_heading(ls) == first_heading(ls.skip(i as int)),
        decreases all@.len() - i,
    {
        assert(ls.skip(i as int)[0] == all@[i as int]@);
        let t = trim_vec(all[i].as_slice());
        if starts_with_chars(&t, &marker) {
            proof {
                reveal_strlit("# ");
                assert(t@.subrange(2, t@.len() as int) =~= t@.skip(2));
                assert(first_heading(ls.skip(i as int)) == Some(trim(ls.skip(i as int)[0]).skip(2)));
            }
            return Some(slice_vec(&t, 2, t.len()));
        }
        assert(ls.skip(i as int).drop_first() =~= ls.skip(i + 1));
        i += 1;
    }
    None
}

pub fn infer_skill_name(content: &str, fallback: &str) -> (r: String)
    ensures
        r@ == inferred_name(content@, fallback@),
{
    let heading = match heading_of(content) {
        Some(h) => from_chars(&h),
        None => owned(fallback),
    };
    let normalized = normalize_skill_name(heading.as_str());
    if to_chars(normalized.as_str()).len() == 0 {
        normalize_skill_name(fallback)
    } else {
        normalized
    }
}

/// The first trimmed line that is neither blank nor a `# ` heading.
pub open spec fn first_text_line(ls: Seq<Seq<char>>) -> Option<Seq<char>>
    decreases ls.len(),
{
    if ls.len() == 0 {
        None
    } else if trim(ls[0]).len() > 0 && !starts_with(trim(ls[0]), "# "@) {
        Some(trim(ls[0]))
    } else {
        first_text_line(ls.drop_first())
    }
}

/// What `infer_description` gives: that line, or `No description`, cut to
/// 120 characters.
pub open spec fn inferred_description(content: Seq<char>) -> Seq<char> {
    let d = match first_text_line(lines(content)) {
        Some(l) => l,
        None => "No description"@,
    };
    if d.len() <= 120 {
        d
    } else {
        d.take(120)
    }
}

fn text_line_of(content: &str) -> (r: Option<Vec<char>>)
    ensures
        match r {
            Some(l) => first_text_line(lines(content@)) == Some(l@),
            None => first_text_line(lines(content@)) is None,
        },
{
    let all = split_lines(content);
    let ghost ls = all@.map_values(|l: Vec<char>| l@);
    let marker = to_chars("# ");
    let mut i: usize = 0;
    assert(ls.skip(0) =~= ls);
    while i < all.len()
        invariant
            i <= all@.len(),
            ls == all@.map_values(|l: Vec<char>| l@),
            ls == lines(content@),
            marker@ == "# "@,
            first_text_line(ls) == first_text_line(ls.skip(i as int)),
        decreases all@.len() - i,
    {
        assert(ls.skip(i as int)[0] == all@[i as int]@);
        let t = trim_vec(all[i].as_slice());
        if t.len() > 0 && !starts_with_chars(&t, &marker) {
            assert(first_text_line(ls.skip(i as int)) == Some(trim(ls.skip(i as int)[0])));
            return Some(t);
        }
        assert(ls.skip(i as int).drop_first() =~= ls.skip(i + 1));
        i += 1;
    }
    None
}

pub fn infer_description(content: &str) -> (r: String)
    ensures
        r@ == inferred_description(content@),
{
    let d = match text_line_of(content) {
        Some(t) => t,
        None => to_chars("No description"),
    };
    let n = if d.len() <= 120 {
        d.len()
    } else {
        120
    };
    let r = from_chars(&slice_vec(&d, 0, n));
    assert(d@.subrange(0, n as int) == if d@.len() <= 120 { d@ } else { d@.take(120) });
    r
}

/// The skill that a file holds: named by its heading or file name, described
/// by its first line of text.
pub fn skill_from_content(content: String, fallback_name: &str, path: String) -> (r: InstalledSkill)
    ensures
        r.name@ == inferred_name(content@, fallback_name@),
        r.description@ == inferred_description(content@),
        r.path == path,
        r.content == content,
{
    let name = infer_skill_name(content.as_str(), fallback_name);
    let description = infer_description(content.as_str());
    InstalledSkill { name, description, path, content }
}

/// Whether a skill may be downloaded from `host`: the remote host policy
/// of the library.
pub fn is_allowed_skill_host(host: &str) -> (r: bool)
    ensures
        r == crate::host_policy::host_allowed(host@),
{
    crate::host_policy::is_allowed_remote_host(host)
}

pub open spec fn is_name_char(c: char) -> bool {
    ||| ('0' <= c && c <= '9')
    ||| ('a' <= c && c <= 'z')
    ||| c == '-'
}

/// Lower-case letters, digits and dashes, never two dashes in a row.
pub open spec fn dash_separated(s: Seq<char>) -> bool {
    &&& forall|i: int| 0 <= i < s.len() ==> is_name_char(#[trigger] s[i])
    &&& forall|i: int| 0 < i < s.len() ==> !(#[trigger] s[i] == '-' && s[i - 1] == '-')
}

/// A well-formed skill name: dash-separated, with no dash at either end.
pub open spec fn clean_skill_name(s: Seq<char>) -> bool {
    &&& dash_separated(s)
    &&& s.len() > 0 ==> s[0] != '-' && s.last() != '-'
}

proof fn lemma_skill_chars_shape(s: Seq<char>)
    ensures
        dash_separated(skill_chars(s).0),
        skill_chars(s).1 == (skill_chars(s).0.len() > 0 && skill_chars(s).0.last() == '-'),
    decreases s.len(),
{
    if s.len() > 0 {
        lemma_skill_chars_shape(s.drop_last());
        let (o, d) = skill_chars(s.drop_last());
        let c = s.last();
        if is_ascii_alnum(c) {
            let n = o.push(lower_char(c));
            assert forall|i: int| 0 <= i < n.len() implies is_name_char(#[trigger] n[i]) by {
                if i < o.len() {
                    assert(n[i] == o[i]);
                }
            }
            assert forall|i: int| 0 < i < n.len() implies !(#[trigger] n[i] == '-' && n[i - 1] == '-') by {
                if i < o.len() {
                    assert(n[i] == o[i] && n[i - 1] == o[i - 1]);
                }
            }
        } else if (c == '-' || c == '_' || is_ws(c)) && !d {
            let n = o.push('-');
            assert forall|i: int| 0 <= i < n.len() implies is_name_char(#[trigger] n[i]) by {
                if i < o.len() {
                    assert(n[i] == o[i]);
                }
            }
            assert forall|i: int| 0 < i < n.len() implies !(#[trigger] n[i] == '-' && n[i - 1] == '-') by {
                if i < o.len() {
                    assert(n[i] == o[i] && n[i - 1] == o[i - 1]);
                } else {
                    assert(n[i - 1] == o.last());
                }
            }
        }
    }
}

proof fn lemma_strip_dashes_clean(s: Seq<char>)
    requires
        dash_separated(s),
    ensures
        clean_skill_name(strip_dashes(s)),
    decreases s.len(),
{
    if s.len() > 0 && s[0] == '-' {
        let t = s.drop_first();
        assert forall|i: int| 0 <= i < t.len() implies is_name_char(#[trigger] t[i]) by {
            assert(t[i] == s[i + 1]);
        }
        assert forall|i: int| 0 < i < t.len() implies !(#[trigger] t[i] == '-' && t[i - 1] == '-') by {
            assert(t[i] == s[i + 1] && t[i - 1] == s[i]);
        }
        lemma_strip_dashes_clean(t);
    } else if s.len() > 0 && s.last() == '-' {
        let t = s.drop_last();
        assert forall|i: int| 0 <= i < t.len() implies is_name_char(#[trigger] t[i]) by {
            assert(t[i] == s[i]);
        }
        assert forall|i: int| 0 < i < t.len() implies !(#[trigger] t[i] == '-' && t[i - 1] == '-') by {
            assert(t[i] == s[i] && t[i - 1] == s[i - 1]);
        }
        lemma_strip_dashes_clean(t);
    }
}

proof fn lemma_skill_chars_of_clean(y: Seq<char>)
    requires
        dash_separated(y),
        y.len() > 0 ==> y[0] != '-',
    ensures
        skill_chars(y) == (y, y.len() > 0 && y.last() == '-'),
    decreases y.len(),
{
    if y.len() > 0 {
        let p = y.drop_last();
        assert forall|i: int| 0 <= i < p.len() implies is_name_char(#[trigger] p[i]) by {
            assert(p[i] == y[i]);
        }
        assert forall|i: int| 0 < i < p.len() implies !(#[trigger] p[i] == '-' && p[i - 1] == '-') by {
            assert(p[i] == y[i] && p[i - 1] == y[i - 1]);
        }
        if p.len() > 0 {
            assert(p[0] == y[0]);
        }
        lemma_skill_chars_of_clean(p);
        let c = y.last();
        assert(is_name_char(y[y.len() - 1]));
        if c == '-' {
            assert(p.len() > 0);
            assert(!(y[y.len() - 1] == '-' && y[y.len() - 2] == '-'));
            assert(p.last() == y[y.len() - 2]);
            assert(!is_ascii_alnum(c));
        } else {
            assert(is_ascii_alnum(c));
            assert(lower_char(c) == c);
        }
        assert(p.push(c) =~= y);
    }
}

/// Normalizing a skill name twice gives what normalizing once gives: a
/// normalized name is its own normal form.
pub proof fn law_skill_name_idempotent(value: Seq<char>)
    ensures
        clean_skill_name(skill_name_of(value)),
        skill_name_of(skill_name_of(value)) == skill_name_of(value),
{
    lemma_skill_chars_shape(trim(value));
    let y = skill_name_of(value);
    lemma_strip_dashes_clean(skill_chars(trim(value)).0);
    if y.len() > 0 {
        assert(is_name_char(y[0]) && is_name_char(y[y.len() - 1]));
        assert(!is_ws(y[0]) && !is_ws(y.last()));
        assert(crate::text::trim_start(y) == y);
    } else {
        assert(crate::text::trim_start(y) == y);
    }
    assert(trim(y) == y);
    lemma_skill_chars_of_clean(y);
    assert(strip_dashes(y) == y);
}

/// The last part of a `/`-separated path that names something, skipping
/// empty parts and `.`.
pub open spec fn last_component(parts: Seq<Seq<char>>) -> Option<Seq<char>>
    decreases parts.len(),
{
    if parts.len() == 0 {
        None
    } else if parts.last().len() == 0 || parts.last() == "."@ {
        last_component(parts.drop_last())
    } else {
        Some(parts.last())
    }
}

/// `Path::file_name` for a `/`-separated path: its last part, unless that
/// is `..` or there is none.
pub open spec fn path_file_name(path: Seq<char>) -> Option<Seq<char>> {
    match last_component(crate::text::split_on(path, '/')) {
        Some(name) => if name == ".."@ {
            None
        } else {
            Some(name)
        },
        None => None,
    }
}

/// Where the last `.` of `name` before position `end` is.
pub open spec fn last_dot_before(name: Seq<char>, end: int) -> Option<int>
    decreases end,
{
    if end <= 0 {
        None
    } else if name[end - 1] == '.' {
        Some(end - 1)
    } else {
        last_dot_before(name, end - 1)
    }
}

/// `Path::file_stem` of a file name: the part before its last `.`, unless
/// that `.` begins the name.
pub open spec fn stem_of(name: Seq<char>) -> Seq<char> {
    match last_dot_before(name, name.len() as int) {
        Some(j) => if j > 0 {
            name.take(j)
        } else {
            name
        },
        None => name,
    }
}

/// The name a skill gets when its text has no heading: the stem of the last
/// part of its source, or `skill`.
pub open spec fn fallback_skill_name(source: Seq<char>) -> Seq<char> {
    match path_file_name(source) {
        Some(name) => stem_of(name),
        None => "skill"@,
    }
}

fn fallback_name_of(source: &str) -> (r: String)
    ensures
        r@ == fallback_skill_name(source@),
{
    let chars = to_chars(source);
    let parts = crate::text::split_chars(chars.as_slice(), '/');
    let ghost pv = parts@.map_values(|l: Vec<char>| l@);
    let dot = to_chars(".");
    let mut k = parts.len();
    proof {
        reveal_strlit(".");
        reveal_strlit("..");
        assert(pv.take(k as int) =~= pv);
    }
    while k > 0 && (parts[k - 1].len() == 0 || crate::text::chars_eq(parts[k - 1].as_slice(), dot.as_slice()))
        invariant
            k <= parts@.len(),
            pv == parts@.map_values(|l: Vec<char>| l@),
            dot@ == "."@,
            last_component(pv) == last_component(pv.take(k as int)),
        decreases k,
    {
        assert(pv.take(k as int).drop_last() =~= pv.take(k - 1));
        assert(pv.take(k as int).last() == parts@[k - 1]@);
        k -= 1;
    }
    if k == 0 {
        return owned("skill");
    }
    assert(pv.take(k as int).last() == parts@[k - 1]@);
    let name = &parts[k - 1];
    if crate::text::eq_str(name.as_slice(), "..") {
        return owned("skill");
    }
    let mut j = name.len();
    while j > 0 && name[j - 1] != '.'
        invariant
            j <= name@.len(),
            last_dot_before(name@, name@.len() as int) == last_dot_before(name@, j as int),
        decreases j,
    {
        j -= 1;
    }
    if j > 1 {
        from_chars(&slice_vec(name.as_slice(), 0, j - 1))
    } else {
        from_chars(name.as_slice())
    }
}

/// Where a skill is installed from: a URL to fetch or a local file to read,
/// with the name it gets when its text has no heading.
#[derive(Debug, Clone, PartialEq, Eq)]
pub enum SkillSource {
    Remote { url: String, fallback_name: String },
    Local { path: String, fallback_name: String },
}

/// Why a skill source is refused.
#[derive(Debug, Clone, PartialEq, Eq)]
pub enum SkillSourceError {
    Empty,
    InvalidUrl(String),
    UnsupportedScheme,
    DisallowedHost(String),
}

impl SkillSourceError {
    pub fn message(&self) -> (r: String)
        ensures
            r@ == match self {
                SkillSourceError::Empty => "skill source cannot be empty"@,
                SkillSourceError::InvalidUrl(s) => "invalid URL: "@ + s@,
                SkillSourceError::UnsupportedScheme => "only http(s) URLs are supported for skill installation"@,
                SkillSourceError::DisallowedHost(h) => "internal/private hosts are not allowed for skill installation: "@
                    + h@,
            },
    {
        match self {
            SkillSourceError::Empty => owned("skill source cannot be empty"),
            SkillSourceError::InvalidUrl(s) => {
                let mut m = owned("invalid URL: ");
                crate::text::push_str(&mut m, s.as_str());
                m
            },
            SkillSourceError::UnsupportedScheme => owned("only http(s) URLs are supported for skill installation"),
            SkillSourceError::DisallowedHost(h) => {
                let mut m = owned("internal/private hosts are not allowed for skill installation: ");
                crate::text::push_str(&mut m, h.as_str());
                m
            },
        }
    }
}

pub ghost enum SkillSourceView {
    Remote { url: Seq<char>, fallback_name: Seq<char> },
    Local { path: Seq<char>, fallback_name: Seq<char> },
}

pub ghost enum SkillSourceErrorView {
    Empty,
    InvalidUrl(Seq<char>),
    UnsupportedScheme,
    DisallowedHost(Seq<char>),
}

pub open spec fn source_view(s: SkillSource) -> SkillSourceView {
    match s {
        SkillSource::Remote { url, fallback_name } => SkillSourceView::Remote { url: url@, fallback_name: fallback_name@ },
        SkillSource::Local { path, fallback_name } => SkillSourceView::Local { path: path@, fallback_name: fallback_name@ },
    }
}

pub open spec fn source_error_view(e: SkillSourceError) -> SkillSourceErrorView {
    match e {
        SkillSourceError::Empty => SkillSourceErrorView::Empty,
        SkillSourceError::InvalidUrl(s) => SkillSourceErrorView::InvalidUrl(s@),
        SkillSourceError::UnsupportedScheme => SkillSourceErrorView::UnsupportedScheme,
        SkillSourceError::DisallowedHost(h) => SkillSourceErrorView::DisallowedHost(h@),
    }
}

/// Where a skill source leads: blank sources are refused; sources starting
/// with `http://` or `https://` must parse as URLs of those schemes whose
/// host, if any, the host policy allows; anything else is a local path.
pub open spec fn skill_source_spec(spec: Seq<char>) -> Result<SkillSourceView, SkillSourceErrorView> {
    let s = trim(spec);
    if s.len() == 0 {
        Err(SkillSourceErrorView::Empty)
    } else if starts_with(s, "http://"@) || starts_with(s, "https://"@) {
        match crate::config::url_parts_of(s) {
            None => Err(SkillSourceErrorView::InvalidUrl(s)),
            Some(parts) => if !(parts.0 == "http"@ || parts.0 == "https"@) {
                Err(SkillSourceErrorView::UnsupportedScheme)
            } else {
                match parts.1 {
                    Some(host) => if !crate::host_policy::host_allowed(host) {
                        Err(SkillSourceErrorView::DisallowedHost(host))
                    } else {
                        Ok(SkillSourceView::Remote { url: s, fallback_name: fallback_skill_name(s) })
                    },
                    None => Ok(SkillSourceView::Remote { url: s, fallback_name: fallback_skill_name(s) }),
                }
            },
        }
    } else {
        Ok(SkillSourceView::Local { path: s, fallback_name: fallback_skill_name(s) })
    }
}

/// Decides where a skill is installed from.
pub fn plan_skill_source(spec: &str) -> (r: Result<SkillSource, SkillSourceError>)
    ensures
        match r {
            Ok(s) => skill_source_spec(spec@) == Ok::<SkillSourceView, SkillSourceErrorView>(source_view(s)),
            Err(e) => skill_source_spec(spec@) == Err::<SkillSourceView, SkillSourceErrorView>(source_error_view(e)),
        },
{
    let trimmed = trim_vec(&to_chars(spec));
    let s = from_chars(&trimmed);
    if trimmed.len() == 0 {
        return Err(SkillSourceError::Empty);
    }
    let remote = starts_with_chars(&trimmed, &to_chars("http://")) || starts_with_chars(&trimmed, &to_chars("https://"));
    if !remote {
        let fallback_name = fallback_name_of(s.as_str());
        return Ok(SkillSource::Local { path: s, fallback_name });
    }
    match crate::config::parse_url_parts(s.as_str()) {
        None => Err(SkillSourceError::InvalidUrl(s)),
        Some((scheme, host)) => {
            let sc = to_chars(scheme.as_str());
            if !(crate::text::eq_str(&sc, "http") || crate::text::eq_str(&sc, "https")) {
                return Err(SkillSourceError::UnsupportedScheme);
            }
            match host {
                Some(h) => {
                    if !crate::host_policy::is_allowed_remote_host(h.as_str()) {
                        return Err(SkillSourceError::DisallowedHost(h));
                    }
                },
                None => {},
            }
            let fallback_name = fallback_name_of(s.as_str());
            Ok(SkillSource::Remote { url: s, fallback_name })
        },
    }
}

/// The most bytes that a downloaded skill may have.
pub const MAX_SKILL_SIZE_BYTES: usize = 262144;

/// Why a downloaded skill is refused.
#[derive(Debug, Clone, Copy, PartialEq, Eq, Structural)]
pub enum SkillDownloadError {
    TooLarge,
    NotUtf8,
}

/// The text of a downloaded skill: refused where it is larger than the
/// limit or is not UTF-8.
pub fn skill_text_from_download(body: &[u8]) -> (r: Result<String, SkillDownloadError>)
    ensures
        body@.len() > MAX_SKILL_SIZE_BYTES ==> r == Err::<String, SkillDownloadError>(SkillDownloadError::TooLarge),
        body@.len() <= MAX_SKILL_SIZE_BYTES ==> match crate::config::utf8_text(body@) {
            Some(t) => r matches Ok(s) && s@ == t,
            None => r == Err::<String, SkillDownloadError>(SkillDownloadError::NotUtf8),
        },
{
    if body.len() > MAX_SKILL_SIZE_BYTES {
        return Err(SkillDownloadError::TooLarge);
    }
    match crate::config::decode_utf8(body) {
        Ok(text) => Ok(text),
        Err(_) => Err(SkillDownloadError::NotUtf8),
    }
}

} // verus!
