//! Character-level text primitives shared by the parsers and editors of the
//! library. Every operation works on `char` sequences, so the contracts speak
//! of `Seq<char>` (the view of `String` and `str`).
use vstd::prelude::*;

verus! {

/// Unicode `White_Space`, the set that `char::is_whitespace` answers for.
pub open spec fn is_ws(c: char) -> bool {
    let u = c as u32;
    ||| u == 0x20
    ||| (0x09 <= u && u <= 0x0d)
    ||| u == 0x85
    ||| u == 0xa0
    ||| u == 0x1680
    ||| (0x2000 <= u && u <= 0x200a)
    ||| u == 0x2028
    ||| u == 0x2029
    ||| u == 0x202f
    ||| u == 0x205f
    ||| u == 0x3000
}

pub open spec fn has_ws(s: Seq<char>) -> bool {
    exists|i: int| 0 <= i < s.len() && is_ws(#[trigger] s[i])
}

/// The sequence without its leading white space.
pub open spec fn trim_start(s: Seq<char>) -> Seq<char>
    decreases s.len(),
{
    if s.len() > 0 && is_ws(s[0]) {
        trim_start(s.drop_first())
    } else {
        s
    }
}

/// The sequence without its trailing white space.
pub open spec fn trim_end(s: Seq<char>) -> Seq<char>
    decreases s.len(),
{
    if s.len() > 0 && is_ws(s.last()) {
        trim_end(s.drop_last())
    } else {
        s
    }
}

/// `str::trim`: the sequence without leading and trailing white space.
pub open spec fn trim(s: Seq<char>) -> Seq<char> {
    trim_end(trim_start(s))
}

pub open spec fn is_upper(c: char) -> bool {
    'A' <= c && c <= 'Z'
}

/// `char::to_ascii_lowercase`.
pub open spec fn lower_char(c: char) -> char {
    if is_upper(c) {
        ((c as u32) + 32) as char
    } else {
        c
    }
}

/// `str::to_ascii_lowercase`.
pub open spec fn lower(s: Seq<char>) -> Seq<char> {
    s.map_values(|c: char| lower_char(c))
}

pub open spec fn is_digit(c: char) -> bool {
    '0' <= c && c <= '9'
}

pub open spec fn is_ascii_alnum(c: char) -> bool {
    ||| is_digit(c)
    ||| ('a' <= c && c <= 'z')
    ||| ('A' <= c && c <= 'Z')
}

pub open spec fn starts_with(s: Seq<char>, prefix: Seq<char>) -> bool {
    prefix.len() <= s.len() && s.take(prefix.len() as int) == prefix
}

pub open spec fn ends_with(s: Seq<char>, suffix: Seq<char>) -> bool {
    suffix.len() <= s.len() && s.skip(s.len() - suffix.len()) == suffix
}

/// `needle` occurs in `haystack` at position `i`.
pub open spec fn occurs_at(haystack: Seq<char>, needle: Seq<char>, i: int) -> bool {
    0 <= i && i + needle.len() <= haystack.len() && haystack.subrange(i, i + needle.len())
        == needle
}

/// `str::contains` for a string pattern.
pub open spec fn contains(haystack: Seq<char>, needle: Seq<char>) -> bool {
    exists|i: int| occurs_at(haystack, needle, i)
}

/// Number of leading characters that are not white space.
pub open spec fn token_len(s: Seq<char>) -> nat
    decreases s.len(),
{
    if s.len() == 0 || is_ws(s[0]) {
        0
    } else {
        1 + token_len(s.drop_first())
    }
}

/// First item of `s.splitn(2, char::is_whitespace)`.
pub open spec fn head_token(s: Seq<char>) -> Seq<char> {
    s.take(token_len(s) as int)
}

/// Second item of `s.splitn(2, char::is_whitespace)`, or the empty sequence.
pub open spec fn after_token(s: Seq<char>) -> Seq<char> {
    if token_len(s) < s.len() {
        s.skip(token_len(s) + 1int)
    } else {
        Seq::empty()
    }
}

/// `str::split_whitespace`: the maximal runs of non-white-space characters.
pub open spec fn words(s: Seq<char>) -> Seq<Seq<char>>
    decreases s.len(),
{
    let t = trim_start(s);
    if t.len() == 0 {
        Seq::empty()
    } else {
        proof {
            lemma_trim_start_len(s);
            lemma_token_len(t);
        }
        seq![head_token(t)] + words(t.skip(token_len(t) as int))
    }
}

/// Value of a non-empty run of decimal digits.
pub open spec fn digits_value(s: Seq<char>) -> nat
    decreases s.len(),
{
    if s.len() == 0 {
        0
    } else {
        digits_value(s.drop_last()) * 10 + ((s.last() as u32) - ('0' as u32)) as nat
    }
}

pub open spec fn all_digits(s: Seq<char>) -> bool {
    forall|i: int| 0 <= i < s.len() ==> is_digit(#[trigger] s[i])
}

/// `<usize as FromStr>::from_str`: an optional `+`, then at least one decimal
/// digit, with a value that fits in `usize`.
pub open spec fn parse_usize_spec(s: Seq<char>) -> Option<usize> {
    let d = if s.len() > 0 && s[0] == '+' {
        s.drop_first()
    } else {
        s
    };
    if d.len() > 0 && all_digits(d) && digits_value(d) <= usize::MAX {
        Some(digits_value(d) as usize)
    } else {
        None
    }
}

pub open spec fn digit_char(d: nat) -> char {
    if d == 0 {
        '0'
    } else if d == 1 {
        '1'
    } else if d == 2 {
        '2'
    } else if d == 3 {
        '3'
    } else if d == 4 {
        '4'
    } else if d == 5 {
        '5'
    } else if d == 6 {
        '6'
    } else if d == 7 {
        '7'
    } else if d == 8 {
        '8'
    } else {
        '9'
    }
}

/// Decimal rendering of a natural number, as `Display` writes it.
pub open spec fn decimal(n: nat) -> Seq<char>
    decreases n,
{
    if n < 10 {
        seq![digit_char(n)]
    } else {
        decimal(n / 10).push(digit_char(n % 10))
    }
}

/// Decimal rendering of a signed integer, as `Display` writes it.
pub open spec fn signed_decimal(n: int) -> Seq<char> {
    if n < 0 {
        seq!['-'] + decimal((-n) as nat)
    } else {
        decimal(n as nat)
    }
}

/// Concatenation of `parts` with `sep` between consecutive parts.
pub open spec fn join(parts: Seq<Seq<char>>, sep: Seq<char>) -> Seq<char>
    decreases parts.len(),
{
    if parts.len() == 0 {
        Seq::empty()
    } else if parts.len() == 1 {
        parts[0]
    } else {
        join(parts.drop_last(), sep) + sep + parts.last()
    }
}

pub proof fn lemma_decimal_len(n: nat)
    ensures
        decimal(n).len() >= 1,
        n >= 10 ==> decimal(n).len() >= 2,
        n < 10 ==> decimal(n).len() == 1,
    decreases n,
{
    if n >= 10 {
        lemma_decimal_len(n / 10);
    }
}

/// Distinct numbers have distinct decimal renderings.
pub proof fn lemma_decimal_injective(a: nat, b: nat)
    requires
        decimal(a) == decimal(b),
    ensures
        a == b,
    decreases a,
{
    lemma_decimal_len(a);
    lemma_decimal_len(b);
    if a >= 10 && b >= 10 {
        assert(decimal(a).last() == digit_char(a % 10));
        assert(decimal(b).last() == digit_char(b % 10));
        assert(decimal(a).drop_last() == decimal(a / 10));
        assert(decimal(b).drop_last() == decimal(b / 10));
        lemma_decimal_injective(a / 10, b / 10);
    } else if a < 10 && b < 10 {
        assert(decimal(a)[0] == digit_char(a));
        assert(decimal(b)[0] == digit_char(b));
    }
}

/// The views of a vector of strings.
pub open spec fn string_views(v: Seq<String>) -> Seq<Seq<char>> {
    v.map_values(|s: String| s@)
}

pub proof fn lemma_trim_start_len(s: Seq<char>)
    ensures
        trim_start(s).len() <= s.len(),
        trim_start(s) == s.skip(s.len() - trim_start(s).len()),
        trim_start(s).len() == 0 || !is_ws(trim_start(s)[0]),
        forall|k: int| 0 <= k < s.len() - trim_start(s).len() ==> is_ws(#[trigger] s[k]),
    decreases s.len(),
{
    if s.len() > 0 && is_ws(s[0]) {
        lemma_trim_start_len(s.drop_first());
        let t = trim_start(s.drop_first());
        assert(s.drop_first().skip(s.drop_first().len() - t.len()) == s.skip(s.len() - t.len()));
        assert forall|k: int| 0 <= k < s.len() - trim_start(s).len() implies is_ws(
            #[trigger] s[k],
        ) by {
            if k > 0 {
                assert(s[k] == s.drop_first()[k - 1]);
            }
        }
    } else {
        assert(s.skip(0) == s);
    }
}

pub proof fn lemma_trim_end_len(s: Seq<char>)
    ensures
        trim_end(s).len() <= s.len(),
        trim_end(s) == s.take(trim_end(s).len() as int),
        trim_end(s).len() == 0 || !is_ws(trim_end(s).last()),
        forall|k: int| trim_end(s).len() <= k < s.len() ==> is_ws(#[trigger] s[k]),
    decreases s.len(),
{
    if s.len() > 0 && is_ws(s.last()) {
        lemma_trim_end_len(s.drop_last());
        let t = trim_end(s.drop_last());
        assert(s.drop_last().take(t.len() as int) == s.take(t.len() as int));
        assert forall|k: int| trim_end(s).len() <= k < s.len() implies is_ws(#[trigger] s[k]) by {
            if k < s.len() - 1 {
                assert(s[k] == s.drop_last()[k]);
            }
        }
    } else {
        assert(s.take(s.len() as int) == s);
    }
}

pub proof fn lemma_token_len(s: Seq<char>)
    ensures
        token_len(s) <= s.len(),
        s.len() > 0 && !is_ws(s[0]) ==> token_len(s) >= 1,
        token_len(s) < s.len() ==> is_ws(s[token_len(s) as int]),
        forall|k: int| 0 <= k < token_len(s) ==> !is_ws(#[trigger] s[k]),
    decreases s.len(),
{
    if s.len() == 0 || is_ws(s[0]) {
    } else {
        lemma_token_len(s.drop_first());
        assert forall|k: int| 0 <= k < token_len(s) implies !is_ws(#[trigger] s[k]) by {
            if k > 0 {
                assert(s[k] == s.drop_first()[k - 1]);
            }
        }
        if token_len(s) < s.len() {
            assert(s[token_len(s) as int] == s.drop_first()[token_len(s.drop_first()) as int]);
        }
    }
}

/// Leading white space does not change `trim_start`.
proof fn lemma_trim_start_skip(s: Seq<char>, i: int)
    requires
        0 <= i <= s.len(),
        forall|k: int| 0 <= k < i ==> is_ws(#[trigger] s[k]),
    ensures
        trim_start(s) == trim_start(s.skip(i)),
    decreases i,
{
    if i == 0 {
        assert(s.skip(0) == s);
    } else {
        assert(is_ws(s[0]));
        assert(s.drop_first().skip(i - 1) == s.skip(i));
        assert forall|k: int| 0 <= k < i - 1 implies is_ws(#[trigger] s.drop_first()[k]) by {
            assert(s.drop_first()[k] == s[k + 1]);
        }
        lemma_trim_start_skip(s.drop_first(), i - 1);
    }
}

/// Trailing white space does not change `trim_end`.
proof fn lemma_trim_end_take(s: Seq<char>, j: int)
    requires
        0 <= j <= s.len(),
        forall|k: int| j <= k < s.len() ==> is_ws(#[trigger] s[k]),
    ensures
        trim_end(s) == trim_end(s.take(j)),
    decreases s.len() - j,
{
    if j == s.len() {
        assert(s.take(j) == s);
    } else {
        assert(is_ws(s.last()));
        assert(s.drop_last().take(j) == s.take(j));
        assert forall|k: int| j <= k < s.drop_last().len() implies is_ws(
            #[trigger] s.drop_last()[k],
        ) by {
            assert(s.drop_last()[k] == s[k]);
        }
        lemma_trim_end_take(s.drop_last(), j);
    }
}

/// The characters of a string.
pub fn to_chars(s: &str) -> (v: Vec<char>)
    ensures
        v@ == s@,
{
    let mut v: Vec<char> = Vec::new();
    for c in it: s.chars()
        invariant
            v@ == it.seq().take(it.index() as int),
            it.seq() == s@,
    {
        v.push(c);
    }
    v
}

/// `String::push`.
#[verifier::external_body]
fn string_push(s: &mut String, c: char)
    ensures
        final(s)@ == old(s)@.push(c),
{
    s.push(c);
}

/// `str::trim`: the slice without leading and trailing Unicode white space.
#[verifier::external_body]
pub(crate) fn str_trim(s: &str) -> (r: &str)
    ensures
        r@ == trim(s@),
{
    s.trim()
}

/// A string made of the given characters.
pub fn from_chars(v: &[char]) -> (s: String)
    ensures
        s@ == v@,
{
    let mut s = String::new();
    let mut i: usize = 0;
    while i < v.len()
        invariant
            i <= v.len(),
            s@ == v@.take(i as int),
        decreases v.len() - i,
    {
        string_push(&mut s, v[i]);
        i += 1;
        assert(v@.take(i as int) == v@.take((i - 1) as int).push(v@[i - 1]));
    }
    assert(v@.take(v.len() as int) == v@);
    s
}

/// A string made of the characters `v[start..end]`.
pub fn from_char_range(v: &[char], start: usize, end: usize) -> (s: String)
    requires
        start <= end <= v.len(),
    ensures
        s@ == v@.subrange(start as int, end as int),
{
    let mut s = String::new();
    let mut i: usize = start;
    while i < end
        invariant
            start <= i <= end <= v.len(),
            s@ == v@.subrange(start as int, i as int),
        decreases end - i,
    {
        string_push(&mut s, v[i]);
        i += 1;
        assert(v@.subrange(start as int, i as int) == v@.subrange(start as int, i - 1).push(
            v@[i - 1],
        ));
    }
    s
}

/// Appends the characters of `s` to `out`.
pub fn push_str(out: &mut String, s: &str)
    ensures
        final(out)@ == old(out)@ + s@,
{
    let chars = to_chars(s);
    let mut i: usize = 0;
    while i < chars.len()
        invariant
            i <= chars.len(),
            chars@ == s@,
            out@ == old(out)@ + s@.take(i as int),
        decreases chars.len() - i,
    {
        string_push(out, chars[i]);
        i += 1;
        assert(s@.take(i as int) == s@.take((i - 1) as int).push(s@[i - 1]));
    }
    assert(s@.take(chars.len() as int) == s@);
}

/// Appends one character to `out`.
pub fn push_char(out: &mut String, c: char)
    ensures
        final(out)@ == old(out)@.push(c),
{
    string_push(out, c);
}

/// Appends the characters of `v` to `out`.
pub fn push_chars(out: &mut String, v: &[char])
    ensures
        final(out)@ == old(out)@ + v@,
{
    let mut i: usize = 0;
    while i < v.len()
        invariant
            i <= v.len(),
            out@ == old(out)@ + v@.take(i as int),
        decreases v.len() - i,
    {
        string_push(out, v[i]);
        i += 1;
        assert(v@.take(i as int) == v@.take((i - 1) as int).push(v@[i - 1]));
    }
    assert(v@.take(v.len() as int) == v@);
}

/// A copy of a string literal or slice.
pub fn owned(s: &str) -> (r: String)
    ensures
        r@ == s@,
{
    s.to_owned()
}

/// `char::is_whitespace`.
pub fn is_whitespace(c: char) -> (r: bool)
    ensures
        r == is_ws(c),
{
    let u = c as u32;
    u == 0x20 || (0x09 <= u && u <= 0x0d) || u == 0x85 || u == 0xa0 || u == 0x1680 || (0x2000
        <= u && u <= 0x200a) || u == 0x2028 || u == 0x2029 || u == 0x202f || u == 0x205f || u
        == 0x3000
}

/// `char::to_ascii_lowercase`.
pub fn to_lower_char(c: char) -> (r: char)
    ensures
        r == lower_char(c),
{
    if 'A' <= c && c <= 'Z' {
        let b = (c as u8) + 32;
        b as char
    } else {
        c
    }
}

/// `char::is_ascii_alphanumeric`.
pub fn is_ascii_alphanumeric(c: char) -> (r: bool)
    ensures
        r == is_ascii_alnum(c),
{
    ('0' <= c && c <= '9') || ('a' <= c && c <= 'z') || ('A' <= c && c <= 'Z')
}

/// The ASCII-lowercased characters of `v`.
pub fn lower_vec(v: &[char]) -> (r: Vec<char>)
    ensures
        r@ == lower(v@),
{
    let mut r: Vec<char> = Vec::new();
    let mut i: usize = 0;
    while i < v.len()
        invariant
            i <= v.len(),
            r@ == lower(v@.take(i as int)),
        decreases v.len() - i,
    {
        r.push(to_lower_char(v[i]));
        i += 1;
        assert(lower(v@.take(i as int)) == lower(v@.take((i - 1) as int)).push(
            lower_char(v@[i - 1]),
        ));
    }
    assert(v@.take(v.len() as int) == v@);
    r
}

/// Bounds `(start, end)` such that `v[start..end]` is `trim(v)`.
pub fn trim_range(v: &[char]) -> (r: (usize, usize))
    ensures
        r.0 <= r.1 <= v@.len(),
        v@.subrange(r.0 as int, r.1 as int) == trim(v@),
{
    let mut i: usize = 0;
    while i < v.len() && is_whitespace(v[i])
        invariant
            i <= v.len(),
            forall|k: int| 0 <= k < i ==> is_ws(#[trigger] v@[k]),
        decreases v.len() - i,
    {
        i += 1;
    }
    proof {
        lemma_trim_start_skip(v@, i as int);
        assert(trim_start(v@.skip(i as int)) == v@.skip(i as int));
    }
    let mut j: usize = v.len();
    while j > i && is_whitespace(v[j - 1])
        invariant
            i <= j <= v.len(),
            forall|k: int| j <= k < v.len() ==> is_ws(#[trigger] v@[k]),
        decreases j - i,
    {
        j -= 1;
    }
    proof {
        let t = v@.skip(i as int);
        assert forall|k: int| j - i <= k < t.len() implies is_ws(#[trigger] t[k]) by {
            assert(t[k] == v@[k + i]);
        }
        lemma_trim_end_take(t, j - i);
        assert(t.take(j - i) == v@.subrange(i as int, j as int));
    }
    (i, j)
}

/// `trim` on a character vector.
pub fn trim_vec(v: &[char]) -> (r: Vec<char>)
    ensures
        r@ == trim(v@),
{
    let (start, end) = trim_range(v);
    slice_vec(v, start, end)
}

/// `str::trim` on a string slice.
pub fn trim_str(s: &str) -> (r: Vec<char>)
    ensures
        r@ == trim(s@),
{
    let v = to_chars(s);
    trim_vec(&v)
}

/// A copy of `v[start..end]`.
pub fn slice_vec(v: &[char], start: usize, end: usize) -> (r: Vec<char>)
    requires
        start <= end <= v.len(),
    ensures
        r@ == v@.subrange(start as int, end as int),
{
    let mut r: Vec<char> = Vec::new();
    let mut i: usize = start;
    while i < end
        invariant
            start <= i <= end <= v.len(),
            r@ == v@.subrange(start as int, i as int),
        decreases end - i,
    {
        r.push(v[i]);
        i += 1;
        assert(v@.subrange(start as int, i as int) == v@.subrange(start as int, i - 1).push(
            v@[i - 1],
        ));
    }
    r
}

/// Equality of two character sequences.
pub fn chars_eq(a: &[char], b: &[char]) -> (r: bool)
    ensures
        r == (a@ == b@),
{
    if a.len() != b.len() {
        return false;
    }
    let mut i: usize = 0;
    while i < a.len()
        invariant
            i <= a.len() == b.len(),
            a@.take(i as int) == b@.take(i as int),
        decreases a.len() - i,
    {
        if a[i] != b[i] {
            assert(a@[i as int] != b@[i as int]);
            return false;
        }
        i += 1;
        assert(a@.take(i as int) == a@.take((i - 1) as int).push(a@[i - 1]));
        assert(b@.take(i as int) == b@.take((i - 1) as int).push(b@[i - 1]));
    }
    assert(a@.take(a.len() as int) == a@);
    assert(b@.take(b.len() as int) == b@);
    true
}

/// Equality of a character sequence with a string slice.
pub fn eq_str(a: &[char], b: &str) -> (r: bool)
    ensures
        r == (a@ == b@),
{
    let bv = to_chars(b);
    chars_eq(a, &bv)
}

/// Whether `v[start..]` begins with `prefix`.
pub fn starts_with_at(v: &[char], start: usize, prefix: &[char]) -> (r: bool)
    requires
        start <= v.len(),
    ensures
        r == starts_with(v@.skip(start as int), prefix@),
{
    if prefix.len() > v.len() - start {
        return false;
    }
    let mut i: usize = 0;
    while i < prefix.len()
        invariant
            start <= v.len(),
            prefix.len() <= v.len() - start,
            i <= prefix.len(),
            forall|k: int| 0 <= k < i ==> v@[start + k] == prefix@[k],
        decreases prefix.len() - i,
    {
        if v[start + i] != prefix[i] {
            assert(v@.skip(start as int).take(prefix.len() as int)[i as int] != prefix@[i as int]);
            return false;
        }
        i += 1;
    }
    assert(v@.skip(start as int).take(prefix.len() as int) =~= prefix@);
    true
}

/// `str::starts_with` for a string pattern.
pub fn starts_with_chars(v: &[char], prefix: &[char]) -> (r: bool)
    ensures
        r == starts_with(v@, prefix@),
{
    let r = starts_with_at(v, 0, prefix);
    assert(v@.skip(0) == v@);
    r
}

/// `str::contains` for a string pattern.
pub fn contains_chars(haystack: &[char], needle: &[char]) -> (r: bool)
    ensures
        r == contains(haystack@, needle@),
{
    if needle.len() > haystack.len() {
        assert forall|i: int| !occurs_at(haystack@, needle@, i) by {}
        return false;
    }
    if needle.len() == 0 {
        assert(haystack@.subrange(0, 0) =~= needle@);
        assert(occurs_at(haystack@, needle@, 0));
        return true;
    }
    let mut i: usize = 0;
    while i <= haystack.len() - needle.len()
        invariant
            0 < needle.len() <= haystack.len(),
            i <= haystack.len() - needle.len() + 1,
            forall|k: int| 0 <= k < i ==> !occurs_at(haystack@, needle@, k),
        decreases haystack.len() - needle.len() + 1 - i,
    {
        if starts_with_at(haystack, i, needle) {
            assert(haystack@.skip(i as int).take(needle.len() as int) == haystack@.subrange(
                i as int,
                i + needle.len(),
            ));
            assert(occurs_at(haystack@, needle@, i as int));
            return true;
        }
        assert(haystack@.skip(i as int).take(needle.len() as int) == haystack@.subrange(
            i as int,
            i + needle.len(),
        ));
        i += 1;
    }
    assert forall|k: int| !occurs_at(haystack@, needle@, k) by {
        if 0 <= k && k + needle.len() <= haystack.len() {
            assert(k < i);
        }
    }
    false
}

/// Whether `c` occurs in `v`.
pub fn contains_char(v: &[char], c: char) -> (r: bool)
    ensures
        r == v@.contains(c),
{
    let mut i: usize = 0;
    while i < v.len()
        invariant
            i <= v.len(),
            forall|k: int| 0 <= k < i ==> v@[k] != c,
        decreases v.len() - i,
    {
        if v[i] == c {
            return true;
        }
        i += 1;
    }
    false
}

/// Whether some character of `v` is white space.
pub fn has_whitespace(v: &[char]) -> (r: bool)
    ensures
        r == has_ws(v@),
{
    let mut i: usize = 0;
    while i < v.len()
        invariant
            i <= v.len(),
            forall|k: int| 0 <= k < i ==> !is_ws(#[trigger] v@[k]),
        decreases v.len() - i,
    {
        if is_whitespace(v[i]) {
            return true;
        }
        i += 1;
    }
    false
}

/// Length of the leading run of non-white-space characters of `v`.
pub fn token_length(v: &[char]) -> (r: usize)
    ensures
        r == token_len(v@),
{
    let mut i: usize = 0;
    while i < v.len() && !is_whitespace(v[i])
        invariant
            i <= v.len(),
            forall|k: int| 0 <= k < i ==> !is_ws(#[trigger] v@[k]),
        decreases v.len() - i,
    {
        i += 1;
    }
    proof {
        lemma_token_len_at(v@, i as int);
    }
    i
}

proof fn lemma_token_len_at(s: Seq<char>, i: int)
    requires
        0 <= i <= s.len(),
        forall|k: int| 0 <= k < i ==> !is_ws(#[trigger] s[k]),
        i == s.len() || is_ws(s[i]),
    ensures
        token_len(s) == i,
    decreases i,
{
    if i > 0 {
        assert forall|k: int| 0 <= k < i - 1 implies !is_ws(#[trigger] s.drop_first()[k]) by {
            assert(s.drop_first()[k] == s[k + 1]);
        }
        if i - 1 < s.drop_first().len() {
            assert(s.drop_first()[i - 1] == s[i]);
        }
        lemma_token_len_at(s.drop_first(), i - 1);
    }
}

/// The two items of `v.splitn(2, char::is_whitespace)`; the second is empty
/// when `v` holds no white space.
pub fn split_token(v: &[char]) -> (r: (Vec<char>, Vec<char>))
    ensures
        r.0@ == head_token(v@),
        r.1@ == after_token(v@),
{
    let n = token_length(v);
    proof {
        lemma_token_len(v@);
    }
    let head = slice_vec(v, 0, n);
    let rest = if n < v.len() {
        slice_vec(v, n + 1, v.len())
    } else {
        Vec::new()
    };
    assert(v@.subrange(0, n as int) == head_token(v@));
    proof {
        if n < v.len() {
            assert(v@.subrange(n + 1, v.len() as int) == v@.skip(n + 1));
        }
    }
    (head, rest)
}

/// `str::split_whitespace` collected into strings.
pub fn split_words(v: &[char]) -> (r: Vec<String>)
    ensures
        string_views(r@) == words(v@),
    decreases v.len(),
{
    let (start, _) = trim_start_index(v);
    if start == v.len() {
        proof {
            lemma_trim_start_len(v@);
        }
        assert(words(v@) == Seq::<Seq<char>>::empty());
        let r: Vec<String> = Vec::new();
        assert(string_views(r@) =~= Seq::<Seq<char>>::empty());
        return r;
    }
    let t = slice_vec(v, start, v.len());
    let n = token_length(&t);
    proof {
        lemma_trim_start_len(v@);
        lemma_token_len(t@);
        assert(t@ == trim_start(v@));
    }
    let word = from_char_range(&t, 0, n);
    let rest_chars = slice_vec(&t, n, t.len());
    let rest = split_words(&rest_chars);
    let mut r: Vec<String> = Vec::new();
    r.push(word);
    let mut rest = rest;
    let ghost rest_views = string_views(rest@);
    r.append(&mut rest);
    assert(string_views(r@) =~= seq![head_token(t@)] + rest_views);
    assert(t@.subrange(n as int, t.len() as int) == t@.skip(n as int));
    r
}

/// Number of leading white-space characters of `v`, with the trimmed length.
pub fn trim_start_index(v: &[char]) -> (r: (usize, usize))
    ensures
        r.0 <= v.len(),
        r.1 == v.len() - r.0,
        v@.skip(r.0 as int) == trim_start(v@),
{
    let mut i: usize = 0;
    while i < v.len() && is_whitespace(v[i])
        invariant
            i <= v.len(),
            forall|k: int| 0 <= k < i ==> is_ws(#[trigger] v@[k]),
        decreases v.len() - i,
    {
        i += 1;
    }
    proof {
        lemma_trim_start_skip(v@, i as int);
        assert(trim_start(v@.skip(i as int)) == v@.skip(i as int));
    }
    (i, v.len() - i)
}

/// `str::parse::<usize>`.
pub fn parse_usize(v: &[char]) -> (r: Option<usize>)
    ensures
        r == parse_usize_spec(v@),
{
    let start: usize = if v.len() > 0 && v[0] == '+' {
        1
    } else {
        0
    };
    let ghost d = if v@.len() > 0 && v@[0] == '+' {
        v@.drop_first()
    } else {
        v@
    };
    assert(d == v@.skip(start as int));
    if start == v.len() {
        return None;
    }
    let mut value: usize = 0;
    let mut i: usize = start;
    while i < v.len()
        invariant
            start <= i <= v.len(),
            d == v@.skip(start as int),
            parse_usize_spec(v@) == (if d.len() > 0 && all_digits(d) && digits_value(d)
                <= usize::MAX {
                Some(digits_value(d) as usize)
            } else {
                None::<usize>
            }),
            all_digits(v@.subrange(start as int, i as int)),
            value == digits_value(v@.subrange(start as int, i as int)),
        decreases v.len() - i,
    {
        let c = v[i];
        if !('0' <= c && c <= '9') {
            assert(d[i - start] == c);
            assert(!is_digit(d[i - start]));
            assert(!all_digits(d));
            return None;
        }
        let digit = (c as u32 - '0' as u32) as usize;
        let ghost prefix = v@.subrange(start as int, i + 1);
        assert(prefix.drop_last() == v@.subrange(start as int, i as int));
        assert(prefix.last() == c);
        if value > (usize::MAX - digit) / 10 {
            proof {
                lemma_digits_value_prefix_monotone(d, (i + 1 - start) as int);
                assert(d.take((i + 1 - start) as int) == prefix);
                assert(value * 10 + digit > usize::MAX) by (nonlinear_arith)
                    requires
                        value > (usize::MAX - digit) / 10,
                        digit < 10,
                ;
                assert(digits_value(prefix) == value * 10 + digit);
                assert(digits_value(d) > usize::MAX);
            }
            return None;
        }
        value = value * 10 + digit;
        i += 1;
        assert(all_digits(v@.subrange(start as int, i as int)));
    }
    assert(v@.subrange(start as int, v.len() as int) == d);
    Some(value)
}

proof fn lemma_digits_value_prefix_monotone(d: Seq<char>, n: int)
    requires
        0 <= n <= d.len(),
    ensures
        digits_value(d.take(n)) <= digits_value(d),
    decreases d.len() - n,
{
    if n < d.len() {
        assert(d.drop_last().take(n) == d.take(n));
        lemma_digits_value_prefix_monotone(d.drop_last(), n);
    } else {
        assert(d.take(n) == d);
    }
}

/// Appends the decimal rendering of `n` to `out`.
pub fn push_decimal(out: &mut Vec<char>, n: u64)
    ensures
        final(out)@ == old(out)@ + decimal(n as nat),
    decreases n,
{
    if n >= 10 {
        push_decimal(out, n / 10);
    }
    let d = (n % 10) as u32;
    let c = char_from_digit(d);
    out.push(c);
    proof {
        if n < 10 {
            assert(decimal(n as nat) == seq![digit_char(n as nat)]);
        }
    }
}

/// The character of a decimal digit.
pub fn char_from_digit(d: u32) -> (c: char)
    requires
        d < 10,
    ensures
        c == digit_char(d as nat),
{
    match d {
        0 => '0',
        1 => '1',
        2 => '2',
        3 => '3',
        4 => '4',
        5 => '5',
        6 => '6',
        7 => '7',
        8 => '8',
        _ => '9',
    }
}

/// The decimal rendering of `n` as a string.
pub fn u64_to_string(n: u64) -> (s: String)
    ensures
        s@ == decimal(n as nat),
{
    let mut v: Vec<char> = Vec::new();
    push_decimal(&mut v, n);
    assert(v@ == Seq::<char>::empty() + decimal(n as nat));
    from_chars(&v)
}

/// The decimal rendering of `n` as a string.
pub fn usize_to_string(n: usize) -> (s: String)
    ensures
        s@ == decimal(n as nat),
{
    u64_to_string(n as u64)
}

/// The decimal rendering of a signed `n` as a string.
pub fn i64_to_string(n: i64) -> (s: String)
    ensures
        s@ == signed_decimal(n as int),
{
    let mut v: Vec<char> = Vec::new();
    if n < 0 {
        v.push('-');
        let m: u64 = if n == i64::MIN {
            9223372036854775808u64
        } else {
            (-n) as u64
        };
        push_decimal(&mut v, m);
    } else {
        push_decimal(&mut v, n as u64);
        assert(v@ == Seq::<char>::empty() + decimal(n as nat));
    }
    from_chars(&v)
}

/// The strings `parts` joined with `sep` between them.
pub fn join_strings(parts: &[String], sep: &str) -> (r: String)
    ensures
        r@ == join(string_views(parts@), sep@),
{
    let mut r = String::new();
    let mut i: usize = 0;
    while i < parts.len()
        invariant
            i <= parts.len(),
            r@ == join(string_views(parts@.take(i as int)), sep@),
        decreases parts.len() - i,
    {
        let ghost before = r@;
        if i > 0 {
            push_str(&mut r, sep);
        }
        push_str(&mut r, parts[i].as_str());
        i += 1;
        proof {
            let p = string_views(parts@.take(i as int));
            assert(p.drop_last() == string_views(parts@.take((i - 1) as int)));
            assert(p.last() == parts@[i - 1]@);
            if i == 1 {
                assert(p.len() == 1);
                assert(r@ == Seq::<char>::empty() + p[0]);
            }
        }
    }
    assert(parts@.take(parts.len() as int) == parts@);
    r
}

/// Number of bytes of the UTF-8 encoding of `c`.
pub open spec fn utf8_width(c: char) -> nat {
    if (c as u32) < 0x80 {
        1
    } else if (c as u32) < 0x800 {
        2
    } else if (c as u32) < 0x10000 {
        3
    } else {
        4
    }
}

/// Number of bytes of the UTF-8 encoding of `s`, which `str::len` counts.
pub open spec fn utf8_len(s: Seq<char>) -> nat
    decreases s.len(),
{
    if s.len() == 0 {
        0
    } else {
        utf8_len(s.drop_last()) + utf8_width(s.last())
    }
}

/// Number of bytes of the UTF-8 encoding of `v`.
pub fn utf8_length(v: &[char]) -> (r: u128)
    ensures
        r == utf8_len(v@),
        r <= 4 * v@.len(),
{
    let mut n: u128 = 0;
    let mut i: usize = 0;
    while i < v.len()
        invariant
            i <= v@.len(),
            n == utf8_len(v@.take(i as int)),
            n <= 4 * i,
        decreases v@.len() - i,
    {
        assert(v@.take(i + 1).drop_last() == v@.take(i as int));
        let c = v[i] as u32;
        let w: u128 = if c < 0x80 {
            1
        } else if c < 0x800 {
            2
        } else if c < 0x10000 {
            3
        } else {
            4
        };
        n = n + w;
        i += 1;
    }
    assert(v@.take(v@.len() as int) == v@);
    n
}

/// The first `n` bytes of `bytes`.
pub fn byte_prefix(bytes: &[u8], n: usize) -> (r: &[u8])
    requires
        n <= bytes@.len(),
    ensures
        r@ == bytes@.take(n as int),
{
    let (head, _) = bytes.split_at(n);
    head
}

/// The pieces of `s` between `\n` characters; at least one.
pub open spec fn split_nl(s: Seq<char>) -> Seq<Seq<char>>
    decreases s.len(),
{
    if s.len() == 0 {
        seq![Seq::empty()]
    } else if s.last() == '\n' {
        split_nl(s.drop_last()).push(Seq::empty())
    } else {
        let p = split_nl(s.drop_last());
        p.update(p.len() - 1, p.last().push(s.last()))
    }
}

/// The pieces of `s` between occurrences of `sep`; at least one
/// (`str::split` with a character pattern).
pub open spec fn split_on(s: Seq<char>, sep: char) -> Seq<Seq<char>>
    decreases s.len(),
{
    if s.len() == 0 {
        seq![Seq::empty()]
    } else if s.last() == sep {
        split_on(s.drop_last(), sep).push(Seq::empty())
    } else {
        let p = split_on(s.drop_last(), sep);
        p.update(p.len() - 1, p.last().push(s.last()))
    }
}

pub proof fn lemma_split_on_len(s: Seq<char>, sep: char)
    ensures
        split_on(s, sep).len() >= 1,
        split_on(s, sep).len() <= s.len() + 1,
    decreases s.len(),
{
    if s.len() > 0 {
        lemma_split_on_len(s.drop_last(), sep);
    }
}

/// `str::split` on one character, each piece collected into a vector.
pub fn split_chars(v: &[char], sep: char) -> (r: Vec<Vec<char>>)
    ensures
        r@.map_values(|l: Vec<char>| l@) == split_on(v@, sep),
{
    let mut pieces: Vec<Vec<char>> = Vec::new();
    let mut current: Vec<char> = Vec::new();
    let mut i: usize = 0;
    while i < v.len()
        invariant
            i <= v@.len(),
            pieces@.map_values(|l: Vec<char>| l@).push(current@) == split_on(v@.take(i as int), sep),
        decreases v@.len() - i,
    {
        let ghost before_p = pieces@.map_values(|l: Vec<char>| l@);
        let ghost before_c = current@;
        proof {
            lemma_split_on_len(v@.take(i as int), sep);
            assert(v@.take(i + 1).drop_last() =~= v@.take(i as int));
            assert(v@.take(i + 1).last() == v@[i as int]);
        }
        if v[i] == sep {
            pieces.push(current);
            current = Vec::new();
            assert(pieces@.map_values(|l: Vec<char>| l@) =~= before_p.push(before_c));
            assert(pieces@.map_values(|l: Vec<char>| l@).push(current@) =~= before_p.push(before_c).push(Seq::<char>::empty()));
        } else {
            current.push(v[i]);
            assert(before_p.push(before_c).update(before_p.len() as int, before_c.push(v@[i as int])) =~= before_p.push(current@));
        }
        i += 1;
    }
    assert(v@.take(v@.len() as int) =~= v@);
    let ghost all = pieces@.map_values(|l: Vec<char>| l@).push(current@);
    pieces.push(current);
    assert(pieces@.map_values(|l: Vec<char>| l@) =~= all);
    pieces
}

/// A line without the `\r` of a `\r\n` ending.
pub open spec fn strip_cr(l: Seq<char>) -> Seq<char> {
    if l.len() > 0 && l.last() == '\r' {
        l.drop_last()
    } else {
        l
    }
}

/// `str::lines`: the lines of `s`, without their `\n` or `\r\n` endings; a
/// final line ending adds no empty line.
pub open spec fn lines(s: Seq<char>) -> Seq<Seq<char>> {
    let p = split_nl(s);
    let q = if p.last().len() == 0 {
        p.drop_last()
    } else {
        p
    };
    q.map_values(|l: Seq<char>| strip_cr(l))
}

pub proof fn lemma_split_nl_len(s: Seq<char>)
    ensures
        split_nl(s).len() >= 1,
    decreases s.len(),
{
    if s.len() > 0 {
        lemma_split_nl_len(s.drop_last());
    }
}

/// `str::lines` collected into character vectors.
pub fn split_lines(s: &str) -> (r: Vec<Vec<char>>)
    ensures
        r@.map_values(|l: Vec<char>| l@) == lines(s@),
{
    let chars = to_chars(s);
    let mut pieces: Vec<Vec<char>> = Vec::new();
    let mut current: Vec<char> = Vec::new();
    let mut i: usize = 0;
    while i < chars.len()
        invariant
            i <= chars@.len(),
            chars@ == s@,
            pieces@.map_values(|l: Vec<char>| l@).push(current@) == split_nl(chars@.take(i as int)),
        decreases chars@.len() - i,
    {
        let ghost before_p = pieces@.map_values(|l: Vec<char>| l@);
        let ghost before_c = current@;
        proof {
            lemma_split_nl_len(chars@.take(i as int));
            assert(chars@.take(i + 1).drop_last() =~= chars@.take(i as int));
            assert(chars@.take(i + 1).last() == chars@[i as int]);
        }
        if chars[i] == '\n' {
            pieces.push(current);
            current = Vec::new();
            assert(pieces@.map_values(|l: Vec<char>| l@) =~= before_p.push(before_c));
            assert(pieces@.map_values(|l: Vec<char>| l@).push(current@) =~= before_p.push(before_c).push(Seq::<char>::empty()));
        } else {
            current.push(chars[i]);
            assert(before_p.push(before_c).update(before_p.len() as int, before_c.push(chars@[i as int])) =~= before_p.push(current@));
        }
        i += 1;
    }
    assert(chars@.take(chars@.len() as int) =~= chars@);
    let ghost all = pieces@.map_values(|l: Vec<char>| l@).push(current@);
    if current.len() > 0 {
        pieces.push(current);
        assert(pieces@.map_values(|l: Vec<char>| l@) =~= all);
    } else {
        assert(pieces@.map_values(|l: Vec<char>| l@) =~= all.drop_last());
    }
    let ghost kept = pieces@.map_values(|l: Vec<char>| l@);
    let mut r: Vec<Vec<char>> = Vec::new();
    let mut k: usize = 0;
    while k < pieces.len()
        invariant
            k <= pieces@.len(),
            kept == pieces@.map_values(|l: Vec<char>| l@),
            r@.map_values(|l: Vec<char>| l@) == kept.take(k as int).map_values(|l: Seq<char>| strip_cr(l)),
        decreases pieces@.len() - k,
    {
        let piece = &pieces[k];
        let n = piece.len();
        let line = if n > 0 && piece[n - 1] == '\r' {
            slice_vec(piece.as_slice(), 0, n - 1)
        } else {
            slice_vec(piece.as_slice(), 0, n)
        };
        let ghost before = r@.map_values(|l: Vec<char>| l@);
        proof {
            assert(kept[k as int] == piece@);
            assert(piece@.subrange(0, n as int) =~= piece@);
            assert(n > 0 ==> piece@.subrange(0, n - 1) =~= piece@.drop_last());
        }
        r.push(line);
        assert(r@.map_values(|l: Vec<char>| l@) =~= before.push(strip_cr(kept[k as int])));
        assert(kept.take(k + 1).map_values(|l: Seq<char>| strip_cr(l)) =~= kept.take(k as int).map_values(
            |l: Seq<char>| strip_cr(l),
        ).push(strip_cr(kept[k as int])));
        k += 1;
    }
    assert(kept.take(k as int) =~= kept);
    r
}

/// `str::trim_end` on a character vector.
pub fn trim_end_vec(v: &[char]) -> (r: Vec<char>)
    ensures
        r@ == trim_end(v@),
{
    let mut j = v.len();
    while j > 0 && is_whitespace(v[j - 1])
        invariant
            j <= v@.len(),
            forall|k: int| j <= k < v@.len() ==> is_ws(#[trigger] v@[k]),
        decreases j,
    {
        j -= 1;
    }
    proof {
        lemma_trim_end_take(v@, j as int);
        let t = v@.take(j as int);
        if t.len() > 0 {
            assert(t.last() == v@[j - 1]);
        }
        assert(trim_end(t) == t);
    }
    slice_vec(v, 0, j)
}

/// What `str::to_lowercase` gives for a text: its Unicode lower case.
pub uninterp spec fn unicode_lower(s: Seq<char>) -> Seq<char>;

/// `str::to_lowercase`. Claimed only that the result is the one named by
/// `unicode_lower`, a function of the text alone.
#[verifier::external_body]
pub(crate) fn to_lowercase(s: &str) -> (r: String)
    ensures
        r@ == unicode_lower(s@),
{
    s.to_lowercase()
}

} // verus!
