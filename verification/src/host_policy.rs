//! Which remote hosts the client may fetch from. A host is refused when it is
//! `localhost` or an IP literal of a loopback, unspecified, multicast,
//! private, link-local or unique-local address; any other name is allowed,
//! since no name is resolved here. IP literals are read with the grammar of
//! the standard textual forms: dotted decimal IPv4, and IPv6 with at most
//! one `::` and an optional trailing dotted IPv4 part.
use vstd::prelude::*;
use crate::text::{
    all_digits, digits_value, lower, split_on, lemma_split_on_len, lower_vec, eq_str, parse_usize,
    split_chars, to_chars,
};

verus! {

pub open spec fn is_hex(c: char) -> bool {
    ||| ('0' <= c && c <= '9')
    ||| ('a' <= c && c <= 'f')
    ||| ('A' <= c && c <= 'F')
}

pub open spec fn hex_val(c: char) -> int {
    if '0' <= c && c <= '9' {
        c as int - '0' as int
    } else if 'a' <= c && c <= 'f' {
        c as int - 'a' as int + 10
    } else {
        c as int - 'A' as int + 10
    }
}

/// Value of a run of hexadecimal digits.
pub open spec fn hex_value(s: Seq<char>) -> int
    decreases s.len(),
{
    if s.len() == 0 {
        0
    } else {
        hex_value(s.drop_last()) * 16 + hex_val(s.last())
    }
}

pub open spec fn all_hex(s: Seq<char>) -> bool {
    forall|i: int| 0 <= i < s.len() ==> is_hex(#[trigger] s[i])
}

/// One decimal part of a dotted IPv4 address: one to three digits, no
/// leading zero, at most 255.
pub open spec fn dec_octet(p: Seq<char>) -> Option<int> {
    if 1 <= p.len() <= 3 && all_digits(p) && !(p.len() > 1 && p[0] == '0') && digits_value(p)
        <= 255 {
        Some(digits_value(p) as int)
    } else {
        None
    }
}

/// One group of an IPv6 address: one to four hexadecimal digits.
pub open spec fn hex_group(p: Seq<char>) -> Option<int> {
    if 1 <= p.len() <= 4 && all_hex(p) {
        Some(hex_value(p))
    } else {
        None
    }
}

pub open spec fn prefixed(p: Seq<int>, r: Option<Seq<int>>) -> Option<Seq<int>> {
    match r {
        Some(rest) => Some(p + rest),
        None => None,
    }
}

/// The octets of a list of decimal parts, if every part is one.
pub open spec fn octets_of(parts: Seq<Seq<char>>) -> Option<Seq<int>>
    decreases parts.len(),
{
    if parts.len() == 0 {
        Some(Seq::empty())
    } else {
        match dec_octet(parts[0]) {
            None => None,
            Some(o) => prefixed(seq![o], octets_of(parts.drop_first())),
        }
    }
}

/// The four octets of a dotted IPv4 address.
pub open spec fn ipv4_octets(s: Seq<char>) -> Option<Seq<int>> {
    let parts = split_on(s, '.');
    if parts.len() == 4 {
        octets_of(parts)
    } else {
        None
    }
}

/// The 16-bit groups that a list of IPv6 parts stands for; where
/// `v4_last`, the last part may be a dotted IPv4 address, which stands for
/// two groups.
pub open spec fn groups_of(parts: Seq<Seq<char>>, v4_last: bool) -> Option<Seq<int>>
    decreases parts.len(),
{
    if parts.len() == 0 {
        Some(Seq::empty())
    } else if parts.len() == 1 && v4_last && ipv4_octets(parts[0]) is Some {
        match ipv4_octets(parts[0]) {
            Some(o) => Some(seq![o[0] * 256 + o[1], o[2] * 256 + o[3]]),
            None => None,
        }
    } else {
        match hex_group(parts[0]) {
            None => None,
            Some(g) => prefixed(seq![g], groups_of(parts.drop_first(), v4_last)),
        }
    }
}

/// Where the first `::` of `s` at or after `i` starts.
pub open spec fn double_colon_from(s: Seq<char>, i: int) -> Option<int>
    decreases s.len() - i,
{
    if i < 0 || i + 1 >= s.len() {
        None
    } else if s[i] == ':' && s[i + 1] == ':' {
        Some(i)
    } else {
        double_colon_from(s, i + 1)
    }
}

pub open spec fn zeros(n: nat) -> Seq<int> {
    Seq::new(n, |k: int| 0int)
}

/// The eight groups of an IPv6 address. Without `::` the parts must give
/// eight groups; with it, the parts before and after give at most seven and
/// `::` stands for the zero groups between them.
pub open spec fn ipv6_groups(s: Seq<char>) -> Option<Seq<int>> {
    match double_colon_from(s, 0) {
        None => match groups_of(split_on(s, ':'), true) {
            Some(g) => if g.len() == 8 {
                Some(g)
            } else {
                None
            },
            None => None,
        },
        Some(i) => {
            let head = s.take(i);
            let tail = s.skip(i + 2);
            let hg = if head.len() == 0 {
                Some(Seq::<int>::empty())
            } else {
                groups_of(split_on(head, ':'), false)
            };
            let tg = if tail.len() == 0 {
                Some(Seq::<int>::empty())
            } else {
                groups_of(split_on(tail, ':'), true)
            };
            match (hg, tg) {
                (Some(h), Some(t)) => if h.len() <= 7 && t.len() <= 7 - h.len() {
                    Some(h + zeros((8 - h.len() - t.len()) as nat) + t)
                } else {
                    None
                },
                _ => None,
            }
        },
    }
}

/// IPv4 addresses that are not public: loopback (127/8), unspecified,
/// multicast (224/4), private (10/8, 172.16/12, 192.168/16) and link-local
/// (169.254/16).
pub open spec fn v4_blocked(o: Seq<int>) -> bool {
    ||| o[0] == 127
    ||| (o[0] == 0 && o[1] == 0 && o[2] == 0 && o[3] == 0)
    ||| (224 <= o[0] && o[0] <= 239)
    ||| o[0] == 10
    ||| (o[0] == 172 && 16 <= o[1] && o[1] <= 31)
    ||| (o[0] == 192 && o[1] == 168)
    ||| (o[0] == 169 && o[1] == 254)
}

/// Whether the groups are an IPv4-mapped address, `::ffff:a.b.c.d`.
pub open spec fn v4_mapped(g: Seq<int>) -> bool {
    (forall|k: int| 0 <= k < 5 ==> #[trigger] g[k] == 0) && g[5] == 0xffff
}

/// The IPv4 address that the last two groups hold.
pub open spec fn mapped_octets(g: Seq<int>) -> Seq<int> {
    seq![g[6] / 256, g[6] % 256, g[7] / 256, g[7] % 256]
}

/// IPv6 addresses that are not public: `::1`, `::`, multicast (ff00::/8),
/// unique-local (fc00::/7), those whose first octet is `fe` (link- and
/// site-local), and IPv4-mapped forms of IPv4 addresses that are not public.
pub open spec fn v6_blocked(g: Seq<int>) -> bool {
    ||| ((forall|k: int| 0 <= k < 7 ==> #[trigger] g[k] == 0) && (g[7] == 0 || g[7] == 1))
    ||| (v4_mapped(g) && v4_blocked(mapped_octets(g)))
    ||| g[0] >= 0xff00
    ||| (0xfc00 <= g[0] && g[0] <= 0xfdff)
    ||| (0xfe00 <= g[0] && g[0] <= 0xfeff)
}

/// Whether the client may fetch from `host`.
pub open spec fn host_allowed(host: Seq<char>) -> bool {
    if lower(host) == "localhost"@ {
        false
    } else {
        match ipv4_octets(host) {
            Some(o) => !v4_blocked(o),
            None => match ipv6_groups(host) {
                Some(g) => !v6_blocked(g),
                None => true,
            },
        }
    }
}

pub open spec fn as_ints(v: Seq<u32>) -> Seq<int> {
    v.map_values(|x: u32| x as int)
}

proof fn lemma_digits_small(s: Seq<char>)
    requires
        s.len() <= 3,
        all_digits(s),
    ensures
        digits_value(s) < (if s.len() == 0 {
            1int
        } else if s.len() == 1 {
            10int
        } else if s.len() == 2 {
            100int
        } else {
            1000int
        }),
    decreases s.len(),
{
    if s.len() > 0 {
        assert(all_digits(s.drop_last())) by {
            assert forall|i: int| 0 <= i < s.drop_last().len() implies crate::text::is_digit(
                #[trigger] s.drop_last()[i],
            ) by {
                assert(s.drop_last()[i] == s[i]);
            }
        }
        lemma_digits_small(s.drop_last());
        assert(crate::text::is_digit(s[s.len() - 1]));
    }
}

/// Reads one decimal part of a dotted IPv4 address.
fn parse_dec_octet(p: &[char]) -> (r: Option<u32>)
    ensures
        match r {
            Some(v) => dec_octet(p@) == Some(v as int),
            None => dec_octet(p@) is None,
        },
{
    if p.len() < 1 || p.len() > 3 {
        return None;
    }
    if !('0' <= p[0] && p[0] <= '9') {
        assert(!all_digits(p@));
        return None;
    }
    if p.len() > 1 && p[0] == '0' {
        return None;
    }
    match parse_usize(p) {
        None => {
            proof {
                if all_digits(p@) {
                    lemma_digits_small(p@);
                }
            }
            None
        },
        Some(v) => {
            if v > 255 {
                None
            } else {
                Some(v as u32)
            }
        },
    }
}

proof fn lemma_hex_value_bound(s: Seq<char>)
    requires
        all_hex(s),
    ensures
        0 <= hex_value(s),
        s.len() <= 4 ==> hex_value(s) < (if s.len() == 0 {
            1int
        } else if s.len() == 1 {
            16int
        } else if s.len() == 2 {
            256int
        } else if s.len() == 3 {
            4096int
        } else {
            65536int
        }),
    decreases s.len(),
{
    if s.len() > 0 {
        assert(all_hex(s.drop_last())) by {
            assert forall|i: int| 0 <= i < s.drop_last().len() implies is_hex(
                #[trigger] s.drop_last()[i],
            ) by {
                assert(s.drop_last()[i] == s[i]);
            }
        }
        lemma_hex_value_bound(s.drop_last());
        assert(is_hex(s[s.len() - 1]));
    }
}

/// Reads one group of an IPv6 address.
fn parse_hex_group(p: &[char]) -> (r: Option<u32>)
    ensures
        match r {
            Some(v) => hex_group(p@) == Some(v as int),
            None => hex_group(p@) is None,
        },
{
    if p.len() < 1 || p.len() > 4 {
        return None;
    }
    let mut value: u32 = 0;
    let mut i: usize = 0;
    while i < p.len()
        invariant
            i <= p@.len() <= 4,
            all_hex(p@.take(i as int)),
            value == hex_value(p@.take(i as int)),
        decreases p@.len() - i,
    {
        let c = p[i];
        let d: u32 = if '0' <= c && c <= '9' {
            (c as u32) - ('0' as u32)
        } else if 'a' <= c && c <= 'f' {
            (c as u32) - ('a' as u32) + 10
        } else if 'A' <= c && c <= 'F' {
            (c as u32) - ('A' as u32) + 10
        } else {
            assert(p@[i as int] == c);
            assert(!all_hex(p@));
            return None;
        };
        proof {
            lemma_hex_value_bound(p@.take(i as int));
            assert(p@.take(i + 1).drop_last() =~= p@.take(i as int));
            assert(p@.take(i + 1).last() == c);
        }
        value = value * 16 + d;
        i += 1;
        assert(all_hex(p@.take(i as int))) by {
            assert forall|k: int| 0 <= k < i implies is_hex(#[trigger] p@.take(i as int)[k]) by {
                if k < i - 1 {
                    assert(p@.take(i as int)[k] == p@.take(i - 1)[k]);
                }
            }
        }
    }
    assert(p@.take(p@.len() as int) =~= p@);
    Some(value)
}

proof fn lemma_octets_of(parts: Seq<Seq<char>>)
    ensures
        octets_of(parts) matches Some(o) ==> o.len() == parts.len() && (forall|k: int|
            0 <= k < o.len() ==> 0 <= #[trigger] o[k] <= 255),
    decreases parts.len(),
{
    if parts.len() > 0 {
        lemma_octets_of(parts.drop_first());
        match (dec_octet(parts[0]), octets_of(parts.drop_first())) {
            (Some(x), Some(rest)) => {
                let o = seq![x] + rest;
                assert forall|k: int| 0 <= k < o.len() implies 0 <= #[trigger] o[k] <= 255 by {
                    if k > 0 {
                        assert(o[k] == rest[k - 1]);
                    }
                }
            },
            _ => {},
        }
    }
}

/// Reads a dotted IPv4 address into its four octets.
pub fn parse_ipv4(s: &[char]) -> (r: Option<Vec<u32>>)
    ensures
        match r {
            Some(v) => ipv4_octets(s@) == Some(as_ints(v@)) && v@.len() == 4 && (forall|k: int|
                0 <= k < 4 ==> #[trigger] v@[k] <= 255),
            None => ipv4_octets(s@) is None,
        },
{
    let parts = split_chars(s, '.');
    let ghost pv = parts@.map_values(|l: Vec<char>| l@);
    if parts.len() != 4 {
        return None;
    }
    let mut out: Vec<u32> = Vec::new();
    let mut k: usize = 0;
    assert(pv.skip(0) =~= pv);
    while k < parts.len()
        invariant
            k <= parts@.len() == 4,
            pv == parts@.map_values(|l: Vec<char>| l@),
            pv == split_on(s@, '.'),
            out@.len() == k,
            forall|j: int| 0 <= j < k ==> #[trigger] out@[j] <= 255,
            octets_of(pv) == prefixed(as_ints(out@), octets_of(pv.skip(k as int))),
        decreases parts@.len() - k,
    {
        let ghost rest = pv.skip(k as int);
        assert(rest[0] == parts@[k as int]@);
        assert(rest.drop_first() =~= pv.skip(k + 1));
        match parse_dec_octet(parts[k].as_slice()) {
            None => {
                return None;
            },
            Some(o) => {
                let ghost before = as_ints(out@);
                out.push(o);
                assert(as_ints(out@) =~= before.push(o as int));
                proof {
                    match octets_of(pv.skip(k + 1)) {
                        Some(r2) => {
                            assert(before + (seq![o as int] + r2) =~= before.push(o as int) + r2);
                        },
                        None => {},
                    }
                }
            },
        }
        k += 1;
    }
    assert(pv.skip(4) =~= Seq::<Seq<char>>::empty());
    assert(as_ints(out@) + Seq::<int>::empty() =~= as_ints(out@));
    Some(out)
}

/// Reads a list of IPv6 parts into 16-bit groups.
fn parse_groups(parts: &Vec<Vec<char>>, v4_last: bool) -> (r: Option<Vec<u32>>)
    ensures
        ({
            let pv = parts@.map_values(|l: Vec<char>| l@);
            match r {
                Some(v) => groups_of(pv, v4_last) == Some(as_ints(v@)) && (forall|k: int|
                    0 <= k < v@.len() ==> #[trigger] v@[k] < 0x10000),
                None => groups_of(pv, v4_last) is None,
            }
        }),
{
    let ghost pv = parts@.map_values(|l: Vec<char>| l@);
    let mut out: Vec<u32> = Vec::new();
    let mut k: usize = 0;
    assert(pv.skip(0) =~= pv);
    while k < parts.len()
        invariant
            k <= parts@.len(),
            pv == parts@.map_values(|l: Vec<char>| l@),
            forall|j: int| 0 <= j < out@.len() ==> #[trigger] out@[j] < 0x10000,
            groups_of(pv, v4_last) == prefixed(as_ints(out@), groups_of(pv.skip(k as int), v4_last)),
        decreases parts@.len() - k,
    {
        let ghost rest = pv.skip(k as int);
        assert(rest[0] == parts@[k as int]@);
        assert(rest.drop_first() =~= pv.skip(k + 1));
        let ghost before = as_ints(out@);
        if k + 1 == parts.len() && v4_last {
            match parse_ipv4(parts[k].as_slice()) {
                Some(o) => {
                    let hi = o[0] * 256 + o[1];
                    let lo = o[2] * 256 + o[3];
                    out.push(hi);
                    out.push(lo);
                    assert(as_ints(out@) =~= before + seq![hi as int, lo as int]);
                    return Some(out);
                },
                None => {},
            }
        }
        match parse_hex_group(parts[k].as_slice()) {
            None => {
                return None;
            },
            Some(g) => {
                proof {
                    lemma_hex_value_bound(parts@[k as int]@);
                }
                out.push(g);
                assert(as_ints(out@) =~= before.push(g as int));
                proof {
                    match groups_of(pv.skip(k + 1), v4_last) {
                        Some(r2) => {
                            assert(before + (seq![g as int] + r2) =~= before.push(g as int) + r2);
                        },
                        None => {},
                    }
                }
            },
        }
        k += 1;
    }
    assert(pv.skip(k as int) =~= Seq::<Seq<char>>::empty());
    assert(as_ints(out@) + Seq::<int>::empty() =~= as_ints(out@));
    Some(out)
}

/// Where the first `::` of `s` starts.
fn find_double_colon(s: &[char]) -> (r: Option<usize>)
    ensures
        match r {
            Some(i) => double_colon_from(s@, 0) == Some(i as int) && i + 1 < s@.len(),
            None => double_colon_from(s@, 0) is None,
        },
{
    let mut i: usize = 0;
    while i < s.len() && s.len() - i > 1
        invariant
            i <= s@.len(),
            double_colon_from(s@, 0) == double_colon_from(s@, i as int),
        decreases s@.len() - i,
    {
        if s[i] == ':' && s[i + 1] == ':' {
            return Some(i);
        }
        i += 1;
    }
    None
}

/// Reads an IPv6 address into its eight groups.
pub fn parse_ipv6(s: &[char]) -> (r: Option<Vec<u32>>)
    ensures
        match r {
            Some(v) => ipv6_groups(s@) == Some(as_ints(v@)) && v@.len() == 8,
            None => ipv6_groups(s@) is None,
        },
{
    match find_double_colon(s) {
        None => {
            let parts = split_chars(s, ':');
            match parse_groups(&parts, true) {
                Some(g) => {
                    if g.len() == 8 {
                        Some(g)
                    } else {
                        None
                    }
                },
                None => None,
            }
        },
        Some(i) => {
            let head = crate::text::slice_vec(s, 0, i);
            let n = s.len();
            assert(i + 1 < n);
            let tail = crate::text::slice_vec(s, i + 2, n);
            assert(head@ =~= s@.take(i as int));
            assert(tail@ =~= s@.skip(i + 2));
            let hg: Option<Vec<u32>> = if head.len() == 0 {
                Some(Vec::new())
            } else {
                let hp = split_chars(head.as_slice(), ':');
                parse_groups(&hp, false)
            };
            let tg: Option<Vec<u32>> = if tail.len() == 0 {
                Some(Vec::new())
            } else {
                let tp = split_chars(tail.as_slice(), ':');
                parse_groups(&tp, true)
            };
            match (hg, tg) {
                (Some(h), Some(t)) => {
                    if h.len() <= 7 && t.len() <= 7 - h.len() {
                        let mut out = h;
                        let n = 8 - out.len() - t.len();
                        let ghost hv = as_ints(out@);
                        let mut z: usize = 0;
                        while z < n
                            invariant
                                z <= n,
                                as_ints(out@) == hv + zeros(z as nat),
                            decreases n - z,
                        {
                            let ghost prev = out@;
                            out.push(0);
                            assert(as_ints(out@) =~= as_ints(prev).push(0));
                            assert(hv + zeros((z + 1) as nat) =~= (hv + zeros(z as nat)).push(0));
                            z += 1;
                        }
                        let ghost hz = as_ints(out@);
                        let mut j: usize = 0;
                        while j < t.len()
                            invariant
                                j <= t@.len(),
                                as_ints(out@) == hz + as_ints(t@).take(j as int),
                            decreases t@.len() - j,
                        {
                            let ghost prev = out@;
                            out.push(t[j]);
                            assert(as_ints(out@) =~= as_ints(prev).push(t@[j as int] as int));
                            assert(hz + as_ints(t@).take(j + 1) =~= (hz + as_ints(t@).take(j as int)).push(
                                t@[j as int] as int,
                            ));
                            j += 1;
                        }
                        assert(as_ints(t@).take(t@.len() as int) =~= as_ints(t@));
                        Some(out)
                    } else {
                        None
                    }
                },
                _ => None,
            }
        },
    }
}

/// Whether the client may fetch from `host`: `localhost` in any ASCII case
/// and IP literals of non-public addresses are refused; other names are
/// allowed.
pub fn is_allowed_remote_host(host: &str) -> (r: bool)
    ensures
        r == host_allowed(host@),
{
    let chars = to_chars(host);
    let lowered = lower_vec(chars.as_slice());
    if eq_str(lowered.as_slice(), "localhost") {
        return false;
    }
    match parse_ipv4(chars.as_slice()) {
        Some(o) => !v4_is_blocked(o[0], o[1], o[2], o[3]),
        None => match parse_ipv6(chars.as_slice()) {
            Some(g) => {
                let mut low_zero = true;
                let mut k: usize = 0;
                while k < 7
                    invariant
                        k <= 7,
                        g@.len() == 8,
                        low_zero == (forall|j: int| 0 <= j < k ==> #[trigger] g@[j] == 0),
                    decreases 7 - k,
                {
                    if g[k] != 0 {
                        low_zero = false;
                    }
                    k += 1;
                }
                let mut head_zero = true;
                let mut k: usize = 0;
                while k < 5
                    invariant
                        k <= 5,
                        g@.len() == 8,
                        head_zero == (forall|j: int| 0 <= j < k ==> #[trigger] g@[j] == 0),
                    decreases 5 - k,
                {
                    if g[k] != 0 {
                        head_zero = false;
                    }
                    k += 1;
                }
                let mapped = head_zero && g[5] == 0xffff && v4_is_blocked(
                    g[6] / 256,
                    g[6] % 256,
                    g[7] / 256,
                    g[7] % 256,
                );
                let blocked = (low_zero && (g[7] == 0 || g[7] == 1)) || mapped || g[0] >= 0xff00
                    || (0xfc00 <= g[0] && g[0] <= 0xfdff) || (0xfe00 <= g[0] && g[0] <= 0xfeff);
                proof {
                    let gi = as_ints(g@);
                    assert forall|j: int| #![trigger gi[j]] #![trigger g@[j]] 0 <= j < 8 implies gi[j]
                        == g@[j] as int by {}
                    assert(mapped_octets(gi) =~= seq![
                        (g@[6] / 256) as int,
                        (g@[6] % 256) as int,
                        (g@[7] / 256) as int,
                        (g@[7] % 256) as int,
                    ]);
                    assert(head_zero == (forall|k: int| 0 <= k < 5 ==> #[trigger] gi[k] == 0));
                    assert(mapped == (v4_mapped(gi) && v4_blocked(mapped_octets(gi))));
                    assert(blocked == v6_blocked(gi));
                }
                !blocked
            },
            None => true,
        },
    }
}

/// Whether the IPv4 address `a.b.c.d` is not public.
fn v4_is_blocked(a: u32, b: u32, c: u32, d: u32) -> (r: bool)
    ensures
        r == v4_blocked(seq![a as int, b as int, c as int, d as int]),
{
    a == 127 || (a == 0 && b == 0 && c == 0 && d == 0) || (224 <= a && a <= 239) || a == 10 || (a
        == 172 && 16 <= b && b <= 31) || (a == 192 && b == 168) || (a == 169 && b == 254)
}

} // verus!
