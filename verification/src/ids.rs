//! Sequenced identifiers such as `msg-3` and `branch-2`: rendering, parsing,
//! ordering and sorting.
use vstd::prelude::*;

use crate::text::{all_digits, decimal, digits_value, digit_char, push_decimal, from_chars, to_chars};

verus! {

/// How two ids compare.
#[derive(Debug, Clone, Copy, PartialEq, Eq, Structural)]
pub enum IdOrder {
    Less,
    Equal,
    Greater,
}

pub open spec fn msg_prefix() -> Seq<char> {
    seq!['m', 's', 'g', '-']
}

pub open spec fn branch_prefix() -> Seq<char> {
    seq!['b', 'r', 'a', 'n', 'c', 'h', '-']
}

/// The id `prefix` followed by the decimal rendering of `seq`.
pub open spec fn seq_id(prefix: Seq<char>, seq: nat) -> Seq<char> {
    prefix + decimal(seq)
}

/// `<u64 as FromStr>::from_str`.
pub open spec fn parse_u64_spec(s: Seq<char>) -> Option<u64> {
    let d = if s.len() > 0 && s[0] == '+' {
        s.drop_first()
    } else {
        s
    };
    if d.len() > 0 && all_digits(d) && digits_value(d) <= u64::MAX {
        Some(digits_value(d) as u64)
    } else {
        None
    }
}

/// `id.strip_prefix(prefix)?.parse::<u64>().ok()`.
pub open spec fn parse_sequence_spec(id: Seq<char>, prefix: Seq<char>) -> Option<u64> {
    if prefix.len() <= id.len() && id.take(prefix.len() as int) == prefix {
        parse_u64_spec(id.skip(prefix.len() as int))
    } else {
        None
    }
}

/// Lexicographic order of code points, which is the order of `String`.
pub open spec fn lex_order(a: Seq<char>, b: Seq<char>) -> IdOrder
    decreases a.len(),
{
    if a.len() == 0 && b.len() == 0 {
        IdOrder::Equal
    } else if a.len() == 0 {
        IdOrder::Less
    } else if b.len() == 0 {
        IdOrder::Greater
    } else if a[0] < b[0] {
        IdOrder::Less
    } else if a[0] > b[0] {
        IdOrder::Greater
    } else {
        lex_order(a.drop_first(), b.drop_first())
    }
}

/// `compare_sequenced_ids`: numeric order of the sequence numbers when both
/// ids carry one, string order otherwise.
pub open spec fn id_order(a: Seq<char>, b: Seq<char>, prefix: Seq<char>) -> IdOrder {
    match (parse_sequence_spec(a, prefix), parse_sequence_spec(b, prefix)) {
        (Some(x), Some(y)) => if x < y {
            IdOrder::Less
        } else if x > y {
            IdOrder::Greater
        } else {
            IdOrder::Equal
        },
        _ => lex_order(a, b),
    }
}

/// Adjacent items are never in descending order.
pub open spec fn adjacent_sorted(ids: Seq<Seq<char>>, prefix: Seq<char>) -> bool {
    forall|k: int| 0 <= k < ids.len() - 1 ==> id_order(#[trigger] ids[k + 1], ids[k], prefix) != IdOrder::Less
}

pub proof fn lemma_lex_order_antisym(a: Seq<char>, b: Seq<char>)
    ensures
        lex_order(a, b) == IdOrder::Less <==> lex_order(b, a) == IdOrder::Greater,
        lex_order(a, b) == IdOrder::Equal <==> lex_order(b, a) == IdOrder::Equal,
        lex_order(a, b) == IdOrder::Equal <==> a == b,
    decreases a.len(),
{
    if a.len() == 0 && b.len() == 0 {
        assert(a =~= b);
    }
    if a.len() > 0 && b.len() > 0 && a[0] == b[0] {
        lemma_lex_order_antisym(a.drop_first(), b.drop_first());
        if a.drop_first() == b.drop_first() {
            assert(a == seq![a[0]] + a.drop_first());
            assert(b == seq![b[0]] + b.drop_first());
        }
    }
}

/// `lex_order` ranks strictly: `Less` is transitive.
pub proof fn lemma_lex_order_trans(a: Seq<char>, b: Seq<char>, c: Seq<char>)
    requires
        lex_order(a, b) == IdOrder::Less,
        lex_order(b, c) == IdOrder::Less,
    ensures
        lex_order(a, c) == IdOrder::Less,
    decreases a.len(),
{
    if a.len() > 0 && b.len() > 0 && c.len() > 0 && a[0] == b[0] && b[0] == c[0] {
        lemma_lex_order_trans(a.drop_first(), b.drop_first(), c.drop_first());
    }
}

pub proof fn lemma_id_order_antisym(a: Seq<char>, b: Seq<char>, prefix: Seq<char>)
    ensures
        id_order(a, b, prefix) == IdOrder::Less <==> id_order(b, a, prefix) == IdOrder::Greater,
{
    lemma_lex_order_antisym(a, b);
}

/// Renders `prefix` followed by the decimal `seq`.
pub fn format_seq_id(prefix: &[char], seq: u64) -> (r: String)
    ensures
        r@ == seq_id(prefix@, seq as nat),
{
    let mut v: Vec<char> = Vec::new();
    let mut i: usize = 0;
    while i < prefix.len()
        invariant
            i <= prefix.len(),
            v@ == prefix@.take(i as int),
        decreases prefix.len() - i,
    {
        v.push(prefix[i]);
        i += 1;
        assert(prefix@.take(i as int) == prefix@.take((i - 1) as int).push(prefix@[i - 1]));
    }
    assert(prefix@.take(prefix.len() as int) == prefix@);
    push_decimal(&mut v, seq);
    from_chars(&v)
}

/// `format!("msg-{seq}")`.
pub fn format_message_id(seq: u64) -> (r: String)
    ensures
        r@ == seq_id(msg_prefix(), seq as nat),
{
    let p = vec!['m', 's', 'g', '-'];
    assert(p@ == msg_prefix());
    format_seq_id(&p, seq)
}

/// `format!("branch-{seq}")`.
pub fn format_branch_id(seq: u64) -> (r: String)
    ensures
        r@ == seq_id(branch_prefix(), seq as nat),
{
    let p = vec!['b', 'r', 'a', 'n', 'c', 'h', '-'];
    assert(p@ == branch_prefix());
    format_seq_id(&p, seq)
}

/// `str::parse::<u64>` on `v[start..]`.
pub fn parse_u64_from(v: &[char], start: usize) -> (r: Option<u64>)
    requires
        start <= v.len(),
    ensures
        r == parse_u64_spec(v@.skip(start as int)),
{
    let ghost s = v@.skip(start as int);
    let first: usize = if start < v.len() && v[start] == '+' {
        start + 1
    } else {
        start
    };
    let ghost d = if s.len() > 0 && s[0] == '+' {
        s.drop_first()
    } else {
        s
    };
    assert(d == v@.skip(first as int));
    if first == v.len() {
        return None;
    }
    let mut value: u64 = 0;
    let mut i: usize = first;
    while i < v.len()
        invariant
            first <= i <= v.len(),
            s == v@.skip(start as int),
            d == v@.skip(first as int),
            parse_u64_spec(s) == (if d.len() > 0 && all_digits(d) && digits_value(d)
                <= u64::MAX {
                Some(digits_value(d) as u64)
            } else {
                None::<u64>
            }),
            all_digits(v@.subrange(first as int, i as int)),
            value == digits_value(v@.subrange(first as int, i as int)),
        decreases v.len() - i,
    {
        let c = v[i];
        if !('0' <= c && c <= '9') {
            assert(d[i - first] == c);
            assert(!crate::text::is_digit(d[i - first]));
            assert(!all_digits(d));
            return None;
        }
        let digit = (c as u32 - '0' as u32) as u64;
        let ghost prefix = v@.subrange(first as int, i + 1);
        assert(prefix.drop_last() == v@.subrange(first as int, i as int));
        assert(prefix.last() == c);
        if value > (u64::MAX - digit) / 10 {
            proof {
                lemma_digits_value_prefix(d, (i + 1 - first) as int);
                assert(d.take((i + 1 - first) as int) == prefix);
                assert(value * 10 + digit > u64::MAX) by (nonlinear_arith)
                    requires
                        value > (u64::MAX - digit) / 10,
                        digit < 10,
                ;
                assert(digits_value(prefix) == value * 10 + digit);
            }
            return None;
        }
        value = value * 10 + digit;
        i += 1;
        assert(all_digits(v@.subrange(first as int, i as int)));
    }
    assert(v@.subrange(first as int, v.len() as int) == d);
    Some(value)
}

proof fn lemma_digits_value_prefix(d: Seq<char>, n: int)
    requires
        0 <= n <= d.len(),
    ensures
        digits_value(d.take(n)) <= digits_value(d),
    decreases d.len() - n,
{
    if n < d.len() {
        assert(d.drop_last().take(n) == d.take(n));
        lemma_digits_value_prefix(d.drop_last(), n);
    } else {
        assert(d.take(n) == d);
    }
}

/// `parse_sequence`.
pub fn parse_sequence(id: &[char], prefix: &[char]) -> (r: Option<u64>)
    ensures
        r == parse_sequence_spec(id@, prefix@),
{
    if crate::text::starts_with_chars(id, prefix) {
        parse_u64_from(id, prefix.len())
    } else {
        None
    }
}

/// String order of code points.
pub fn lex_compare(a: &[char], b: &[char]) -> (r: IdOrder)
    ensures
        r == lex_order(a@, b@),
{
    let mut i: usize = 0;
    assert(a@.skip(0) == a@);
    assert(b@.skip(0) == b@);
    while i < a.len() && i < b.len() && a[i] == b[i]
        invariant
            i <= a.len(),
            i <= b.len(),
            lex_order(a@, b@) == lex_order(a@.skip(i as int), b@.skip(i as int)),
        decreases a.len() - i,
    {
        assert(a@.skip(i as int).drop_first() == a@.skip(i + 1));
        assert(b@.skip(i as int).drop_first() == b@.skip(i + 1));
        i += 1;
    }
    let ghost sa = a@.skip(i as int);
    let ghost sb = b@.skip(i as int);
    if i < a.len() {
        assert(sa[0] == a@[i as int]);
    }
    if i < b.len() {
        assert(sb[0] == b@[i as int]);
    }
    if i == a.len() && i == b.len() {
        IdOrder::Equal
    } else if i == a.len() {
        IdOrder::Less
    } else if i == b.len() {
        IdOrder::Greater
    } else if a[i] < b[i] {
        IdOrder::Less
    } else {
        IdOrder::Greater
    }
}

/// Orders two ids by their sequence numbers after `prefix` where both have
/// one, else by their characters.
pub fn compare_sequenced_ids(a: &[char], b: &[char], prefix: &[char]) -> (r: IdOrder)
    ensures
        r == id_order(a@, b@, prefix@),
{
    match (parse_sequence(a, prefix), parse_sequence(b, prefix)) {
        (Some(x), Some(y)) => if x < y {
            IdOrder::Less
        } else if x > y {
            IdOrder::Greater
        } else {
            IdOrder::Equal
        },
        _ => lex_compare(a, b),
    }
}

spec fn pair_ok(ids: Seq<String>, k: int, prefix: Seq<char>) -> bool {
    id_order(ids[k + 1]@, ids[k]@, prefix) != IdOrder::Less
}

pub open spec fn views(v: Seq<String>) -> Seq<Seq<char>> {
    v.map_values(|s: String| s@)
}

/// `x` moved down from the end of `s` past every item it orders before.
pub open spec fn insert_from_end(s: Seq<Seq<char>>, x: Seq<char>, prefix: Seq<char>) -> Seq<Seq<char>>
    decreases s.len(),
{
    if s.len() > 0 && id_order(x, s.last(), prefix) == IdOrder::Less {
        insert_from_end(s.drop_last(), x, prefix).push(s.last())
    } else {
        s.push(x)
    }
}

/// The insertion sort of `s` by `id_order`: each item in turn moved down
/// past the items before it that it orders before.
pub open spec fn sort_spec(s: Seq<Seq<char>>, prefix: Seq<char>) -> Seq<Seq<char>>
    decreases s.len(),
{
    if s.len() == 0 {
        s
    } else {
        insert_from_end(sort_spec(s.drop_last(), prefix), s.last(), prefix)
    }
}

proof fn lemma_insert_from_end_len(s: Seq<Seq<char>>, x: Seq<char>, prefix: Seq<char>)
    ensures
        insert_from_end(s, x, prefix).len() == s.len() + 1,
    decreases s.len(),
{
    if s.len() > 0 && id_order(x, s.last(), prefix) == IdOrder::Less {
        lemma_insert_from_end_len(s.drop_last(), x, prefix);
    }
}

pub proof fn lemma_sort_spec_len(s: Seq<Seq<char>>, prefix: Seq<char>)
    ensures
        sort_spec(s, prefix).len() == s.len(),
    decreases s.len(),
{
    if s.len() > 0 {
        lemma_sort_spec_len(s.drop_last(), prefix);
        lemma_insert_from_end_len(sort_spec(s.drop_last(), prefix), s.last(), prefix);
    }
}

proof fn lemma_insert_from_end_split(p: Seq<Seq<char>>, x: Seq<char>, prefix: Seq<char>, j: int)
    requires
        0 <= j <= p.len(),
        forall|k: int| j <= k < p.len() ==> id_order(x, #[trigger] p[k], prefix) == IdOrder::Less,
    ensures
        insert_from_end(p, x, prefix) == insert_from_end(p.take(j), x, prefix) + p.skip(j),
    decreases p.len() - j,
{
    if j == p.len() {
        assert(p.take(j) =~= p);
        assert(p.skip(j) =~= Seq::<Seq<char>>::empty());
        assert(insert_from_end(p.take(j), x, prefix) + p.skip(j) =~= insert_from_end(p, x, prefix));
    } else {
        let q = p.drop_last();
        assert forall|k: int| j <= k < q.len() implies id_order(x, #[trigger] q[k], prefix) == IdOrder::Less by {
            assert(q[k] == p[k]);
        }
        lemma_insert_from_end_split(q, x, prefix, j);
        assert(id_order(x, p[p.len() - 1], prefix) == IdOrder::Less);
        assert(q.take(j) =~= p.take(j));
        assert(q.skip(j).push(p.last()) =~= p.skip(j));
        assert(insert_from_end(p, x, prefix) == insert_from_end(q, x, prefix).push(p.last()));
        assert((insert_from_end(p.take(j), x, prefix) + q.skip(j)).push(p.last()) =~= insert_from_end(
            p.take(j),
            x,
            prefix,
        ) + p.skip(j));
    }
}

proof fn lemma_bubble_view(
    before: Seq<String>,
    after: Seq<String>,
    p: Seq<Seq<char>>,
    x: Seq<char>,
    rest: Seq<Seq<char>>,
    j: int,
)
    requires
        0 < j <= p.len(),
        j < before.len(),
        after == before.remove(j).insert(j - 1, before[j]),
        views(before) == p.take(j) + seq![x] + p.skip(j) + rest,
    ensures
        views(after) == p.take(j - 1) + seq![x] + p.skip(j - 1) + rest,
{
    let vb = views(before);
    assert(vb[j] == x);
    assert(vb[j - 1] == p[j - 1]);
    assert(after =~= before.update(j - 1, before[j]).update(j, before[j - 1]));
    assert(views(after) =~= vb.update(j - 1, x).update(j, p[j - 1]));
    assert(views(after) =~= p.take(j - 1) + seq![x] + p.skip(j - 1) + rest);
}

/// Stable sort of ids by `compare_sequenced_ids`.
pub fn sort_ids(ids: &mut Vec<String>, prefix: &[char])
    ensures
        final(ids)@.to_multiset() == old(ids)@.to_multiset(),
        views(final(ids)@).to_multiset() == views(old(ids)@).to_multiset(),
        final(ids)@.len() == old(ids)@.len(),
        adjacent_sorted(views(final(ids)@), prefix@),
        views(final(ids)@) == sort_spec(views(old(ids)@), prefix@),
{
    let ghost orig = views(ids@);
    let n = ids.len();
    let mut i: usize = 1;
    if n == 0 {
        assert(views(ids@) =~= orig);
        return;
    }
    assert(views(ids@) =~= views(old(ids)@));
    assert(orig.len() == n);
    assert(orig.take(1).drop_last() =~= Seq::<Seq<char>>::empty());
    assert(sort_spec(Seq::<Seq<char>>::empty(), prefix@) =~= Seq::<Seq<char>>::empty());
    assert(insert_from_end(Seq::<Seq<char>>::empty(), orig[0], prefix@) =~= seq![orig[0]]);
    assert(sort_spec(orig.take(1), prefix@) =~= orig.take(1));
    assert(views(ids@) =~= orig.take(1) + orig.skip(1));
    while i < n
        invariant
            1 <= i <= n,
            n == ids.len(),
            orig == views(old(ids)@),
            orig.len() == n,
            ids@.to_multiset() == old(ids)@.to_multiset(),
            views(ids@).to_multiset() == views(old(ids)@).to_multiset(),
            forall|k: int| 0 <= k < i - 1 ==> #[trigger] pair_ok(ids@, k, prefix@),
            views(ids@) == sort_spec(orig.take(i as int), prefix@) + orig.skip(i as int),
        decreases n - i,
    {
        let ghost p = sort_spec(orig.take(i as int), prefix@);
        let ghost x = orig[i as int];
        let ghost rest = orig.skip(i + 1);
        assert(orig.skip(i as int) =~= seq![x] + rest);
        proof {
            lemma_sort_spec_len(orig.take(i as int), prefix@);
        }
        let mut j: usize = i;
        assert(p.take(j as int) =~= p);
        assert(p.skip(j as int) =~= Seq::<Seq<char>>::empty());
        while j > 0 && is_less(&ids[j], &ids[j - 1], prefix)
            invariant
                0 <= j <= i < n,
                n == ids.len(),
                p.len() == i,
                ids@.to_multiset() == old(ids)@.to_multiset(),
                views(ids@).to_multiset() == views(old(ids)@).to_multiset(),
                forall|k: int| 0 <= k < i && k + 1 != j ==> #[trigger] pair_ok(ids@, k, prefix@),
                j < i && j > 0 ==> id_order(ids@[j + 1]@, ids@[j - 1]@, prefix@) != IdOrder::Less,
                views(ids@) == p.take(j as int) + seq![x] + p.skip(j as int) + rest,
                forall|k: int| j <= k < i ==> id_order(x, #[trigger] p[k], prefix@) == IdOrder::Less,
            decreases j,
        {
            let ghost before = ids@;
            assert(views(before)[j as int] == x);
            assert(views(before)[j - 1] == p[j - 1]);
            let a = ids.remove(j);
            ids.insert(j - 1, a);
            proof {
                lemma_swap_step(before, ids@, i as int, j as int, prefix@);
                lemma_bubble_view(before, ids@, p, x, rest, j as int);
            }
            j -= 1;
        }
        proof {
            let vi = views(ids@);
            assert(vi[j as int] == x);
            if j > 0 {
                assert(vi[j - 1] == p[j - 1]);
                assert(id_order(x, p[j - 1], prefix@) != IdOrder::Less);
                assert(p.take(j as int).last() == p[j - 1]);
            }
            assert(insert_from_end(p.take(j as int), x, prefix@) == p.take(j as int).push(x));
            lemma_insert_from_end_split(p, x, prefix@, j as int);
            assert(orig.take(i + 1).drop_last() =~= orig.take(i as int));
            assert(orig.take(i + 1).last() == x);
            assert(sort_spec(orig.take(i + 1), prefix@) == insert_from_end(p, x, prefix@));
            assert(views(ids@) =~= sort_spec(orig.take(i + 1), prefix@) + orig.skip(i + 1));
        }
        i += 1;
    }
    assert(orig.take(n as int) =~= orig);
    assert(orig.skip(n as int) =~= Seq::<Seq<char>>::empty());
    proof {
        lemma_sort_spec_len(orig, prefix@);
    }
    assert(views(ids@) =~= sort_spec(orig, prefix@));
    proof {
        assert forall|k: int| 0 <= k < views(ids@).len() - 1 implies id_order(
            #[trigger] views(ids@)[k + 1],
            views(ids@)[k],
            prefix@,
        ) != IdOrder::Less by {
            assert(pair_ok(ids@, k, prefix@));
            assert(views(ids@)[k + 1] == ids@[k + 1]@);
        }
    }
}

proof fn lemma_swap_step(before: Seq<String>, new: Seq<String>, i: int, j: int, prefix: Seq<char>)
    requires
        0 < j <= i < before.len(),
        new == before.remove(j).insert(j - 1, before[j]),
        id_order(before[j]@, before[j - 1]@, prefix) == IdOrder::Less,
        forall|k: int| 0 <= k < i && k + 1 != j ==> #[trigger] pair_ok(before, k, prefix),
        j < i ==> id_order(before[j + 1]@, before[j - 1]@, prefix) != IdOrder::Less,
    ensures
        new.to_multiset() == before.to_multiset(),
        views(new).to_multiset() == views(before).to_multiset(),
        new.len() == before.len(),
        forall|k: int| 0 <= k < i && k + 1 != j - 1 ==> #[trigger] pair_ok(new, k, prefix),
        j - 1 < i && j - 1 > 0 ==> id_order(new[j]@, new[j - 2]@, prefix) != IdOrder::Less,
{
    assert(new =~= before.update(j - 1, before[j]).update(j, before[j - 1]));
    lemma_swap_multiset(before, j - 1, j);
    lemma_swap_multiset(views(before), j - 1, j);
    assert(views(new) =~= views(before).update(j - 1, views(before)[j]).update(
        j,
        views(before)[j - 1],
    ));
    lemma_id_order_antisym(before[j]@, before[j - 1]@, prefix);
    assert forall|k: int| 0 <= k < i && k + 1 != j - 1 implies #[trigger] pair_ok(new, k, prefix) by {
        if k == j - 1 {
        } else if k == j {
            assert(new[k] == before[j - 1]);
            assert(new[k + 1] == before[k + 1]);
        } else {
            assert(pair_ok(before, k, prefix));
            assert(new[k] == before[k]);
            assert(new[k + 1] == before[k + 1]);
        }
    }
    if j - 1 > 0 {
        assert(pair_ok(before, j - 2, prefix));
        assert(new[j] == before[j - 1]);
        assert(new[j - 2] == before[j - 2]);
    }
}

pub proof fn lemma_swap_multiset<A>(s: Seq<A>, a: int, b: int)
    requires
        0 <= a < s.len(),
        0 <= b < s.len(),
    ensures
        s.update(a, s[b]).update(b, s[a]).to_multiset() == s.to_multiset(),
{
    broadcast use vstd::seq_lib::group_to_multiset_ensures;

    let t = s.update(a, s[b]);
    assert(t.to_multiset() == s.to_multiset().remove(s[a]).insert(s[b]));
    assert(t.update(b, s[a]).to_multiset() == t.to_multiset().remove(t[b]).insert(s[a]));
    if a == b {
    }
}

fn is_less(a: &String, b: &String, prefix: &[char]) -> (r: bool)
    ensures
        r == (id_order(a@, b@, prefix@) == IdOrder::Less),
{
    let av = crate::text::to_chars(a.as_str());
    let bv = crate::text::to_chars(b.as_str());
    match compare_sequenced_ids(&av, &bv, prefix) {
        IdOrder::Less => true,
        _ => false,
    }
}

/// Appends `value` unless an equal string is already present.
pub fn push_unique(items: &mut Vec<String>, value: String)
    ensures
        views(old(items)@).contains(value@) ==> final(items)@ == old(items)@,
        !views(old(items)@).contains(value@) ==> final(items)@ == old(items)@.push(value),
{
    let mut i: usize = 0;
    while i < items.len()
        invariant
            i <= items.len(),
            forall|k: int| 0 <= k < i ==> items@[k]@ != value@,
        decreases items.len() - i,
    {
        if items[i] == value {
            assert(views(items@)[i as int] == value@);
            return;
        }
        i += 1;
    }
    assert(!views(items@).contains(value@));
    items.push(value);
}

/// Position of the first string equal to `id`.
pub fn position_of(items: &[String], id: &String) -> (r: Option<usize>)
    ensures
        match r {
            Some(i) => i < items@.len() && items@[i as int]@ == id@ && forall|k: int|
                0 <= k < i ==> items@[k]@ != id@,
            None => forall|k: int| 0 <= k < items@.len() ==> items@[k]@ != id@,
        },
{
    let mut i: usize = 0;
    while i < items.len()
        invariant
            i <= items.len(),
            forall|k: int| 0 <= k < i ==> items@[k]@ != id@,
        decreases items.len() - i,
    {
        if items[i] == *id {
            return Some(i);
        }
        i += 1;
    }
    None
}

/// Orders two message ids.
pub fn compare_message_ids(a: &str, b: &str) -> (r: IdOrder)
    ensures
        r == id_order(a@, b@, msg_prefix()),
{
    let p = vec!['m', 's', 'g', '-'];
    assert(p@ =~= msg_prefix());
    compare_sequenced_ids(&to_chars(a), &to_chars(b), &p)
}

/// Orders two branch ids.
pub fn compare_branch_ids(a: &str, b: &str) -> (r: IdOrder)
    ensures
        r == id_order(a@, b@, branch_prefix()),
{
    let p = vec!['b', 'r', 'a', 'n', 'c', 'h', '-'];
    assert(p@ =~= branch_prefix());
    compare_sequenced_ids(&to_chars(a), &to_chars(b), &p)
}

/// The branch ids in order.
pub fn sorted_branch_ids(ids: &Vec<String>) -> (r: Vec<String>)
    ensures
        views(r@).to_multiset() == views(ids@).to_multiset(),
        r@.len() == ids@.len(),
        adjacent_sorted(views(r@), branch_prefix()),
        views(r@) == sort_spec(views(ids@), branch_prefix()),
{
    let mut out = crate::protocol::copy_strings(ids);
    let p = vec!['b', 'r', 'a', 'n', 'c', 'h', '-'];
    assert(p@ =~= branch_prefix());
    assert(views(out@) == views(ids@));
    sort_ids(&mut out, &p);
    out
}

/// Strictly increasing in string order.
pub open spec fn lex_ascending(s: Seq<Seq<char>>) -> bool {
    forall|i: int, j: int| 0 <= i < j < s.len() ==> lex_order(#[trigger] s[i], #[trigger] s[j]) == IdOrder::Less
}

/// The ids of a set in string order, as a sorted map holds its keys.
pub open spec fn string_order(ids: Set<Seq<char>>) -> Seq<Seq<char>> {
    choose|s: Seq<Seq<char>>| lex_ascending(s) && forall|x: Seq<char>| #[trigger] s.contains(x) <==> ids.contains(x)
}

proof fn lemma_lex_ascending_unique(a: Seq<Seq<char>>, b: Seq<Seq<char>>)
    requires
        lex_ascending(a),
        lex_ascending(b),
        forall|x: Seq<char>| a.contains(x) <==> b.contains(x),
    ensures
        a == b,
    decreases a.len(),
{
    if a.len() == 0 {
        if b.len() > 0 {
            assert(b.contains(b[0]));
            assert(a.contains(b[0]));
            assert(false);
        }
        assert(a =~= b);
    } else {
        assert(a.contains(a[0]));
        assert(b.contains(b[0]));
        let j = b.index_of(a[0]);
        let i = a.index_of(b[0]);
        lemma_lex_order_antisym(a[0], b[0]);
        if j > 0 && i > 0 {
            assert(lex_order(b[0], b[j]) == IdOrder::Less);
            assert(lex_order(a[0], a[i]) == IdOrder::Less);
        }
        if j > 0 && i == 0 {
            assert(lex_order(b[0], b[j]) == IdOrder::Less);
            lemma_lex_order_antisym(b[0], b[j]);
        }
        if i > 0 && j == 0 {
            assert(lex_order(a[0], a[i]) == IdOrder::Less);
            lemma_lex_order_antisym(a[0], a[i]);
        }
        assert(a[0] == b[0]);
        let a1 = a.drop_first();
        let b1 = b.drop_first();
        assert forall|x: Seq<char>| a1.contains(x) <==> b1.contains(x) by {
            if a1.contains(x) {
                let p = a1.index_of(x);
                assert(a[p + 1] == x);
                assert(lex_order(a[0], a[p + 1]) == IdOrder::Less);
                lemma_lex_order_antisym(a[0], x);
                assert(b.contains(x));
                let q = b.index_of(x);
                assert(q != 0);
                assert(b1[q - 1] == x);
            }
            if b1.contains(x) {
                let q = b1.index_of(x);
                assert(b[q + 1] == x);
                assert(lex_order(b[0], b[q + 1]) == IdOrder::Less);
                lemma_lex_order_antisym(b[0], x);
                assert(a.contains(x));
                let p = a.index_of(x);
                assert(p != 0);
                assert(a1[p - 1] == x);
            }
        }
        assert forall|k: int, l: int| 0 <= k < l < a1.len() implies lex_order(#[trigger] a1[k], #[trigger] a1[l])
            == IdOrder::Less by {
            assert(a1[k] == a[k + 1] && a1[l] == a[l + 1]);
        }
        assert forall|k: int, l: int| 0 <= k < l < b1.len() implies lex_order(#[trigger] b1[k], #[trigger] b1[l])
            == IdOrder::Less by {
            assert(b1[k] == b[k + 1] && b1[l] == b[l + 1]);
        }
        lemma_lex_ascending_unique(a1, b1);
        assert(a.len() == b.len());
        assert forall|i: int| 0 <= i < a.len() implies a[i] == b[i] by {
            if i > 0 {
                assert(a[i] == a1[i - 1]);
                assert(b[i] == b1[i - 1]);
            }
        }
        assert(a =~= b);
    }
}

/// A string-ordered sequence with the elements of `ids` is their string order.
pub proof fn lemma_string_order(s: Seq<Seq<char>>, ids: Set<Seq<char>>)
    requires
        lex_ascending(s),
        forall|x: Seq<char>| #[trigger] s.contains(x) <==> ids.contains(x),
    ensures
        string_order(ids) == s,
{
    let t = string_order(ids);
    assert(lex_ascending(t) && forall|x: Seq<char>| #[trigger] t.contains(x) <==> ids.contains(x));
    lemma_lex_ascending_unique(s, t);
}

/// The strings in string order; they must be distinct.
pub fn string_ordered(v: &Vec<String>) -> (r: Vec<String>)
    requires
        views(v@).no_duplicates(),
    ensures
        lex_ascending(views(r@)),
        forall|x: Seq<char>| #[trigger] views(r@).contains(x) <==> views(v@).contains(x),
{
    let mut out: Vec<String> = Vec::new();
    let mut i: usize = 0;
    while i < v.len()
        invariant
            i <= v@.len(),
            views(v@).no_duplicates(),
            lex_ascending(views(out@)),
            forall|x: Seq<char>| #[trigger] views(out@).contains(x) <==> views(v@).take(i as int).contains(x),
        decreases v@.len() - i,
    {
        let x = v[i].clone();
        let xc = crate::text::to_chars(x.as_str());
        let ghost o = views(out@);
        assert(!o.contains(x@)) by {
            if o.contains(x@) {
                let k = views(v@).take(i as int).index_of(x@);
                assert(views(v@)[k] == views(v@)[i as int]);
            }
        }
        let mut p: usize = 0;
        let mut stop = false;
        while p < out.len() && !stop
            invariant
                p <= out@.len(),
                o == views(out@),
                xc@ == x@,
                forall|k: int| 0 <= k < p ==> lex_order(x@, #[trigger] o[k]) != IdOrder::Less,
                stop ==> p < out@.len() && lex_order(x@, o[p as int]) == IdOrder::Less,
            decreases out@.len() - p, if stop { 0int } else { 1int },
        {
            let oc = crate::text::to_chars(out[p].as_str());
            match lex_compare(xc.as_slice(), oc.as_slice()) {
                IdOrder::Less => {
                    stop = true;
                },
                _ => {
                    p += 1;
                },
            }
        }
        out.insert(p, x.clone());
        proof {
            let n = views(out@);
            assert(n =~= o.take(p as int) + seq![x@] + o.skip(p as int));
            assert forall|a: int, b: int| 0 <= a < b < n.len() implies lex_order(#[trigger] n[a], #[trigger] n[b])
                == IdOrder::Less by {
                if b < p {
                    assert(n[a] == o[a] && n[b] == o[b]);
                } else if b == p {
                    assert(n[a] == o[a]);
                    lemma_lex_order_antisym(x@, o[a]);
                    assert(o[a] != x@);
                } else if a == p {
                    assert(n[b] == o[b - 1]);
                    assert(lex_order(x@, o[p as int]) == IdOrder::Less);
                    if b - 1 > p {
                        assert(lex_order(o[p as int], o[b - 1]) == IdOrder::Less);
                        lemma_lex_order_trans(x@, o[p as int], o[b - 1]);
                    }
                } else if a < p {
                    assert(n[a] == o[a] && n[b] == o[b - 1]);
                } else {
                    assert(n[a] == o[a - 1] && n[b] == o[b - 1]);
                }
            }
            assert(views(v@).take(i + 1) =~= views(v@).take(i as int).push(x@));
            assert forall|y: Seq<char>| #[trigger] n.contains(y) <==> views(v@).take(i + 1).contains(y) by {
                if n.contains(y) {
                    let q = n.index_of(y);
                    if q < p {
                        assert(o[q] == y);
                    } else if q > p {
                        assert(o[q - 1] == y);
                    }
                    if y != x@ {
                        assert(o.contains(y));
                        assert(views(v@).take(i as int).contains(y));
                        let r = views(v@).take(i as int).index_of(y);
                        assert(views(v@).take(i + 1)[r] == y);
                    } else {
                        assert(views(v@).take(i + 1)[i as int] == y);
                    }
                }
                if views(v@).take(i + 1).contains(y) {
                    let r = views(v@).take(i + 1).index_of(y);
                    if r == i {
                        assert(n[p as int] == y);
                    } else {
                        assert(views(v@).take(i as int)[r] == y);
                        assert(o.contains(y));
                        let q = o.index_of(y);
                        if q < p {
                            assert(n[q] == y);
                        } else {
                            assert(n[q + 1] == y);
                        }
                    }
                }
            }
        }
        i += 1;
    }
    assert(views(v@).take(i as int) =~= views(v@));
    out
}

} // verus!
