//! Ranking the entries of a directory as attachment candidates: each entry
//! whose name matches the typed fragment is scored, the candidates are put
//! in rank order (best score, directories before files, then by the
//! lower-cased and the exact path) and the best fifty are offered.
use vstd::prelude::*;

use crate::attachments::{fuzzy_score, fuzzy_score_of, AttachmentEntryKind, AttachmentSuggestion};
use crate::ids::{lex_compare, lex_order, lemma_lex_order_antisym, lemma_lex_order_trans, IdOrder};
use crate::text::{owned, push_str, to_chars, to_lowercase, unicode_lower};

verus! {

/// Candidates beyond this many are not offered.
pub const ATTACHMENT_SUGGESTION_LIMIT: usize = 50;

/// One entry of the searched directory: its file name, whether it is a
/// directory, and its path as shown and as resolved.
#[derive(Debug, Clone)]
pub struct AttachmentEntry {
    pub name: String,
    pub is_dir: bool,
    pub display_path: String,
    pub resolved_path: String,
}

/// The offered candidates and a status line about them.
#[derive(Debug, Clone)]
pub struct AttachmentSearchResults {
    pub suggestions: Vec<AttachmentSuggestion>,
    pub status: Option<String>,
}

pub ghost struct SuggestionView {
    pub display: Seq<char>,
    pub resolved: Seq<char>,
    pub kind: AttachmentEntryKind,
    pub score: int,
}

pub open spec fn suggestion_view(s: AttachmentSuggestion) -> SuggestionView {
    SuggestionView {
        display: s.display_path@,
        resolved: s.resolved_path@,
        kind: s.kind,
        score: s.score as int,
    }
}

pub open spec fn suggestion_views(s: Seq<AttachmentSuggestion>) -> Seq<SuggestionView> {
    s.map_values(|x: AttachmentSuggestion| suggestion_view(x))
}

pub open spec fn entry_kind(e: AttachmentEntry) -> AttachmentEntryKind {
    if e.is_dir {
        AttachmentEntryKind::Directory
    } else {
        AttachmentEntryKind::File
    }
}

/// The candidates among `entries`, in directory order: those whose name
/// matches `fragment`, with their score.
pub open spec fn scored_candidates(entries: Seq<AttachmentEntry>, fragment: Seq<char>) -> Seq<
    SuggestionView,
>
    decreases entries.len(),
{
    if entries.len() == 0 {
        Seq::empty()
    } else {
        let e = entries.last();
        let rest = scored_candidates(entries.drop_last(), fragment);
        match fuzzy_score_of(e.name@, fragment) {
            Some(score) => rest.push(
                SuggestionView {
                    display: e.display_path@,
                    resolved: e.resolved_path@,
                    kind: entry_kind(e),
                    score,
                },
            ),
            None => rest,
        }
    }
}

pub open spec fn kind_rank(k: AttachmentEntryKind) -> int {
    match k {
        AttachmentEntryKind::Directory => 0,
        AttachmentEntryKind::File => 1,
    }
}

/// Whether `a` is ranked strictly before `b`: a higher score, then a
/// directory before a file, then the lower-cased path, then the path.
pub open spec fn ranks_before(a: SuggestionView, b: SuggestionView) -> bool {
    ||| a.score > b.score
    ||| (a.score == b.score && kind_rank(a.kind) < kind_rank(b.kind))
    ||| (a.score == b.score && a.kind == b.kind && lex_order(
        unicode_lower(a.display),
        unicode_lower(b.display),
    ) == IdOrder::Less)
    ||| (a.score == b.score && a.kind == b.kind && unicode_lower(a.display) == unicode_lower(
        b.display,
    ) && lex_order(a.display, b.display) == IdOrder::Less)
}

/// No candidate is ranked before one that comes earlier.
pub open spec fn in_rank_order(s: Seq<SuggestionView>) -> bool {
    forall|i: int, j: int| 0 <= i < j < s.len() ==> !ranks_before(#[trigger] s[j], #[trigger] s[i])
}

/// `full` is `cands` in rank order.
pub open spec fn ranking_of(full: Seq<SuggestionView>, cands: Seq<SuggestionView>) -> bool {
    full.to_multiset() == cands.to_multiset() && in_rank_order(full)
}

/// `shown` is the first `ATTACHMENT_SUGGESTION_LIMIT` of `cands` in rank
/// order.
pub open spec fn top_ranked(shown: Seq<SuggestionView>, cands: Seq<SuggestionView>) -> bool {
    exists|full: Seq<SuggestionView>|
        #[trigger] ranking_of(full, cands) && shown == full.take(
            if full.len() > ATTACHMENT_SUGGESTION_LIMIT {
                ATTACHMENT_SUGGESTION_LIMIT as int
            } else {
                full.len() as int
            },
        )
}

pub open spec fn search_status(count: nat) -> Option<Seq<char>> {
    if count == 0 {
        Some("No matching attachments"@)
    } else if count > ATTACHMENT_SUGGESTION_LIMIT {
        Some("Showing top 50 matches"@)
    } else {
        None
    }
}

proof fn lemma_ranks_before_trans(a: SuggestionView, b: SuggestionView, c: SuggestionView)
    requires
        ranks_before(a, b),
        ranks_before(b, c),
    ensures
        ranks_before(a, c),
{
    let (la, lb, lc) = (unicode_lower(a.display), unicode_lower(b.display), unicode_lower(c.display));
    if a.score == b.score && b.score == c.score && a.kind == b.kind && b.kind == c.kind {
        lemma_lex_order_antisym(la, lb);
        lemma_lex_order_antisym(lb, lc);
        lemma_lex_order_antisym(la, lc);
        if lex_order(la, lb) == IdOrder::Less && lex_order(lb, lc) == IdOrder::Less {
            lemma_lex_order_trans(la, lb, lc);
        } else if lex_order(la, lb) == IdOrder::Less {
        } else if lex_order(lb, lc) == IdOrder::Less {
        } else {
            lemma_lex_order_trans(a.display, b.display, c.display);
        }
    }
}

proof fn lemma_ranks_before_irreflexive(a: SuggestionView)
    ensures
        !ranks_before(a, a),
{
    lemma_lex_order_antisym(unicode_lower(a.display), unicode_lower(a.display));
    lemma_lex_order_antisym(a.display, a.display);
}

/// A candidate with its sort keys: the characters of its path, as they
/// are and lower-cased.
struct Ranked {
    suggestion: AttachmentSuggestion,
    display: Vec<char>,
    lowered: Vec<char>,
}

spec fn ranked_wf(r: Ranked) -> bool {
    &&& r.display@ == r.suggestion.display_path@
    &&& r.lowered@ == unicode_lower(r.suggestion.display_path@)
}

spec fn ranked_views(v: Seq<Ranked>) -> Seq<SuggestionView> {
    v.map_values(|r: Ranked| suggestion_view(r.suggestion))
}

fn precedes(a: &Ranked, b: &Ranked) -> (r: bool)
    requires
        ranked_wf(*a),
        ranked_wf(*b),
    ensures
        r == ranks_before(suggestion_view(a.suggestion), suggestion_view(b.suggestion)),
{
    let (sa, sb) = (&a.suggestion, &b.suggestion);
    if sa.score != sb.score {
        return sa.score > sb.score;
    }
    let ka: u8 = match sa.kind {
        AttachmentEntryKind::Directory => 0,
        AttachmentEntryKind::File => 1,
    };
    let kb: u8 = match sb.kind {
        AttachmentEntryKind::Directory => 0,
        AttachmentEntryKind::File => 1,
    };
    if ka != kb {
        return ka < kb;
    }
    proof {
        lemma_lex_order_antisym(a.lowered@, b.lowered@);
    }
    match lex_compare(a.lowered.as_slice(), b.lowered.as_slice()) {
        IdOrder::Less => true,
        IdOrder::Greater => false,
        IdOrder::Equal => {
            proof {
                lemma_lex_order_antisym(a.lowered@, b.lowered@);
            }
            match lex_compare(a.display.as_slice(), b.display.as_slice()) {
                IdOrder::Less => true,
                _ => false,
            }
        },
    }
}

/// Puts the candidates in rank order.
fn sort_ranked(items: &mut Vec<Ranked>)
    requires
        forall|k: int| 0 <= k < old(items)@.len() ==> ranked_wf(#[trigger] old(items)@[k]),
    ensures
        final(items)@.len() == old(items)@.len(),
        forall|k: int| 0 <= k < final(items)@.len() ==> ranked_wf(#[trigger] final(items)@[k]),
        ranked_views(final(items)@).to_multiset() == ranked_views(old(items)@).to_multiset(),
        in_rank_order(ranked_views(final(items)@)),
{
    let n = items.len();
    if n == 0 {
        return;
    }
    let mut i: usize = 1;
    while i < n
        invariant
            1 <= i <= n == items@.len(),
            forall|k: int| 0 <= k < items@.len() ==> ranked_wf(#[trigger] items@[k]),
            ranked_views(items@).to_multiset() == ranked_views(old(items)@).to_multiset(),
            forall|a: int, b: int|
                0 <= a < b < i ==> !ranks_before(
                    #[trigger] suggestion_view(items@[b].suggestion),
                    #[trigger] suggestion_view(items@[a].suggestion),
                ),
        decreases n - i,
    {
        let ghost before = items@;
        let x = items.remove(i);
        let mut p: usize = 0;
        while p < i && !precedes(&x, &items[p])
            invariant
                p <= i < n,
                before.len() == n,
                x == before[i as int],
                items@ == before.remove(i as int),
                ranked_wf(x),
                forall|k: int| 0 <= k < items@.len() ==> ranked_wf(#[trigger] items@[k]),
                forall|k: int|
                    0 <= k < p ==> !ranks_before(
                        suggestion_view(x.suggestion),
                        #[trigger] suggestion_view(items@[k].suggestion),
                    ),
            decreases i - p,
        {
            p += 1;
        }
        let ghost removed = items@;
        items.insert(p, x);
        proof {
            let vb = ranked_views(before);
            let xv = suggestion_view(x.suggestion);
            assert(ranked_views(removed) =~= vb.remove(i as int));
            assert(ranked_views(items@) =~= vb.remove(i as int).insert(p as int, xv));
            vstd::seq_lib::to_multiset_remove(vb, i as int);
            vstd::seq_lib::to_multiset_insert(vb.remove(i as int), p as int, xv);
            assert(vb.to_multiset().remove(xv).insert(xv) =~= vb.to_multiset()) by {
                vb.to_multiset_ensures();
                assert(vb[i as int] == xv);
                assert(vb.contains(vb[i as int]));
            }
            assert forall|k: int| 0 <= k < items@.len() implies ranked_wf(#[trigger] items@[k]) by {
                if k < p {
                    assert(items@[k] == removed[k]);
                } else if k > p {
                    assert(items@[k] == removed[k - 1]);
                }
            }
            assert forall|a: int, b: int| 0 <= a < b < i + 1 implies !ranks_before(
                #[trigger] suggestion_view(items@[b].suggestion),
                #[trigger] suggestion_view(items@[a].suggestion),
            ) by {
                if b < p {
                    assert(items@[a] == before[a] && items@[b] == before[b]);
                } else if b == p {
                    assert(items@[b] == x);
                    assert(items@[a] == removed[a]);
                } else if a == p {
                    assert(items@[a] == x);
                    assert(items@[b] == removed[b - 1]);
                    assert(removed[b - 1] == before[b - 1]);
                    let yv = suggestion_view(before[b - 1].suggestion);
                    if p < i {
                        let pv = suggestion_view(before[p as int].suggestion);
                        assert(ranks_before(xv, suggestion_view(removed[p as int].suggestion)));
                        assert(removed[p as int] == before[p as int]);
                        if p < b - 1 {
                            assert(!ranks_before(yv, pv));
                        }
                        if ranks_before(yv, xv) {
                            if p < b - 1 {
                                lemma_ranks_before_trans(yv, xv, pv);
                            } else {
                                lemma_ranks_before_trans(xv, pv, xv);
                                lemma_ranks_before_irreflexive(xv);
                            }
                        }
                    }
                } else if a < p {
                    assert(items@[a] == before[a]);
                    assert(items@[b] == before[b - 1]);
                } else {
                    assert(items@[a] == before[a - 1]);
                    assert(items@[b] == before[b - 1]);
                }
            }
        }
        i += 1;
    }
    proof {
        let vs = ranked_views(items@);
        assert forall|a: int, b: int| 0 <= a < b < vs.len() implies !ranks_before(
            #[trigger] vs[b],
            #[trigger] vs[a],
        ) by {
            assert(vs[a] == suggestion_view(items@[a].suggestion));
            assert(vs[b] == suggestion_view(items@[b].suggestion));
        }
    }
}

/// Scores the entries of a directory against the typed fragment and
/// offers the best candidates in rank order, with a status line where
/// nothing matched or candidates were left out.
pub fn rank_attachment_suggestions(entries: Vec<AttachmentEntry>, fragment: &str) -> (r:
    AttachmentSearchResults)
    ensures
        top_ranked(suggestion_views(r.suggestions@), scored_candidates(entries@, fragment@)),
        crate::protocol::opt_view(r.status) == search_status(
            scored_candidates(entries@, fragment@).len(),
        ),
{
    let mut items: Vec<Ranked> = Vec::new();
    let mut i: usize = 0;
    while i < entries.len()
        invariant
            i <= entries@.len(),
            forall|k: int| 0 <= k < items@.len() ==> ranked_wf(#[trigger] items@[k]),
            ranked_views(items@) == scored_candidates(entries@.take(i as int), fragment@),
        decreases entries@.len() - i,
    {
        let e = &entries[i];
        proof {
            assert(entries@.take(i + 1).drop_last() =~= entries@.take(i as int));
            assert(entries@.take(i + 1).last() == entries@[i as int]);
        }
        match fuzzy_score(e.name.as_str(), fragment) {
            Some(score) => {
                let kind = if e.is_dir {
                    AttachmentEntryKind::Directory
                } else {
                    AttachmentEntryKind::File
                };
                let display = to_chars(e.display_path.as_str());
                let lowered = to_chars(to_lowercase(e.display_path.as_str()).as_str());
                let suggestion = AttachmentSuggestion {
                    display_path: owned(e.display_path.as_str()),
                    resolved_path: owned(e.resolved_path.as_str()),
                    kind,
                    score,
                };
                let ghost before = ranked_views(items@);
                items.push(Ranked { suggestion, display, lowered });
                assert(ranked_views(items@) =~= before.push(suggestion_view(suggestion)));
            },
            None => {},
        }
        i += 1;
    }
    assert(entries@.take(entries@.len() as int) =~= entries@);
    let ghost cands = ranked_views(items@);
    sort_ranked(&mut items);
    let ghost full = ranked_views(items@);
    let count = items.len();
    let shown_count = if count > ATTACHMENT_SUGGESTION_LIMIT {
        ATTACHMENT_SUGGESTION_LIMIT
    } else {
        count
    };
    items.truncate(shown_count);
    assert(ranked_views(items@) =~= full.take(shown_count as int));
    let ghost shown = ranked_views(items@);
    let mut suggestions: Vec<AttachmentSuggestion> = Vec::new();
    let mut k: usize = 0;
    while items.len() > 0
        invariant
            k + items@.len() == shown.len(),
            shown.len() == shown_count,
            k <= shown_count,
            ranked_views(items@) == shown.skip(k as int),
            suggestion_views(suggestions@) == shown.take(k as int),
        decreases items@.len(),
    {
        let ghost rest = items@;
        let r = items.remove(0);
        let ghost before = suggestion_views(suggestions@);
        suggestions.push(r.suggestion);
        assert(ranked_views(items@) =~= shown.skip(k + 1)) by {
            assert(ranked_views(rest) =~= shown.skip(k as int));
            assert(items@ =~= rest.drop_first());
            assert forall|j: int| 0 <= j < items@.len() implies #[trigger] ranked_views(items@)[j] == shown.skip(k + 1)[j] by {
                assert(ranked_views(rest)[j + 1] == shown.skip(k as int)[j + 1]);
            }
        }
        assert(suggestion_views(suggestions@) =~= shown.take(k + 1)) by {
            assert(r == rest[0]);
            assert(ranked_views(rest)[0] == shown.skip(k as int)[0]);
            assert(shown.skip(k as int)[0] == shown[k as int]);
            assert(suggestion_views(suggestions@) =~= before.push(suggestion_view(r.suggestion)));
            assert(shown.take(k + 1) =~= shown.take(k as int).push(shown[k as int]));
        }
        k += 1;
    }
    assert(shown.take(k as int) =~= shown);
    proof {
        assert(ranking_of(full, cands));
    }
    let status = if count == 0 {
        Some(owned("No matching attachments"))
    } else if count > ATTACHMENT_SUGGESTION_LIMIT {
        Some(owned("Showing top 50 matches"))
    } else {
        None
    };
    AttachmentSearchResults { suggestions, status }
}

/// A directory preview lists at most this many entries.
pub const ATTACHMENT_PREVIEW_MAX_LINES: usize = 50;

pub ghost struct ListedView {
    pub name: Seq<char>,
    pub is_dir: bool,
}

/// Whether entry `a` is listed before `b`: by lower-cased name, then by
/// name.
pub open spec fn listed_before(a: ListedView, b: ListedView) -> bool {
    ||| lex_order(unicode_lower(a.name), unicode_lower(b.name)) == IdOrder::Less
    ||| (unicode_lower(a.name) == unicode_lower(b.name) && lex_order(a.name, b.name) == IdOrder::Less)
}

pub open spec fn in_listing_order(s: Seq<ListedView>) -> bool {
    forall|i: int, j: int| 0 <= i < j < s.len() ==> !listed_before(#[trigger] s[j], #[trigger] s[i])
}

pub open spec fn listed_views(entries: Seq<(String, bool)>) -> Seq<ListedView> {
    entries.map_values(|e: (String, bool)| ListedView { name: e.0@, is_dir: e.1 })
}

pub open spec fn listing_line(e: ListedView) -> Seq<char> {
    "- "@ + e.name + if e.is_dir {
        "/"@
    } else {
        Seq::empty()
    }
}

/// What the preview of a directory shows, given its entries in listing
/// order.
pub open spec fn directory_preview_of(
    display_path: Seq<char>,
    kind: AttachmentEntryKind,
    sorted: Seq<ListedView>,
) -> (Seq<Seq<char>>, Seq<Seq<char>>, Option<Seq<char>>) {
    let n = sorted.len();
    let shown = if n > ATTACHMENT_PREVIEW_MAX_LINES {
        ATTACHMENT_PREVIEW_MAX_LINES as nat
    } else {
        n
    };
    let kind_label = match kind {
        AttachmentEntryKind::File => "file"@,
        AttachmentEntryKind::Directory => "directory"@,
    };
    (
        seq![
            "Path: "@ + display_path,
            "Type: "@ + kind_label,
            "Entries: "@ + crate::text::decimal(shown) + if n > ATTACHMENT_PREVIEW_MAX_LINES {
                "+"@
            } else {
                Seq::empty()
            },
        ],
        sorted.take(shown as int).map_values(|e: ListedView| listing_line(e)),
        if n > ATTACHMENT_PREVIEW_MAX_LINES {
            Some("Directory listing truncated after 50 entries"@)
        } else {
            None
        },
    )
}

proof fn lemma_listed_before_trans(a: ListedView, b: ListedView, c: ListedView)
    requires
        listed_before(a, b),
        listed_before(b, c),
    ensures
        listed_before(a, c),
{
    let (la, lb, lc) = (unicode_lower(a.name), unicode_lower(b.name), unicode_lower(c.name));
    lemma_lex_order_antisym(la, lb);
    lemma_lex_order_antisym(lb, lc);
    lemma_lex_order_antisym(la, lc);
    if lex_order(la, lb) == IdOrder::Less && lex_order(lb, lc) == IdOrder::Less {
        lemma_lex_order_trans(la, lb, lc);
    } else if lex_order(la, lb) == IdOrder::Less {
    } else if lex_order(lb, lc) == IdOrder::Less {
    } else {
        lemma_lex_order_trans(a.name, b.name, c.name);
    }
}

proof fn lemma_listed_before_irreflexive(a: ListedView)
    ensures
        !listed_before(a, a),
{
    lemma_lex_order_antisym(unicode_lower(a.name), unicode_lower(a.name));
    lemma_lex_order_antisym(a.name, a.name);
}

struct Listed {
    name: String,
    is_dir: bool,
    chars: Vec<char>,
    lowered: Vec<char>,
}

spec fn listed_wf(l: Listed) -> bool {
    &&& l.chars@ == l.name@
    &&& l.lowered@ == unicode_lower(l.name@)
}

spec fn listed_view(l: Listed) -> ListedView {
    ListedView { name: l.name@, is_dir: l.is_dir }
}

spec fn listed_seq_views(v: Seq<Listed>) -> Seq<ListedView> {
    v.map_values(|l: Listed| listed_view(l))
}

fn listed_precedes(a: &Listed, b: &Listed) -> (r: bool)
    requires
        listed_wf(*a),
        listed_wf(*b),
    ensures
        r == listed_before(listed_view(*a), listed_view(*b)),
{
    proof {
        lemma_lex_order_antisym(a.lowered@, b.lowered@);
    }
    match lex_compare(a.lowered.as_slice(), b.lowered.as_slice()) {
        IdOrder::Less => true,
        IdOrder::Greater => false,
        IdOrder::Equal => match lex_compare(a.chars.as_slice(), b.chars.as_slice()) {
            IdOrder::Less => true,
            _ => false,
        },
    }
}

fn sort_listed(items: &mut Vec<Listed>)
    requires
        forall|k: int| 0 <= k < old(items)@.len() ==> listed_wf(#[trigger] old(items)@[k]),
    ensures
        final(items)@.len() == old(items)@.len(),
        forall|k: int| 0 <= k < final(items)@.len() ==> listed_wf(#[trigger] final(items)@[k]),
        listed_seq_views(final(items)@).to_multiset() == listed_seq_views(old(items)@).to_multiset(),
        in_listing_order(listed_seq_views(final(items)@)),
{
    let n = items.len();
    if n == 0 {
        return;
    }
    let mut i: usize = 1;
    while i < n
        invariant
            1 <= i <= n == items@.len(),
            forall|k: int| 0 <= k < items@.len() ==> listed_wf(#[trigger] items@[k]),
            listed_seq_views(items@).to_multiset() == listed_seq_views(old(items)@).to_multiset(),
            forall|a: int, b: int|
                0 <= a < b < i ==> !listed_before(
                    #[trigger] listed_view(items@[b]),
                    #[trigger] listed_view(items@[a]),
                ),
        decreases n - i,
    {
        let ghost before = items@;
        let x = items.remove(i);
        let mut p: usize = 0;
        while p < i && !listed_precedes(&x, &items[p])
            invariant
                p <= i < n,
                before.len() == n,
                x == before[i as int],
                items@ == before.remove(i as int),
                listed_wf(x),
                forall|k: int| 0 <= k < items@.len() ==> listed_wf(#[trigger] items@[k]),
                forall|k: int|
                    0 <= k < p ==> !listed_before(listed_view(x), #[trigger] listed_view(items@[k])),
            decreases i - p,
        {
            p += 1;
        }
        let ghost removed = items@;
        items.insert(p, x);
        proof {
            let vb = listed_seq_views(before);
            let xv = listed_view(x);
            assert(listed_seq_views(removed) =~= vb.remove(i as int));
            assert(listed_seq_views(items@) =~= vb.remove(i as int).insert(p as int, xv));
            vstd::seq_lib::to_multiset_remove(vb, i as int);
            vstd::seq_lib::to_multiset_insert(vb.remove(i as int), p as int, xv);
            assert(vb.to_multiset().remove(xv).insert(xv) =~= vb.to_multiset()) by {
                vb.to_multiset_ensures();
                assert(vb[i as int] == xv);
                assert(vb.contains(vb[i as int]));
            }
            assert forall|k: int| 0 <= k < items@.len() implies listed_wf(#[trigger] items@[k]) by {
                if k < p {
                    assert(items@[k] == removed[k]);
                } else if k > p {
                    assert(items@[k] == removed[k - 1]);
                }
            }
            assert forall|a: int, b: int| 0 <= a < b < i + 1 implies !listed_before(
                #[trigger] listed_view(items@[b]),
                #[trigger] listed_view(items@[a]),
            ) by {
                if b < p {
                    assert(items@[a] == before[a] && items@[b] == before[b]);
                } else if b == p {
                    assert(items@[b] == x);
                    assert(items@[a] == removed[a]);
                } else if a == p {
                    assert(items@[a] == x);
                    assert(items@[b] == removed[b - 1]);
                    assert(removed[b - 1] == before[b - 1]);
                    let yv = listed_view(before[b - 1]);
                    if p < i {
                        let pv = listed_view(before[p as int]);
                        assert(listed_before(xv, listed_view(removed[p as int])));
                        assert(removed[p as int] == before[p as int]);
                        if p < b - 1 {
                            assert(!listed_before(yv, pv));
                        }
                        if listed_before(yv, xv) {
                            if p < b - 1 {
                                lemma_listed_before_trans(yv, xv, pv);
                            } else {
                                lemma_listed_before_trans(xv, pv, xv);
                                lemma_listed_before_irreflexive(xv);
                            }
                        }
                    }
                } else if a < p {
                    assert(items@[a] == before[a]);
                    assert(items@[b] == before[b - 1]);
                } else {
                    assert(items@[a] == before[a - 1]);
                    assert(items@[b] == before[b - 1]);
                }
            }
        }
        i += 1;
    }
    proof {
        let vs = listed_seq_views(items@);
        assert forall|a: int, b: int| 0 <= a < b < vs.len() implies !listed_before(
            #[trigger] vs[b],
            #[trigger] vs[a],
        ) by {
            assert(vs[a] == listed_view(items@[a]));
            assert(vs[b] == listed_view(items@[b]));
        }
    }
}

/// The preview of a directory candidate from its entries (name and whether
/// each is a directory, in any order): they are listed by lower-cased and
/// then exact name, at most fifty of them.
pub fn directory_preview(suggestion: &AttachmentSuggestion, entries: Vec<(String, bool)>) -> (r:
    crate::attachments::AttachmentPreview)
    ensures
        exists|sorted: Seq<ListedView>|
            #![trigger directory_preview_of(suggestion.display_path@, suggestion.kind, sorted)]
            sorted.to_multiset() == listed_views(entries@).to_multiset() && in_listing_order(sorted)
                && directory_preview_of(suggestion.display_path@, suggestion.kind, sorted) == (
                string_views_of(r.metadata@),
                string_views_of(r.lines@),
                crate::protocol::opt_view(r.note),
            ),
{
    let mut items: Vec<Listed> = Vec::new();
    let mut i: usize = 0;
    while i < entries.len()
        invariant
            i <= entries@.len(),
            items@.len() == i,
            forall|k: int| 0 <= k < items@.len() ==> listed_wf(#[trigger] items@[k]),
            listed_seq_views(items@) == listed_views(entries@.take(i as int)),
        decreases entries@.len() - i,
    {
        let name = owned(entries[i].0.as_str());
        let chars = to_chars(name.as_str());
        let lowered = to_chars(to_lowercase(name.as_str()).as_str());
        let ghost before = listed_seq_views(items@);
        items.push(Listed { name, is_dir: entries[i].1, chars, lowered });
        assert(listed_views(entries@.take(i + 1)) =~= listed_views(entries@.take(i as int)).push(
            ListedView { name: entries@[i as int].0@, is_dir: entries@[i as int].1 },
        ));
        assert(listed_seq_views(items@) =~= before.push(listed_view(items@[i as int])));
        i += 1;
    }
    assert(entries@.take(entries@.len() as int) =~= entries@);
    sort_listed(&mut items);
    let ghost sorted = listed_seq_views(items@);
    let n = items.len();
    let shown = if n > ATTACHMENT_PREVIEW_MAX_LINES {
        ATTACHMENT_PREVIEW_MAX_LINES
    } else {
        n
    };
    let mut lines: Vec<String> = Vec::new();
    let mut k: usize = 0;
    while k < shown
        invariant
            k <= shown <= items@.len(),
            sorted == listed_seq_views(items@),
            string_views_of(lines@) == sorted.take(k as int).map_values(|e: ListedView| listing_line(e)),
        decreases shown - k,
    {
        let mut line = owned("- ");
        push_str(&mut line, items[k].name.as_str());
        if items[k].is_dir {
            push_str(&mut line, "/");
        }
        let ghost before = string_views_of(lines@);
        lines.push(line);
        assert(sorted[k as int] == listed_view(items@[k as int]));
        assert(sorted.take(k + 1).map_values(|e: ListedView| listing_line(e)) =~= sorted.take(
            k as int,
        ).map_values(|e: ListedView| listing_line(e)).push(listing_line(sorted[k as int])));
        assert(string_views_of(lines@) =~= before.push(line@));
        k += 1;
    }
    let mut path_line = owned("Path: ");
    push_str(&mut path_line, suggestion.display_path.as_str());
    let mut type_line = owned("Type: ");
    push_str(&mut type_line, suggestion.kind.preview_label());
    let mut entries_line = owned("Entries: ");
    push_str(&mut entries_line, crate::text::usize_to_string(shown).as_str());
    if n > ATTACHMENT_PREVIEW_MAX_LINES {
        push_str(&mut entries_line, "+");
    }
    let metadata = vec![path_line, type_line, entries_line];
    let note = if n > ATTACHMENT_PREVIEW_MAX_LINES {
        Some(owned("Directory listing truncated after 50 entries"))
    } else {
        None
    };
    let r = crate::attachments::AttachmentPreview { metadata, lines, note };
    assert(string_views_of(r.metadata@) =~= directory_preview_of(
        suggestion.display_path@,
        suggestion.kind,
        sorted,
    ).0);
    assert(directory_preview_of(suggestion.display_path@, suggestion.kind, sorted) == (
        string_views_of(r.metadata@),
        string_views_of(r.lines@),
        crate::protocol::opt_view(r.note),
    ));
    r
}

pub open spec fn string_views_of(v: Seq<String>) -> Seq<Seq<char>> {
    v.map_values(|s: String| s@)
}

} // verus!
