//! Persistent memory notes: how the file is read and written, and which
//! notes a search finds.
use vstd::prelude::*;

use crate::ids::views;
use crate::text::{
    contains, contains_chars, from_chars, lines, lower, lower_vec, owned, push_str, slice_vec,
    split_lines, starts_with, starts_with_chars, string_views, to_chars, trim, trim_str, trim_vec,
};

verus! {

/// The most notes that are kept.
pub const MAX_MEMORY_NOTES: usize = 200;

/// The note that a line of the memory file holds: trimmed, without a
/// leading `- `, and not blank.
pub open spec fn note_of_line(l: Seq<char>) -> Option<Seq<char>> {
    let t = trim(l);
    let u = trim(if starts_with(t, "- "@) {
        t.skip(2)
    } else {
        t
    });
    if t.len() == 0 || u.len() == 0 {
        None
    } else {
        Some(u)
    }
}

pub open spec fn notes_of_lines(ls: Seq<Seq<char>>) -> Seq<Seq<char>>
    decreases ls.len(),
{
    if ls.len() == 0 {
        Seq::empty()
    } else {
        match note_of_line(ls.last()) {
            Some(n) => notes_of_lines(ls.drop_last()).push(n),
            None => notes_of_lines(ls.drop_last()),
        }
    }
}

/// The notes of a memory file.
pub fn parse_notes(content: &str) -> (r: Vec<String>)
    ensures
        string_views(r@) == notes_of_lines(lines(content@)),
{
    let all = split_lines(content);
    let ghost ls = all@.map_values(|l: Vec<char>| l@);
    let marker = to_chars("- ");
    let mut notes: Vec<String> = Vec::new();
    let mut i: usize = 0;
    while i < all.len()
        invariant
            i <= all@.len(),
            ls == all@.map_values(|l: Vec<char>| l@),
            marker@ == "- "@,
            string_views(notes@) == notes_of_lines(ls.take(i as int)),
        decreases all@.len() - i,
    {
        assert(ls.take(i + 1).drop_last() =~= ls.take(i as int));
        assert(ls.take(i + 1).last() == all@[i as int]@);
        let t = trim_vec(all[i].as_slice());
        let u = if starts_with_chars(&t, &marker) {
            proof {
                reveal_strlit("- ");
            }
            let rest = slice_vec(&t, 2, t.len());
            assert(rest@ =~= t@.skip(2));
            trim_vec(&rest)
        } else {
            trim_vec(&t)
        };
        if t.len() > 0 && u.len() > 0 {
            let ghost before = notes@;
            notes.push(from_chars(&u));
            assert(string_views(notes@) =~= string_views(before).push(u@));
        }
        i += 1;
    }
    assert(ls.take(i as int) =~= ls);
    notes
}

/// The text of a memory file: one `- note` line per note, trimmed.
pub open spec fn notes_text(notes: Seq<Seq<char>>) -> Seq<char>
    decreases notes.len(),
{
    if notes.len() == 0 {
        Seq::empty()
    } else {
        notes_text(notes.drop_last()) + "- "@ + trim(notes.last()) + "\n"@
    }
}

pub fn render_notes(notes: &Vec<String>) -> (r: String)
    ensures
        r@ == notes_text(string_views(notes@)),
{
    let mut out = String::new();
    let mut i: usize = 0;
    assert(string_views(notes@).take(0) =~= Seq::<Seq<char>>::empty());
    while i < notes.len()
        invariant
            i <= notes@.len(),
            out@ == notes_text(string_views(notes@).take(i as int)),
        decreases notes@.len() - i,
    {
        assert(string_views(notes@).take(i + 1).drop_last() =~= string_views(notes@).take(i as int));
        assert(string_views(notes@).take(i + 1).last() == notes@[i as int]@);
        push_str(&mut out, "- ");
        let t = from_chars(&trim_str(notes[i].as_str()));
        push_str(&mut out, t.as_str());
        push_str(&mut out, "\n");
        i += 1;
    }
    assert(string_views(notes@).take(i as int) =~= string_views(notes@));
    out
}

/// The notes after adding `note`: trimmed, moved to the end if it was
/// there already, the oldest dropped beyond two hundred; a blank note
/// changes nothing.
pub open spec fn notes_after_append(notes: Seq<Seq<char>>, note: Seq<char>) -> Seq<Seq<char>> {
    let n = trim(note);
    if n.len() == 0 {
        notes
    } else {
        let rest = if notes.contains(n) {
            notes.remove(crate::branch::first_pos(notes, n))
        } else {
            notes
        };
        let all = rest.push(n);
        if all.len() > 200 {
            all.skip(all.len() - 200)
        } else {
            all
        }
    }
}

pub fn append_note_to(notes: &mut Vec<String>, note: &str)
    ensures
        views(final(notes)@) == notes_after_append(views(old(notes)@), note@),
{
    let n = from_chars(&trim_str(note));
    if to_chars(n.as_str()).len() == 0 {
        return;
    }
    let ghost b = views(notes@);
    match crate::ids::position_of(notes.as_slice(), &n) {
        Some(i) => {
            proof {
                assert(b[i as int] == n@);
                crate::branch::lemma_first_pos(b, n@, i as int);
            }
            notes.remove(i);
            assert(views(notes@) =~= b.remove(i as int));
        },
        None => {
            proof {
                assert forall|k: int| 0 <= k < b.len() implies b[k] != n@ by {}
            }
        },
    }
    let ghost rest = views(notes@);
    notes.push(n);
    assert(views(notes@) =~= rest.push(trim(note@)));
    if notes.len() > MAX_MEMORY_NOTES {
        let excess = notes.len() - MAX_MEMORY_NOTES;
        let ghost all = notes@;
        let mut kept: Vec<String> = Vec::new();
        let mut i = excess;
        while i < notes.len()
            invariant
                excess <= i <= notes@.len(),
                notes@ == all,
                kept@ == all.subrange(excess as int, i as int),
            decreases notes@.len() - i,
        {
            let s = notes[i].clone();
            kept.push(s);
            i += 1;
            assert(kept@ =~= all.subrange(excess as int, i as int));
        }
        *notes = kept;
        assert(views(notes@) =~= views(all).skip(excess as int));
    }
}

/// The notes that hold the trimmed, lower-cased query, ignoring ASCII case,
/// at most `max_results` of them; none for a blank query.
pub open spec fn matching_notes(notes: Seq<Seq<char>>, query: Seq<char>, max_results: nat) -> Seq<Seq<char>>
    decreases notes.len(),
{
    let q = lower(trim(query));
    if q.len() == 0 || notes.len() == 0 {
        Seq::empty()
    } else {
        let before = matching_notes(notes.drop_last(), query, max_results);
        if contains(lower(notes.last()), q) && before.len() < max_results {
            before.push(notes.last())
        } else {
            before
        }
    }
}

pub fn search_notes(notes: &Vec<String>, query: &str, max_results: usize) -> (r: Vec<String>)
    ensures
        string_views(r@) == matching_notes(string_views(notes@), query@, max_results as nat),
{
    let q = lower_vec(&trim_str(query));
    let mut found: Vec<String> = Vec::new();
    if q.len() == 0 {
        return found;
    }
    let ghost ns = string_views(notes@);
    let mut i: usize = 0;
    while i < notes.len()
        invariant
            i <= notes@.len(),
            ns == string_views(notes@),
            q@ == lower(trim(query@)),
            q@.len() > 0,
            string_views(found@) == matching_notes(ns.take(i as int), query@, max_results as nat),
        decreases notes@.len() - i,
    {
        assert(ns.take(i + 1).drop_last() =~= ns.take(i as int));
        assert(ns.take(i + 1).last() == notes@[i as int]@);
        if contains_chars(&lower_vec(&to_chars(notes[i].as_str())), &q) && found.len() < max_results {
            let ghost before = found@;
            let s = notes[i].clone();
            found.push(s);
            assert(string_views(found@) =~= string_views(before).push(notes@[i as int]@));
        }
        i += 1;
    }
    assert(ns.take(i as int) =~= ns);
    found
}

/// The text that `/memory show` prints for the notes and the file's path.
pub open spec fn memory_text(path: Seq<char>, notes: Seq<Seq<char>>) -> Seq<char> {
    let head = "Memory file\n\nPath: "@ + path;
    if notes.len() == 0 {
        head + "\n\nNo memory notes saved yet."@
    } else {
        crate::text::trim_end(head + "\n\n"@ + notes_text_raw(notes))
    }
}

/// One `- note` line per note, as written.
pub open spec fn notes_text_raw(notes: Seq<Seq<char>>) -> Seq<char>
    decreases notes.len(),
{
    if notes.len() == 0 {
        Seq::empty()
    } else {
        notes_text_raw(notes.drop_last()) + "- "@ + notes.last() + "\n"@
    }
}

pub fn show_memory_text(path: &str, notes: &Vec<String>) -> (r: String)
    ensures
        r@ == memory_text(path@, string_views(notes@)),
{
    let mut output = owned("Memory file\n\nPath: ");
    push_str(&mut output, path);
    if notes.len() == 0 {
        push_str(&mut output, "\n\nNo memory notes saved yet.");
        return output;
    }
    push_str(&mut output, "\n\n");
    let ghost head = output@;
    let mut i: usize = 0;
    assert(string_views(notes@).take(0) =~= Seq::<Seq<char>>::empty());
    while i < notes.len()
        invariant
            i <= notes@.len(),
            output@ == head + notes_text_raw(string_views(notes@).take(i as int)),
        decreases notes@.len() - i,
    {
        assert(string_views(notes@).take(i + 1).drop_last() =~= string_views(notes@).take(i as int));
        assert(string_views(notes@).take(i + 1).last() == notes@[i as int]@);
        push_str(&mut output, "- ");
        push_str(&mut output, notes[i].as_str());
        push_str(&mut output, "\n");
        i += 1;
    }
    assert(string_views(notes@).take(i as int) =~= string_views(notes@));
    from_chars(&crate::text::trim_end_vec(&to_chars(output.as_str())))
}

/// A note as the memory file can hold it on one line: not blank, without
/// white space at either end and without a line break.
pub open spec fn single_line_note(n: Seq<char>) -> bool {
    &&& n.len() > 0
    &&& !crate::text::is_ws(n[0])
    &&& !crate::text::is_ws(n.last())
    &&& !n.contains('\n')
}

pub open spec fn note_lines(ns: Seq<Seq<char>>) -> Seq<Seq<char>> {
    ns.map_values(|n: Seq<char>| "- "@ + n)
}

proof fn lemma_trim_fixed(x: Seq<char>)
    requires
        x.len() > 0,
        !crate::text::is_ws(x[0]),
        !crate::text::is_ws(x.last()),
    ensures
        trim(x) == x,
{
    assert(crate::text::trim_start(x) == x);
}

proof fn lemma_split_nl_append_plain(s: Seq<char>, t: Seq<char>)
    requires
        !t.contains('\n'),
    ensures
        crate::text::split_nl(s + t) == crate::text::split_nl(s).update(
            crate::text::split_nl(s).len() - 1,
            crate::text::split_nl(s).last() + t,
        ),
    decreases t.len(),
{
    crate::text::lemma_split_nl_len(s);
    let q = crate::text::split_nl(s);
    if t.len() == 0 {
        assert(s + t =~= s);
        assert(q.last() + t =~= q.last());
        assert(q.update(q.len() - 1, q.last()) =~= q);
    } else {
        let t0 = t.drop_last();
        assert(!t0.contains('\n')) by {
            if t0.contains('\n') {
                let k = choose|k: int| 0 <= k < t0.len() && t0[k] == '\n';
                assert(t[k] == '\n');
            }
        }
        lemma_split_nl_append_plain(s, t0);
        assert((s + t).drop_last() =~= s + t0);
        assert((s + t).last() == t.last());
        assert(t.last() != '\n') by {
            assert(t[t.len() - 1] == t.last());
        }
        crate::text::lemma_split_nl_len(s + t0);
        let p = crate::text::split_nl(s + t0);
        assert(p.last() == q.last() + t0);
        assert((q.last() + t0).push(t.last()) =~= q.last() + t);
        assert(p.update(p.len() - 1, p.last().push(t.last())) =~= q.update(q.len() - 1, q.last() + t));
    }
}

proof fn lemma_notes_text_split(ns: Seq<Seq<char>>)
    requires
        forall|k: int| 0 <= k < ns.len() ==> single_line_note(#[trigger] ns[k]),
    ensures
        crate::text::split_nl(notes_text(ns)) == note_lines(ns).push(Seq::<char>::empty()),
    decreases ns.len(),
{
    reveal_strlit("- ");
    reveal_strlit("\n");
    if ns.len() == 0 {
        assert(note_lines(ns) =~= Seq::<Seq<char>>::empty());
    } else {
        let rest = ns.drop_last();
        let n = ns.last();
        assert(single_line_note(ns[ns.len() - 1]));
        assert forall|k: int| 0 <= k < rest.len() implies single_line_note(#[trigger] rest[k]) by {
            assert(rest[k] == ns[k]);
        }
        lemma_notes_text_split(rest);
        lemma_trim_fixed(n);
        let s = notes_text(rest);
        let piece = "- "@ + n;
        assert(!piece.contains('\n')) by {
            if piece.contains('\n') {
                let k = choose|k: int| 0 <= k < piece.len() && piece[k] == '\n';
                if k >= 2 {
                    assert(n[k - 2] == '\n');
                    assert(n.contains('\n'));
                }
            }
        }
        assert(notes_text(ns) =~= (s + piece).push('\n'));
        lemma_split_nl_append_plain(s, piece);
        assert((s + piece).push('\n').drop_last() =~= s + piece);
        let l = note_lines(rest);
        assert(l.push(Seq::<char>::empty()).update(l.len() as int, Seq::<char>::empty() + piece) =~= l.push(piece));
        assert(note_lines(ns) =~= l.push(piece));
    }
}

proof fn lemma_note_of_line(n: Seq<char>)
    requires
        single_line_note(n),
    ensures
        note_of_line("- "@ + n) == Some(n),
        crate::text::strip_cr("- "@ + n) == "- "@ + n,
{
    reveal_strlit("- ");
    let l = "- "@ + n;
    lemma_trim_fixed(n);
    assert(l[0] == '-');
    assert(l.last() == n.last());
    lemma_trim_fixed(l);
    assert(starts_with(l, "- "@)) by {
        assert(l.take(2) =~= "- "@);
    }
    assert(l.skip(2) =~= n);
}

proof fn lemma_notes_of_note_lines(ns: Seq<Seq<char>>)
    requires
        forall|k: int| 0 <= k < ns.len() ==> single_line_note(#[trigger] ns[k]),
    ensures
        notes_of_lines(note_lines(ns).map_values(|l: Seq<char>| crate::text::strip_cr(l))) == ns,
    decreases ns.len(),
{
    let ls = note_lines(ns).map_values(|l: Seq<char>| crate::text::strip_cr(l));
    if ns.len() == 0 {
        assert(ls =~= Seq::<Seq<char>>::empty());
        assert(notes_of_lines(ls) =~= ns);
    } else {
        let rest = ns.drop_last();
        assert forall|k: int| 0 <= k < rest.len() implies single_line_note(#[trigger] rest[k]) by {
            assert(rest[k] == ns[k]);
        }
        lemma_notes_of_note_lines(rest);
        assert(single_line_note(ns[ns.len() - 1]));
        lemma_note_of_line(ns.last());
        assert(ls.drop_last() =~= note_lines(rest).map_values(|l: Seq<char>| crate::text::strip_cr(l)));
        assert(ls.last() == "- "@ + ns.last());
        assert(notes_of_lines(ls) =~= rest.push(ns.last()));
        assert(rest.push(ns.last()) =~= ns);
    }
}

/// Writing notes to the memory file and reading the file back gives the
/// same notes, for notes that are single trimmed lines (the only ones that
/// reading a file gives).
pub proof fn law_notes_round_trip(notes: Seq<Seq<char>>)
    requires
        forall|k: int| 0 <= k < notes.len() ==> single_line_note(#[trigger] notes[k]),
    ensures
        notes_of_lines(lines(notes_text(notes))) == notes,
{
    lemma_notes_text_split(notes);
    let p = crate::text::split_nl(notes_text(notes));
    assert(p.last().len() == 0);
    assert(p.drop_last() =~= note_lines(notes));
    lemma_notes_of_note_lines(notes);
}

} // verus!
