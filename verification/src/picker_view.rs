//! The text of the attachment picker overlay: its title, the list of
//! matches with the selected one marked, and the preview panel. Drawing the
//! lines on the terminal is left to the interface layer.
use vstd::prelude::*;

use crate::attachments::{AttachmentEntryKind, AttachmentPickerState, AttachmentPreview, AttachmentSuggestion};
use crate::text::{decimal, owned, push_str, string_views, usize_to_string};

verus! {

/// How a panel line is shown.
#[derive(Debug, Clone, Copy, PartialEq, Eq, Structural)]
pub enum PanelStyle {
    Normal,
    /// The selected match.
    Selected,
    /// Hints and statuses.
    Muted,
    /// The preview's facts about the selected match.
    Metadata,
    /// A note under the preview.
    Note,
}

/// A line of a panel and its style.
#[derive(Debug, Clone, PartialEq, Eq)]
pub struct PanelLine {
    pub text: String,
    pub style: PanelStyle,
}

pub open spec fn panel_views(lines: Seq<PanelLine>) -> Seq<(Seq<char>, PanelStyle)> {
    lines.map_values(|l: PanelLine| (l.text@, l.style))
}

/// The title of the match list.
pub open spec fn picker_title_text(count: nat) -> Seq<char> {
    "Matches ("@ + decimal(count) + ") · ↑/↓ move · Tab/Enter attach · Esc cancel"@
}

pub fn picker_title(count: usize) -> (r: String)
    ensures
        r@ == picker_title_text(count as nat),
{
    let mut s = owned("Matches (");
    push_str(&mut s, usize_to_string(count).as_str());
    push_str(&mut s, ") · ↑/↓ move · Tab/Enter attach · Esc cancel");
    s
}

pub open spec fn kind_label(k: AttachmentEntryKind) -> Seq<char> {
    match k {
        AttachmentEntryKind::File => "file"@,
        AttachmentEntryKind::Directory => "dir"@,
    }
}

/// The line of the match at `index`: marked with `> ` where it is the
/// selected one.
pub open spec fn match_line(index: int, selected: int, s: AttachmentSuggestion) -> (Seq<char>, PanelStyle) {
    (
        (if index == selected {
            "> "@
        } else {
            "  "@
        }) + "["@ + kind_label(s.kind) + "] "@ + s.display_path@,
        if index == selected {
            PanelStyle::Selected
        } else {
            PanelStyle::Normal
        },
    )
}

pub open spec fn match_lines(ss: Seq<AttachmentSuggestion>, selected: int) -> Seq<(Seq<char>, PanelStyle)> {
    Seq::new(ss.len(), |i: int| match_line(i, selected, ss[i]))
}

/// The match list: one line per match, then the search status (after a
/// blank line where there are matches); `No attachment matches` where
/// there is neither.
pub open spec fn match_panel(
    ss: Seq<AttachmentSuggestion>,
    selected: int,
    status: Option<Seq<char>>,
) -> Seq<(Seq<char>, PanelStyle)> {
    let body = match status {
        Some(st) => match_lines(ss, selected) + (if ss.len() > 0 {
            seq![(Seq::<char>::empty(), PanelStyle::Normal)]
        } else {
            Seq::empty()
        }) + seq![(st, PanelStyle::Muted)],
        None => match_lines(ss, selected),
    };
    if body.len() == 0 {
        seq![("No attachment matches"@, PanelStyle::Muted)]
    } else {
        body
    }
}

/// The preview panel: the preview's facts, a blank line, its lines, a
/// blank line and its note; else the search status; else a hint.
pub open spec fn preview_panel(
    preview: Option<(Seq<Seq<char>>, Seq<Seq<char>>, Option<Seq<char>>)>,
    status: Option<Seq<char>>,
) -> Seq<(Seq<char>, PanelStyle)> {
    match preview {
        Some((metadata, lines, note)) => {
            metadata.map_values(|m: Seq<char>| (m, PanelStyle::Metadata)) + (if metadata.len() > 0 && (
            lines.len() > 0 || note is Some) {
                seq![(Seq::<char>::empty(), PanelStyle::Normal)]
            } else {
                Seq::empty()
            }) + lines.map_values(|l: Seq<char>| (l, PanelStyle::Normal)) + match note {
                Some(n) => (if lines.len() > 0 {
                    seq![(Seq::<char>::empty(), PanelStyle::Normal)]
                } else {
                    Seq::empty()
                }) + seq![(n, PanelStyle::Note)],
                None => Seq::empty(),
            }
        },
        None => match status {
            Some(st) => seq![(st, PanelStyle::Muted)],
            None => seq![("Select a suggestion to preview it"@, PanelStyle::Muted)],
        },
    }
}

pub open spec fn preview_view(p: AttachmentPreview) -> (Seq<Seq<char>>, Seq<Seq<char>>, Option<Seq<char>>) {
    (string_views(p.metadata@), string_views(p.lines@), crate::protocol::opt_view(p.note))
}

fn push_line(out: &mut Vec<PanelLine>, text: String, style: PanelStyle)
    ensures
        panel_views(final(out)@) == panel_views(old(out)@).push((text@, style)),
{
    let ghost before = panel_views(out@);
    out.push(PanelLine { text, style });
    assert(panel_views(out@) =~= before.push((text@, style)));
}

fn push_all(out: &mut Vec<PanelLine>, lines: &Vec<String>, style: PanelStyle)
    ensures
        panel_views(final(out)@) == panel_views(old(out)@) + string_views(lines@).map_values(
            |l: Seq<char>| (l, style),
        ),
{
    let ghost start = panel_views(out@);
    let mut i: usize = 0;
    while i < lines.len()
        invariant
            i <= lines@.len(),
            panel_views(out@) == start + string_views(lines@).take(i as int).map_values(
                |l: Seq<char>| (l, style),
            ),
        decreases lines@.len() - i,
    {
        push_line(out, lines[i].clone(), style);
        assert(string_views(lines@).take(i + 1).map_values(|l: Seq<char>| (l, style)) =~= string_views(
            lines@,
        ).take(i as int).map_values(|l: Seq<char>| (l, style)).push((lines@[i as int]@, style)));
        i += 1;
    }
    assert(string_views(lines@).take(i as int) =~= string_views(lines@));
}

/// The lines of the match list of the picker.
pub fn match_panel_lines(picker: &AttachmentPickerState) -> (r: Vec<PanelLine>)
    ensures
        panel_views(r@) == match_panel(
            picker.suggestions@,
            picker.selected as int,
            crate::protocol::opt_view(picker.status),
        ),
{
    let mut out: Vec<PanelLine> = Vec::new();
    let ss = &picker.suggestions;
    let mut i: usize = 0;
    while i < ss.len()
        invariant
            i <= ss@.len(),
            ss == &picker.suggestions,
            panel_views(out@) == match_lines(ss@.take(i as int), picker.selected as int),
        decreases ss@.len() - i,
    {
        let s = &ss[i];
        let mut text = owned(if i == picker.selected { "> " } else { "  " });
        push_str(&mut text, "[");
        push_str(&mut text, s.kind.label());
        push_str(&mut text, "] ");
        push_str(&mut text, s.display_path.as_str());
        let style = if i == picker.selected { PanelStyle::Selected } else { PanelStyle::Normal };
        push_line(&mut out, text, style);
        assert(panel_views(out@) =~= match_lines(ss@.take(i + 1), picker.selected as int));
        i += 1;
    }
    assert(ss@.take(i as int) =~= ss@);
    match &picker.status {
        Some(status) => {
            if ss.len() > 0 {
                push_line(&mut out, String::new(), PanelStyle::Normal);
            }
            push_line(&mut out, status.clone(), PanelStyle::Muted);
        },
        None => {},
    }
    if out.len() == 0 {
        push_line(&mut out, owned("No attachment matches"), PanelStyle::Muted);
    }
    proof {
        let st = crate::protocol::opt_view(picker.status);
        let ml = match_lines(ss@, picker.selected as int);
        match st {
            Some(t) => {
                if ss@.len() > 0 {
                    assert(panel_views(out@) =~= ml + seq![(Seq::<char>::empty(), PanelStyle::Normal)] + seq![
                        (t, PanelStyle::Muted),
                    ]);
                } else {
                    assert(panel_views(out@) =~= ml + Seq::empty() + seq![(t, PanelStyle::Muted)]);
                }
            },
            None => {},
        }
    }
    out
}

/// The lines of the preview panel of the picker.
pub fn preview_panel_lines(picker: &AttachmentPickerState) -> (r: Vec<PanelLine>)
    ensures
        panel_views(r@) == preview_panel(
            match picker.preview {
                Some(p) => Some(preview_view(p)),
                None => None,
            },
            crate::protocol::opt_view(picker.status),
        ),
{
    let mut out: Vec<PanelLine> = Vec::new();
    match &picker.preview {
        Some(preview) => {
            push_all(&mut out, &preview.metadata, PanelStyle::Metadata);
            let ghost a = panel_views(out@);
            if preview.metadata.len() > 0 && (preview.lines.len() > 0 || preview.note.is_some()) {
                push_line(&mut out, String::new(), PanelStyle::Normal);
            }
            let ghost b = panel_views(out@);
            push_all(&mut out, &preview.lines, PanelStyle::Normal);
            let ghost c = panel_views(out@);
            match &preview.note {
                Some(note) => {
                    if preview.lines.len() > 0 {
                        push_line(&mut out, String::new(), PanelStyle::Normal);
                    }
                    push_line(&mut out, note.clone(), PanelStyle::Note);
                },
                None => {},
            }
            proof {
                let (metadata, lines, note) = preview_view(*preview);
                let gap = if metadata.len() > 0 && (lines.len() > 0 || note is Some) {
                    seq![(Seq::<char>::empty(), PanelStyle::Normal)]
                } else {
                    Seq::empty()
                };
                assert(b =~= a + gap);
                let tail = match note {
                    Some(n) => (if lines.len() > 0 {
                        seq![(Seq::<char>::empty(), PanelStyle::Normal)]
                    } else {
                        Seq::empty()
                    }) + seq![(n, PanelStyle::Note)],
                    None => Seq::empty(),
                };
                assert(panel_views(out@) =~= c + tail);
            }
        },
        None => {
            match &picker.status {
                Some(status) => push_line(&mut out, status.clone(), PanelStyle::Muted),
                None => push_line(&mut out, owned("Select a suggestion to preview it"), PanelStyle::Muted),
            }
            assert(panel_views(out@) =~= preview_panel(None, crate::protocol::opt_view(picker.status)));
        },
    }
    out
}

} // verus!
