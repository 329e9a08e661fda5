//! How message text is laid out for display: each line indented by two
//! spaces and given a style by what it starts with, fenced code blocks
//! styled as code throughout.
use vstd::prelude::*;

use crate::text::{from_chars, lines, owned, push_chars, push_str, split_lines, starts_with, starts_with_chars, to_chars, trim_start};

verus! {

/// The style of a displayed line.
#[derive(Debug, Clone, Copy, PartialEq, Eq, Structural)]
pub enum LineStyle {
    Plain,
    Code,
    Heading,
    Bullet,
    Quote,
}

/// A displayed line and its style.
#[derive(Debug, Clone, PartialEq, Eq)]
pub struct StyledLine {
    pub text: String,
    pub style: LineStyle,
}

pub open spec fn is_fence(line: Seq<char>) -> bool {
    starts_with(trim_start(line), "```"@)
}

/// The style of a line that is not a fence, inside a code block or not.
pub open spec fn line_style(line: Seq<char>, in_code: bool) -> LineStyle {
    let t = trim_start(line);
    if in_code {
        LineStyle::Code
    } else if starts_with(t, "#"@) {
        LineStyle::Heading
    } else if starts_with(t, "- "@) || starts_with(t, "* "@) {
        LineStyle::Bullet
    } else if starts_with(t, ">"@) {
        LineStyle::Quote
    } else {
        LineStyle::Plain
    }
}

/// Whether a code block is open after the lines.
pub open spec fn code_open_after(ls: Seq<Seq<char>>) -> bool
    decreases ls.len(),
{
    if ls.len() == 0 {
        false
    } else if is_fence(ls.last()) {
        !code_open_after(ls.drop_last())
    } else {
        code_open_after(ls.drop_last())
    }
}

/// The displayed lines with their styles; a fence line is styled as code.
pub open spec fn styled_lines(ls: Seq<Seq<char>>) -> Seq<(Seq<char>, LineStyle)>
    decreases ls.len(),
{
    if ls.len() == 0 {
        Seq::empty()
    } else {
        let l = ls.last();
        let style = if is_fence(l) {
            LineStyle::Code
        } else {
            line_style(l, code_open_after(ls.drop_last()))
        };
        styled_lines(ls.drop_last()).push(("  "@ + l, style))
    }
}

/// What is shown for a message: its styled lines, or one blank line for no
/// text.
pub open spec fn markdown_view(content: Seq<char>) -> Seq<(Seq<char>, LineStyle)> {
    let s = styled_lines(lines(content));
    if s.len() == 0 {
        seq![("  "@, LineStyle::Plain)]
    } else {
        s
    }
}

pub open spec fn styled_views(v: Seq<StyledLine>) -> Seq<(Seq<char>, LineStyle)> {
    v.map_values(|l: StyledLine| (l.text@, l.style))
}

/// Lays out message text for display.
pub fn render_markdown_lines(content: &str) -> (r: Vec<StyledLine>)
    ensures
        styled_views(r@) == markdown_view(content@),
{
    let all = split_lines(content);
    let ghost ls = all@.map_values(|l: Vec<char>| l@);
    let fence = to_chars("```");
    let hash = to_chars("#");
    let dash = to_chars("- ");
    let star = to_chars("* ");
    let quote = to_chars(">");
    let mut out: Vec<StyledLine> = Vec::new();
    let mut in_code = false;
    let mut i: usize = 0;
    while i < all.len()
        invariant
            i <= all@.len(),
            ls == all@.map_values(|l: Vec<char>| l@),
            ls == lines(content@),
            fence@ == "```"@,
            hash@ == "#"@,
            dash@ == "- "@,
            star@ == "* "@,
            quote@ == ">"@,
            in_code == code_open_after(ls.take(i as int)),
            styled_views(out@) == styled_lines(ls.take(i as int)),
        decreases all@.len() - i,
    {
        assert(ls.take(i + 1).drop_last() =~= ls.take(i as int));
        assert(ls.take(i + 1).last() == all@[i as int]@);
        let line = &all[i];
        let (start, _) = crate::text::trim_start_index(line.as_slice());
        let t = crate::text::slice_vec(line.as_slice(), start, line.len());
        let mut text = owned("  ");
        push_chars(&mut text, line.as_slice());
        let style = if starts_with_chars(&t, &fence) {
            in_code = !in_code;
            LineStyle::Code
        } else if in_code {
            LineStyle::Code
        } else if starts_with_chars(&t, &hash) {
            LineStyle::Heading
        } else if starts_with_chars(&t, &dash) || starts_with_chars(&t, &star) {
            LineStyle::Bullet
        } else if starts_with_chars(&t, &quote) {
            LineStyle::Quote
        } else {
            LineStyle::Plain
        };
        let ghost before = styled_views(out@);
        out.push(StyledLine { text, style });
        assert(styled_views(out@) =~= before.push((text@, style)));
        i += 1;
    }
    assert(ls.take(i as int) =~= ls);
    if out.len() == 0 {
        out.push(StyledLine { text: owned("  "), style: LineStyle::Plain });
        assert(styled_views(out@) =~= seq![("  "@, LineStyle::Plain)]);
    }
    out
}

} // verus!
