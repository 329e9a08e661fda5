//! Workspace diagnostics: the snapshot made from the output of a checker
//! run, with counts of the lines that report errors and warnings and a
//! one-line summary.
use vstd::prelude::*;

use crate::shell::{lossy_text, utf8_lossy};
use crate::summaries::{output_summary_of, truncate_for_summary_output};
use crate::text::{
    contains, contains_chars, decimal, from_chars, lines, owned, push_str, split_lines, to_chars,
    trim, trim_str, usize_to_string,
};

verus! {

/// Whether the checker run succeeded.
#[derive(Debug, Clone, Copy, PartialEq, Eq, Structural)]
pub enum DiagnosticsStatus {
    Passed,
    Failed,
}

impl DiagnosticsStatus {
    /// The word that the interface shows for the status.
    pub fn to_string(&self) -> (r: String)
        ensures
            r@ == match *self {
                DiagnosticsStatus::Passed => "passed"@,
                DiagnosticsStatus::Failed => "failed"@,
            },
    {
        match self {
            DiagnosticsStatus::Passed => owned("passed"),
            DiagnosticsStatus::Failed => owned("failed"),
        }
    }
}

/// The last diagnostics run of the workspace.
#[derive(Debug, Clone, PartialEq, Eq)]
pub struct DiagnosticsSnapshot {
    pub updated_at_epoch: u64,
    pub command: String,
    pub status: DiagnosticsStatus,
    pub summary: String,
    pub output: String,
    pub error_count: usize,
    pub warning_count: usize,
}

/// The command whose output the snapshot records.
pub open spec fn diagnostics_command() -> Seq<char> {
    "cargo check --message-format short"@
}

/// The checker output shown in a snapshot is cut to this many characters.
pub const DIAGNOSTICS_OUTPUT_LIMIT: usize = 24000;

/// The trimmed standard output, then the trimmed standard error after a
/// blank line where both have text.
pub open spec fn combined_output(stdout: Seq<char>, stderr: Seq<char>) -> Seq<char> {
    let a = trim(stdout);
    let b = trim(stderr);
    if b.len() == 0 {
        a
    } else if a.len() == 0 {
        b
    } else {
        a + "\n\n"@ + b
    }
}

/// How many of the lines contain `needle`.
pub open spec fn count_lines_with(ls: Seq<Seq<char>>, needle: Seq<char>) -> nat
    decreases ls.len(),
{
    if ls.len() == 0 {
        0
    } else {
        count_lines_with(ls.drop_last(), needle) + if contains(ls.last(), needle) {
            1nat
        } else {
            0nat
        }
    }
}

pub open spec fn status_summary(status: DiagnosticsStatus, errors: nat, warnings: nat) -> Seq<char> {
    match status {
        DiagnosticsStatus::Passed => if warnings == 0 {
            "Diagnostics passed"@
        } else {
            "Diagnostics passed with "@ + decimal(warnings) + " warning(s)"@
        },
        DiagnosticsStatus::Failed => "Diagnostics failed with "@ + decimal(errors) + " error(s) and "@
            + decimal(warnings) + " warning(s)"@,
    }
}

/// How many lines of `text` contain `needle`.
fn count_matching_lines(text: &str, needle: &str) -> (r: usize)
    ensures
        r == count_lines_with(lines(text@), needle@),
{
    let all = split_lines(text);
    let ghost ls = all@.map_values(|l: Vec<char>| l@);
    let pattern = to_chars(needle);
    let mut count: usize = 0;
    let mut i: usize = 0;
    while i < all.len()
        invariant
            i <= all@.len(),
            ls == all@.map_values(|l: Vec<char>| l@),
            ls == lines(text@),
            pattern@ == needle@,
            count == count_lines_with(ls.take(i as int), needle@),
            count <= i,
        decreases all@.len() - i,
    {
        assert(ls.take(i + 1).drop_last() =~= ls.take(i as int));
        assert(ls.take(i + 1).last() == all@[i as int]@);
        if contains_chars(all[i].as_slice(), pattern.as_slice()) {
            count += 1;
        }
        i += 1;
    }
    assert(ls.take(i as int) =~= ls);
    count
}

/// The snapshot of a checker run from its raw output: the two streams are
/// read as UTF-8 (invalid sequences replaced), combined and cut, the lines
/// that mention errors and warnings are counted, and the status follows
/// whether the run succeeded.
pub fn diagnostics_snapshot_from(
    stdout: &[u8],
    stderr: &[u8],
    success: bool,
    updated_at_epoch: u64,
) -> (r: DiagnosticsSnapshot)
    ensures
        ({
            let text = output_summary_of(
                combined_output(lossy_text(stdout@), lossy_text(stderr@)),
                DIAGNOSTICS_OUTPUT_LIMIT as nat,
            );
            &&& r.updated_at_epoch == updated_at_epoch
            &&& r.command@ == diagnostics_command()
            &&& r.status == if success {
                DiagnosticsStatus::Passed
            } else {
                DiagnosticsStatus::Failed
            }
            &&& r.error_count == count_lines_with(lines(text), "error"@)
            &&& r.warning_count == count_lines_with(lines(text), "warning"@)
            &&& r.summary@ == status_summary(r.status, r.error_count as nat, r.warning_count as nat)
            &&& r.output@ == if trim(text).len() == 0 {
                "No diagnostics output."@
            } else {
                text
            }
        }),
{
    let out = utf8_lossy(stdout);
    let err = utf8_lossy(stderr);
    let a = trim_str(out.as_str());
    let b = trim_str(err.as_str());
    let mut combined = from_chars(&a);
    if b.len() > 0 {
        if a.len() > 0 {
            push_str(&mut combined, "\n\n");
        }
        push_str(&mut combined, from_chars(&b).as_str());
    }
    proof {
        if b@.len() > 0 && a@.len() == 0 {
            assert(a@ + b@ =~= b@);
        }
        if b@.len() == 0 {
            assert(combined@ == a@);
        }
    }
    let text = truncate_for_summary_output(combined.as_str(), DIAGNOSTICS_OUTPUT_LIMIT);
    let error_count = count_matching_lines(text.as_str(), "error");
    let warning_count = count_matching_lines(text.as_str(), "warning");
    let status = if success {
        DiagnosticsStatus::Passed
    } else {
        DiagnosticsStatus::Failed
    };
    let summary = match status {
        DiagnosticsStatus::Passed => {
            if warning_count == 0 {
                owned("Diagnostics passed")
            } else {
                let mut s = owned("Diagnostics passed with ");
                push_str(&mut s, usize_to_string(warning_count).as_str());
                push_str(&mut s, " warning(s)");
                s
            }
        },
        DiagnosticsStatus::Failed => {
            let mut s = owned("Diagnostics failed with ");
            push_str(&mut s, usize_to_string(error_count).as_str());
            push_str(&mut s, " error(s) and ");
            push_str(&mut s, usize_to_string(warning_count).as_str());
            push_str(&mut s, " warning(s)");
            s
        },
    };
    let output = if trim_str(text.as_str()).len() == 0 {
        owned("No diagnostics output.")
    } else {
        text
    };
    DiagnosticsSnapshot {
        updated_at_epoch,
        command: owned("cargo check --message-format short"),
        status,
        summary,
        output,
        error_count,
        warning_count,
    }
}

/// Seconds since the Unix epoch, as the clock reads now.
pub fn now_epoch() -> u64 {
    crate::tasks::now_epoch()
}

} // verus!
