//! The verdicts of `dotling doctor`: which finding counts as an error or a
//! warning, the line shown for each checked entry, and the closing summary.
//! Looking at the repository, the files and git is the caller's.

use vstd::prelude::*;

use crate::linker::EntryStatus;
use crate::platform::{platform_name, Platform};
use crate::printer::{fg, label_line, styled, Printer, FG_GREEN, FG_RED, FG_YELLOW, STYLE_BOLD, STYLE_DIM};
use crate::text::{decimal, decimal_vec, push_all, push_str, string_of};

verus! {

/// How a finding counts.
#[derive(Debug, Clone, Copy, PartialEq, Eq, Structural)]
pub enum Severity {
    /// Nothing to report.
    Fine,
    /// A warning.
    Warning,
    /// An error.
    Error,
}

/// The errors and warnings found so far.
#[derive(Debug, Clone, Copy, PartialEq, Eq, Structural)]
pub struct Findings {
    pub errors: usize,
    pub warnings: usize,
}

/// How an entry's deployment status counts: a modified copy and an
/// unmanaged file in the way are warnings; a broken link and a missing
/// destination are errors.
pub open spec fn status_severity(s: EntryStatus) -> Severity {
    match s {
        EntryStatus::Good => Severity::Fine,
        EntryStatus::Modified => Severity::Warning,
        EntryStatus::BrokenSymlink => Severity::Error,
        EntryStatus::Missing => Severity::Error,
        EntryStatus::Conflict => Severity::Warning,
    }
}

/// The ` [os]` suffix of an entry restricted to one platform.
pub open spec fn os_suffix_spec(os: Option<Platform>) -> Seq<char> {
    match os {
        Some(p) => " ["@ + platform_name(p) + "]"@,
        None => Seq::empty(),
    }
}

pub fn os_suffix(os: Option<Platform>) -> (r: String)
    ensures
        r@ == os_suffix_spec(os),
{
    let mut v: Vec<char> = Vec::new();
    match os {
        Some(p) => {
            push_str(&mut v, " [");
            push_str(&mut v, p.as_str());
            push_str(&mut v, "]");
        },
        None => {},
    }
    string_of(&v)
}

/// The label of an entry skipped on this platform.
pub open spec fn skip_label_spec(os: Option<Platform>) -> Seq<char> {
    "skip ["@ + match os {
        Some(p) => platform_name(p),
        None => "all"@,
    } + "]"@
}

pub fn skip_label(os: Option<Platform>) -> (r: String)
    ensures
        r@ == skip_label_spec(os),
{
    let mut v: Vec<char> = Vec::new();
    push_str(&mut v, "skip [");
    match os {
        Some(p) => push_str(&mut v, p.as_str()),
        None => push_str(&mut v, "all"),
    }
    push_str(&mut v, "]");
    string_of(&v)
}

/// The line shown for a checked entry.
pub open spec fn entry_line_spec(s: EntryStatus, os: Option<Platform>, dest: Seq<char>) -> Seq<char> {
    match s {
        EntryStatus::Good => label_line(FG_GREEN@, "ok"@ + os_suffix_spec(os), dest),
        EntryStatus::Modified => label_line(FG_YELLOW@, "modified"@, dest),
        EntryStatus::BrokenSymlink => label_line(FG_RED@, "broken"@, dest),
        EntryStatus::Missing => label_line(FG_RED@, "missing"@, dest),
        EntryStatus::Conflict => label_line(FG_RED@, "conflict"@, dest),
    }
}

/// The line for a checked entry and how it counts.
pub fn entry_report(p: &Printer, status: EntryStatus, os: Option<Platform>, dest: &str) -> (r: (
    String,
    Severity,
))
    ensures
        r.0@ == entry_line_spec(status, os, dest@),
        r.1 == status_severity(status),
{
    match status {
        EntryStatus::Good => {
            let mut l: Vec<char> = Vec::new();
            push_str(&mut l, "ok");
            let s = os_suffix(os);
            push_str(&mut l, s.as_str());
            let label = string_of(&l);
            (p.ok(label.as_str(), dest), Severity::Fine)
        },
        EntryStatus::Modified => (p.skipped("modified", dest), Severity::Warning),
        EntryStatus::BrokenSymlink => (p.error_line("broken", dest), Severity::Error),
        EntryStatus::Missing => (p.missing(dest), Severity::Error),
        EntryStatus::Conflict => (p.error_line("conflict", dest), Severity::Warning),
    }
}

/// One more, stopping at the largest `usize`.
pub open spec fn bump(n: usize) -> usize {
    if n < usize::MAX {
        (n + 1) as usize
    } else {
        n
    }
}

/// The findings with one more finding of this severity.
pub open spec fn note_spec(f: Findings, s: Severity) -> Findings {
    match s {
        Severity::Fine => f,
        Severity::Warning => Findings { warnings: bump(f.warnings), ..f },
        Severity::Error => Findings { errors: bump(f.errors), ..f },
    }
}

pub fn note(f: Findings, s: Severity) -> (r: Findings)
    ensures
        r == note_spec(f, s),
{
    match s {
        Severity::Fine => f,
        Severity::Warning => Findings {
            warnings: if f.warnings < usize::MAX {
                f.warnings + 1
            } else {
                f.warnings
            },
            ..f
        },
        Severity::Error => Findings {
            errors: if f.errors < usize::MAX {
                f.errors + 1
            } else {
                f.errors
            },
            ..f
        },
    }
}

/// The closing lines: the counts, then all good, only warnings, or issues.
pub open spec fn summary_spec(f: Findings) -> Seq<Seq<char>> {
    seq![
        "  "@ + styled(
            STYLE_DIM@,
            "\n"@ + decimal(f.errors as nat) + " error(s), "@ + decimal(f.warnings as nat) + " warning(s)"@,
        ),
        if f.errors == 0 && f.warnings == 0 {
            "\n  "@ + styled(STYLE_BOLD@, fg(FG_GREEN@, "Everything looks good!"@))
        } else if f.errors == 0 {
            "  "@ + fg(FG_YELLOW@, "Some warnings found — review above."@)
        } else {
            "  "@ + styled(STYLE_BOLD@, fg(FG_RED@, "Issues found — review above."@))
        },
    ]
}

pub fn summary_lines(p: &Printer, f: Findings) -> (r: Vec<String>)
    ensures
        r@.map_values(|s: String| s@) == summary_spec(f),
{
    let mut t: Vec<char> = Vec::new();
    push_str(&mut t, "\n");
    push_all(&mut t, &decimal_vec(f.errors));
    push_str(&mut t, " error(s), ");
    push_all(&mut t, &decimal_vec(f.warnings));
    push_str(&mut t, " warning(s)");
    let counts = string_of(&t);
    let first = p.annotation(counts.as_str());
    let second = if f.errors == 0 && f.warnings == 0 {
        p.success("Everything looks good!")
    } else if f.errors == 0 {
        p.warn_msg("Some warnings found — review above.")
    } else {
        p.error_msg("Issues found — review above.")
    };
    let r = vec![first, second];
    assert(r@.map_values(|s: String| s@) =~= summary_spec(f));
    r
}

} // verus!
