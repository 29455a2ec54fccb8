use dotling::doctor::{entry_report, note, os_suffix, skip_label, summary_lines, Findings, Severity};
use dotling::linker::EntryStatus;
use dotling::platform::Platform;
use dotling::printer::Printer;

#[test]
fn doctor_entry_verdicts() {
    let p = Printer::new(false);
    let (line, s) = entry_report(&p, EntryStatus::Good, Some(Platform::Linux), "/h/.x");
    assert_eq!(line, p.ok("ok [linux]", "/h/.x"));
    assert_eq!(s, Severity::Fine);
    assert_eq!(entry_report(&p, EntryStatus::Modified, None, "/d").1, Severity::Warning);
    assert_eq!(entry_report(&p, EntryStatus::Conflict, None, "/d").1, Severity::Warning);
    assert_eq!(entry_report(&p, EntryStatus::BrokenSymlink, None, "/d").1, Severity::Error);
    assert_eq!(entry_report(&p, EntryStatus::Missing, None, "/d"), (p.missing("/d"), Severity::Error));
    assert_eq!(os_suffix(None), "");
    assert_eq!(skip_label(None), "skip [all]");
    assert_eq!(skip_label(Some(Platform::Macos)), "skip [macos]");
}

#[test]
fn doctor_summary() {
    let p = Printer::new(false);
    let mut f = Findings { errors: 0, warnings: 0 };
    assert_eq!(summary_lines(&p, f)[1], p.success("Everything looks good!"));
    f = note(f, Severity::Warning);
    f = note(f, Severity::Fine);
    assert_eq!(f, Findings { errors: 0, warnings: 1 });
    let lines = summary_lines(&p, f);
    assert_eq!(lines[0], p.annotation("\n0 error(s), 1 warning(s)"));
    assert_eq!(lines[1], p.warn_msg("Some warnings found — review above."));
    f = note(f, Severity::Error);
    assert_eq!(summary_lines(&p, f)[1], p.error_msg("Issues found — review above."));
}
