use dotling::backup_cmd::{run_clean, run_list};
use dotling::deploy::EntryState;
use dotling::printer::Printer;
use dotling::status::{entry_status, group_by_category, inactive_target, Tally};
use dotling::ui::{
    conflict_prompt_text, is_yes, paint, parse_conflict_choice, print_diff, status_line, summary,
    ConflictChoice, NoticeKind, Status, SyncBadge, GREEN, RESET,
};

#[test]
fn colors_only_when_enabled() {
    assert_eq!(paint(GREEN, "ok", false), "ok");
    assert_eq!(paint(GREEN, "ok", true), format!("{GREEN}ok{RESET}"));
}

#[test]
fn status_lines() {
    let line = status_line(&Status::Good, "shell/zshrc", "~/.zshrc", SyncBadge::InSync, false);
    assert_eq!(line, "  ✓ shell/zshrc → ~/.zshrc  [in sync]");
    assert_eq!(SyncBadge::HasDiff.render(false), "[needs sync] [diff]");
    assert_eq!(Status::Conflict.symbol(), "⚡");
}

#[test]
fn summaries_count_nonzero_parts() {
    assert_eq!(summary(0, 0, 0, false), "nothing to do");
    assert_eq!(summary(1, 0, 2, false), "1 ok, 2 errors");
    assert_eq!(summary(3, 1, 0, false), "3 oks, 1 warning");
}

#[test]
fn answers_to_prompts() {
    assert!(is_yes(" YES "));
    assert!(!is_yes("nope"));
    assert_eq!(parse_conflict_choice("k", true), Some(ConflictChoice::KeepLocal));
    assert_eq!(parse_conflict_choice("m", false), None);
    assert_eq!(parse_conflict_choice("merge", true), Some(ConflictChoice::Merge));
    assert_eq!(parse_conflict_choice("", true), Some(ConflictChoice::Skip));
    assert_eq!(parse_conflict_choice("s\n", false), Some(ConflictChoice::ShowDiff));
    assert_eq!(parse_conflict_choice("skip", true), Some(ConflictChoice::Skip));
    assert_eq!(conflict_prompt_text(false, false), "    ? [k]eep local  [r]epo  [s] diff  (Enter: skip) > ");
}

#[test]
fn printer_lines() {
    let p = Printer::new(false);
    assert_eq!(p.action("linked", "/h/.zshrc"), "  ·  \u{1b}[34m  linked\u{1b}[39m  /h/.zshrc");
    assert_eq!(p.arrow("copy", "a", "b"), "  ·  \u{1b}[34m    copy\u{1b}[39m  a  →  b");
    assert_eq!(p.missing("x"), "  ·  \u{1b}[31m missing\u{1b}[39m  x");
    assert_eq!(p.ok("toolonglabel", "x"), "  ·  \u{1b}[32mtoolonglabel\u{1b}[39m  x");
    assert_eq!(p.group_header("shell"), "\n  \u{1b}[1m\u{1b}[35mshell\u{1b}[39m\u{1b}[0m:");
    assert_eq!(p.summary(2, 0, 1), "\n  \u{1b}[2m2 ok · 0 modified · 1 missing\u{1b}[0m");
    assert_eq!(p.warn_msg("careful"), "  \u{1b}[33mcareful\u{1b}[39m");
    assert_eq!(p.hint("psst"), None);
    assert_eq!(Printer::new(true).hint("psst").unwrap(), "  \u{1b}[2mpsst\u{1b}[0m");
}

fn texts(v: &[dotling::ui::Notice]) -> Vec<(NoticeKind, String)> {
    v.iter().map(|n| (n.kind, n.text.clone())).collect()
}

#[test]
fn backup_clean_keeps_ten_by_default() {
    let sessions: Vec<String> = (1..=12).map(|i| format!("/b/{i}")).collect();
    let r = run_clean(None, None, &sessions, 100);
    assert_eq!(r.remove, vec![0, 1]);
    assert_eq!(texts(&r.notices), vec![(NoticeKind::Success, "removed 2 of 12 backup session(s)".to_string())]);
    let r = run_clean(Some(20), None, &sessions, 100);
    assert!(r.remove.is_empty());
    assert_eq!(
        texts(&r.notices),
        vec![(NoticeKind::Info, "12 backup session(s) kept — nothing to clean".to_string())]
    );
    let r = run_clean(None, None, &vec![], 100);
    assert_eq!(texts(&r.notices), vec![(NoticeKind::Info, "no backup sessions found".to_string())]);
}

#[test]
fn backup_clean_by_age() {
    let sessions = vec!["/b/100".to_string(), "/b/90000".to_string(), "/b/notanumber".to_string()];
    let r = run_clean(None, Some(1), &sessions, 100_000);
    assert_eq!(r.remove, vec![0]);
    let r = run_clean(None, Some(u64::MAX), &sessions, u64::MAX);
    assert!(r.remove.is_empty());
}

#[test]
fn backup_list() {
    let sessions = vec!["/b/1".to_string(), "/b/2".to_string()];
    assert_eq!(
        texts(&run_list(&sessions)),
        vec![
            (NoticeKind::Header, "2 backup session(s)".to_string()),
            (NoticeKind::Info, "/b/1".to_string()),
            (NoticeKind::Info, "/b/2".to_string()),
        ]
    );
    assert_eq!(texts(&run_list(&vec![])), vec![(NoticeKind::Info, "no backup sessions found".to_string())]);
}

#[test]
fn quick_diff_compares_by_position() {
    let lines = print_diff("repo:a", "~/.a", "x\ny\nz\n", "x\nY\n", false);
    assert_eq!(lines, vec!["--- repo:a", "+++ ~/.a", " x", "-y", "+Y", "-z"]);
}

#[test]
fn status_of_entries() {
    assert_eq!(entry_status(EntryState::Deployed, false, false, true, None), (Status::Good, SyncBadge::InSync, Tally::Good));
    assert_eq!(
        entry_status(EntryState::Deployed, true, false, true, Some(false)),
        (Status::Template, SyncBadge::NeedsSync, Tally::Warning)
    );
    assert_eq!(
        entry_status(EntryState::Deployed, false, true, false, None),
        (Status::Encrypted, SyncBadge::InSync, Tally::Good)
    );
    assert_eq!(entry_status(EntryState::Missing, false, false, true, None), (Status::Missing, SyncBadge::NeedsSync, Tally::Error));
    assert_eq!(entry_status(EntryState::Modified, false, false, true, None), (Status::Modified, SyncBadge::HasDiff, Tally::Warning));
    assert_eq!(inactive_target("~/.a", Some("macos")), "~/.a (macos)");
    let srcs: Vec<String> = ["shell/zshrc", "git/gitconfig", "shell/bashrc", "top"].iter().map(|s| s.to_string()).collect();
    let groups = group_by_category(&srcs);
    assert_eq!(
        groups,
        vec![("git".to_string(), vec![1]), ("shell".to_string(), vec![0, 2]), ("top".to_string(), vec![3])]
    );
}
