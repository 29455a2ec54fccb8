use dotling::adding::{added_message, check_template_targets, new_entry};
use dotling::config::{parse_config, Config, DeployMethod};
use dotling::encrypt_cmd::{decrypt_paths, done_notice, entry_step, set_encrypted, step_notice, EntryStep};
use dotling::error::DotlingError;
use dotling::git::{git_output, is_git_url, pull_result, Git, PullResult};
use dotling::links::{LinkEntry, LinkMethod};
use dotling::linker::{DeployResult, DestObservation, EntryStatus, LinkStep, Linker};
use dotling::store::{read_state, require_repo_root, state_content};
use dotling::ui::NoticeKind;

#[test]
fn new_entries_from_home_paths() {
    let e = new_entry("/h/.zshrc", "/h", false, false, false, false, None, None).unwrap();
    assert_eq!(e.source, "shell/zshrc");
    assert_eq!(e.target, "~/.zshrc");
    assert_eq!(e.method, None);
    let t = new_entry("/h/.gitconfig", "/h", false, false, true, false, Some("linux"), Some(0o600)).unwrap();
    assert_eq!(t.method, Some(DeployMethod::Copy));
    assert_eq!(t.os.as_deref(), Some("linux"));
    assert!(new_entry("/etc/hosts", "/h", false, false, false, false, None, None).is_err());
    assert_eq!(added_message(&e), "shell/zshrc → ~/.zshrc");
    assert!(check_template_targets(true, true).is_err());
    assert!(check_template_targets(true, false).is_ok());
}

#[test]
fn encrypt_steps() {
    let text = "[[entries]]\nsource = \"a\"\ntarget = \"~/.a\"\n\n[[entries]]\nsource = \"b\"\ntarget = \"~/.b\"\nencrypted = true\n";
    let mut config: Config = parse_config(text, "/r/dotling.toml").unwrap();
    assert!(matches!(entry_step(&config, "a", "/h", "/w", true), EntryStep::Work(0)));
    let already = entry_step(&config, "b", "/h", "/w", true);
    assert_eq!(step_notice(&already, true).unwrap().text, "`b` is already encrypted");
    let missing = entry_step(&config, "zzz", "/h", "/w", true);
    let n = step_notice(&missing, true).unwrap();
    assert_eq!((n.kind, n.text.as_str()), (NoticeKind::Error, "`zzz` is not tracked"));
    set_encrypted(&mut config, 0, true);
    assert!(config.entries[0].encrypted);
    assert!(matches!(entry_step(&config, "a", "/h", "/w", true), EntryStep::Already(_)));
    assert!(matches!(entry_step(&config, "a", "/h", "/w", false), EntryStep::Work(0)));
    assert_eq!(done_notice("a", false).text, "decrypted `a`");
    assert_eq!(decrypt_paths("x/y.enc"), ("x/y.enc".to_string(), "x/y".to_string()));
    assert_eq!(decrypt_paths("x/y"), ("x/y.enc".to_string(), "x/y".to_string()));
}

#[test]
fn repo_state_roundtrip() {
    let text = state_content("/h/dotfiles", "/h");
    assert_eq!(read_state(&text, "/h").as_deref(), Some("/h/dotfiles"));
    assert!(require_repo_root(None).is_err());
    assert_eq!(require_repo_root(Some("/r".to_string())).unwrap(), "/r");
}

#[test]
fn git_answers() {
    assert_eq!(git_output(None).unwrap_err().to_text(), "git: git is not installed or not in PATH");
    assert_eq!(git_output(Some((true, "out", "err"))).unwrap(), "out");
    assert!(matches!(git_output(Some((false, "", " bad \n"))), Err(DotlingError::Git(m)) if m == "bad"));
    assert_eq!(pull_result(true, "Already up to date.\n", "").unwrap(), PullResult::UpToDate);
    assert_eq!(pull_result(true, " a | 2 +-\n b | 1 +\n", "").unwrap(), PullResult::Updated(2));
    assert_eq!(pull_result(false, "CONFLICT (content)", "").unwrap(), PullResult::Conflict);
    assert!(pull_result(false, "", "fatal: no remote").is_err());
    let g = Git::new("/r");
    assert_eq!(g.commit("", "msg"), None);
    assert_eq!(g.commit(" M a\n", "msg").unwrap(), vec!["commit", "-m", "msg"]);
    assert_eq!(g.current_branch(" main\n"), "main");
    assert_eq!(Git::clone_args("u", "d"), vec!["clone", "u", "d"]);
    assert!(is_git_url("git@github.com:me/dots.git"));
    assert!(!is_git_url("~/dotfiles"));
}

fn obs(is_symlink: bool, exists: bool, link: &str, same: bool) -> DestObservation {
    DestObservation {
        is_symlink,
        exists,
        link_target: Ok(link.to_string()),
        src_exists: true,
        same_content: Ok(same),
    }
}

#[test]
fn linker_steps() {
    let l = Linker::new("/r");
    let sym = LinkEntry { src: "shell/zshrc".into(), dest: "~/.zshrc".into(), method: LinkMethod::Symlink, os: None };
    assert_eq!(l.abs_src(&sym), "/r/shell/zshrc");
    assert_eq!(Linker::abs_dest(&sym, Some("/h")).unwrap(), "/h/.zshrc");
    assert_eq!(l.plan_deploy(&sym, Some("/h"), obs(false, false, "", false), false).unwrap(), LinkStep::CreateSymlink);
    assert_eq!(
        l.plan_deploy(&sym, Some("/h"), obs(true, true, "/r/shell/zshrc", false), false).unwrap(),
        LinkStep::Done(DeployResult::AlreadyOk)
    );
    assert!(l.plan_deploy(&sym, Some("/h"), obs(false, true, "", false), false).is_err());
    assert_eq!(l.check_entry(&sym, Some("/h"), obs(false, false, "", false)).unwrap(), EntryStatus::Missing);
    let cp = LinkEntry { src: "a".into(), dest: "~/.a".into(), method: LinkMethod::Copy, os: None };
    assert_eq!(
        l.plan_deploy(&cp, Some("/h"), obs(false, true, "", false), false).unwrap(),
        LinkStep::Done(DeployResult::Skipped)
    );
    assert_eq!(l.plan_deploy(&cp, Some("/h"), obs(false, true, "", false), true).unwrap(), LinkStep::CopyFile);
}
