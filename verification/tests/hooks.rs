use dotling::hooks::{
    env_flag, hex_encode, hook_hash, hook_label, parse_hook_answer, parse_trust_store,
    untrusted_warning, HookAnswer, HookSession, HookVerdict,
};

#[test]
fn flags_from_environment() {
    assert!(env_flag(Some("1")));
    assert!(env_flag(Some("TRUE")));
    assert!(!env_flag(Some("yes")));
    assert!(!env_flag(None));
}

#[test]
fn hook_hash_is_hex_of_the_command() {
    let h = hook_hash("echo hi");
    assert_eq!(h.len(), 64);
    assert_ne!(h, hook_hash("echo ho"));
    assert_ne!(h, hex_encode(b"echo hi"));
}

#[test]
fn answers() {
    assert_eq!(parse_hook_answer(" Y "), Some(HookAnswer::Once));
    assert_eq!(parse_hook_answer("no"), Some(HookAnswer::Skip));
    assert_eq!(parse_hook_answer("always"), Some(HookAnswer::Always));
    assert_eq!(parse_hook_answer("skip-all"), Some(HookAnswer::SkipAll));
    assert_eq!(parse_hook_answer("maybe"), None);
}

#[test]
fn trust_store_lines_are_trimmed_and_deduplicated() {
    assert_eq!(parse_trust_store(" a \n\nb\na\n"), vec!["a".to_string(), "b".to_string()]);
}

#[test]
fn verdicts_follow_flags_and_trust() {
    let cmd = "make install";
    let s = HookSession::new(false, true, None, None, Some("/s"), None);
    assert_eq!(s.verdict(cmd, false), HookVerdict::Skip);
    assert!(s.hooks_disabled());
    let s = HookSession::new(true, false, None, None, Some("/s"), None);
    assert_eq!(s.verdict(cmd, true), HookVerdict::Run);
    let s = HookSession::new(false, false, None, None, Some("/s"), None);
    assert_eq!(s.verdict(cmd, true), HookVerdict::SkipUntrusted);
    assert_eq!(s.verdict(cmd, false), HookVerdict::Ask);
    assert_eq!(s.trust_store_path(), "/s/trusted_hooks");
    let store = format!("{}\n", hook_hash(cmd));
    let s = HookSession::new(false, false, None, Some("0"), Some("/s"), Some(&store));
    assert_eq!(s.verdict(cmd, true), HookVerdict::Run);
}

#[test]
fn always_trusts_and_skip_all_stops() {
    let mut s = HookSession::new(false, false, None, None, None, None);
    assert_eq!(s.trust_store_path(), ".dotling_trusted_hooks");
    let (run, text) = s.answer("ls", HookAnswer::Always);
    assert!(run);
    assert_eq!(text.unwrap(), format!("{}\n", hook_hash("ls")));
    assert!(s.is_trusted(&hook_hash("ls")));
    assert_eq!(s.verdict("ls", true), HookVerdict::Run);
    let (run, text) = s.answer("rm", HookAnswer::SkipAll);
    assert!(!run);
    assert!(text.is_none());
    assert_eq!(s.verdict("ls", true), HookVerdict::Skip);
}

#[test]
fn trusting_twice_keeps_one_line() {
    let mut s = HookSession::new(false, false, None, None, None, None);
    let first = s.trust_hook("abc");
    let second = s.trust_hook("abc");
    assert_eq!(first, "abc\n");
    assert_eq!(second, "abc\n");
}

#[test]
fn labels_and_warnings() {
    assert_eq!(hook_label(None, "before"), "global before");
    assert_eq!(
        untrusted_warning("after", "ls"),
        "Skipping untrusted after hook (non-interactive): 'ls'"
    );
}

#[test]
fn trusted_hooks_stay_trusted_in_the_next_session() {
    let mut first = HookSession::new(false, false, None, None, Some("/s"), None);
    first.answer("make install", HookAnswer::Always);
    let (_, text) = first.answer("echo hi", HookAnswer::Always);
    let store = text.unwrap();
    let next = HookSession::new(false, false, None, None, Some("/s"), Some(&store));
    assert!(next.is_trusted(&hook_hash("make install")));
    assert!(next.is_trusted(&hook_hash("echo hi")));
    assert_eq!(next.verdict("echo hi", false), HookVerdict::Run);
    assert_eq!(next.verdict("rm -rf /tmp/x", false), HookVerdict::Ask);
}
