use dotling::template::{MachineFacts, RenderContext};
use dotling::vars::{parse_env_file, VarStore};
use dotling::vars_cmd::{
    bootstrap_value, check_template, check_verdict, collect_missing_vars, export_text, import_message,
    run_check, TemplateSource,
    list_rows, load_config_vars, run_get, run_import, run_set, run_unset, VarAnswer,
};

fn ctx(config: &[(String, String)], local: &[(String, String)]) -> RenderContext {
    let facts = MachineFacts {
        hostname: "box".into(),
        username: "me".into(),
        os: "linux".into(),
        arch: "x86_64".into(),
        home: "/home/me".into(),
        env: vec![],
    };
    RenderContext::new("/repo", config, local, facts)
}

#[test]
fn vars_roundtrip() {
    let mut store = VarStore::new();
    store.set("foo", "bar");
    store.set("baz", "qux");
    let serialized = store.serialize();
    let loaded = VarStore::parse(&serialized);
    assert_eq!(loaded.get("foo"), Some("bar"));
    assert_eq!(loaded.get("baz"), Some("qux"));
}

#[test]
fn vars_missing_file_ok() {
    let store = VarStore::new();
    assert!(store.is_empty());
}

#[test]
fn vars_set_overwrites() {
    let mut store = VarStore::new();
    store.set("key", "old");
    store.set("key", "new");
    assert_eq!(store.get("key"), Some("new"));
    assert_eq!(store.len(), 1);
}

#[test]
fn vars_remove() {
    let mut store = VarStore::new();
    store.set("a", "1");
    store.set("b", "2");
    assert!(store.remove("a"));
    assert!(!store.remove("a"));
    assert_eq!(store.get("a"), None);
    assert_eq!(store.get("b"), Some("2"));
}

#[test]
fn vars_iter_order() {
    let mut store = VarStore::new();
    store.set("c", "3");
    store.set("a", "1");
    store.set("b", "2");
    let keys: Vec<&str> = store.iter().into_iter().map(|(k, _)| k).collect();
    assert_eq!(keys, vec!["c", "a", "b"]);
}

#[test]
fn parse_env_file_basic() {
    let content = "FOO=bar\nBAZ=\"qux\"\n# comment\n\nEMPTY=";
    let pairs = parse_env_file(content);
    let get = |k: &str| pairs.iter().find(|(x, _)| x == k).map(|(_, v)| v.clone());
    assert_eq!(get("FOO"), Some("bar".to_string()));
    assert_eq!(get("BAZ"), Some("qux".to_string()));
    assert_eq!(get("EMPTY"), Some(String::new()));
    assert!(get("comment").is_none());
}

#[test]
fn parse_vars_toml_ignores_other_sections() {
    let content = "[other]\nfoo = \"should_ignore\"\n[vars]\nbar = \"keep\"";
    let store = VarStore::parse(content);
    assert_eq!(store.get("bar"), Some("keep"));
    assert_eq!(store.get("foo"), None);
}

#[test]
fn escaped_values_roundtrip() {
    let mut store = VarStore::new();
    store.set("q", "say \"hi\"\\now");
    let back = VarStore::parse(&store.serialize());
    assert_eq!(back.get("q"), Some("say \"hi\"\\now"));
}

#[test]
fn set_and_unset_messages() {
    let mut store = VarStore::new();
    assert_eq!(run_set(&mut store, "k", "v"), "set k = \"v\"  (saved to ~/.dotling/vars.toml)");
    assert_eq!(run_set(&mut store, "k", "w"), "updated k = \"w\"");
    assert_eq!(run_unset(&mut store, "k"), (true, "unset k".to_string()));
    assert_eq!(run_unset(&mut store, "k"), (false, "`k` was not set in the local store".to_string()));
}

#[test]
fn get_reports_where_a_value_comes_from() {
    let mut store = VarStore::new();
    store.set("local_key", "L");
    let c = ctx(&[("cfg".into(), "C".into())], &store.as_pairs());
    assert_eq!(run_get(&c, &store, "hostname").unwrap(), VarAnswer::Builtin("box".into()));
    assert_eq!(run_get(&c, &store, "local_key").unwrap(), VarAnswer::Var { value: "L".into(), local: true });
    assert_eq!(run_get(&c, &store, "cfg").unwrap(), VarAnswer::Var { value: "C".into(), local: false });
    assert_eq!(run_get(&c, &store, "nope").unwrap_err().to_text(), "variable `nope` is not set");
}

#[test]
fn list_shows_builtins_local_then_defaults() {
    let local = vec![("a".to_string(), "1".to_string())];
    let defaults = vec![("a".to_string(), "9".to_string()), ("b".to_string(), "2".to_string())];
    let c = ctx(&defaults, &local);
    let rows = list_rows(&c, &local, &defaults);
    assert_eq!(rows[0], ("dotling.hostname".to_string(), "box".to_string(), "[auto]".to_string()));
    let tail: Vec<_> = rows[rows.len() - 2..].to_vec();
    assert_eq!(
        tail,
        vec![
            ("var.a".to_string(), "1".to_string(), "[local]".to_string()),
            ("var.b".to_string(), "2".to_string(), "[default]".to_string()),
        ]
    );
}

#[test]
fn check_and_collect_missing() {
    let c = ctx(&[("have".into(), "x".into())], &[]);
    let (used, missing) = check_template("{{ var.have }} {{ var.lack }} {{ dotling.nope }}", &c);
    assert_eq!(used, 3);
    assert_eq!(missing, vec!["var.lack".to_string(), "dotling.nope".to_string()]);
    let texts = vec!["{{ var.lack }}".to_string(), "{{ var.lack }} {{ var.other }}".to_string()];
    assert_eq!(collect_missing_vars(&texts, &c), vec!["lack".to_string(), "other".to_string()]);
}

#[test]
fn bootstrap_takes_input_or_default() {
    let defaults = vec![("email".to_string(), "me@x".to_string())];
    assert_eq!(bootstrap_value(&defaults, "email", "  you@y "), Some("you@y".to_string()));
    assert_eq!(bootstrap_value(&defaults, "email", "   "), Some("me@x".to_string()));
    assert_eq!(bootstrap_value(&defaults, "name", ""), None);
}

#[test]
fn import_and_export() {
    let mut store = VarStore::new();
    let msg = run_import(&mut store, "A=1\nB=2\n", "/tmp/x.env");
    assert_eq!(msg, "imported 2 variables from /tmp/x.env");
    assert_eq!(store.get("B"), Some("2"));
    assert_eq!(import_message(1, "f"), "imported 1 variable from f");
    assert_eq!(export_text(&store).unwrap(), "[vars]\nA = \"1\"\nB = \"2\"\n");
    assert_eq!(export_text(&VarStore::new()), None);
}

#[test]
fn config_vars_come_from_the_repo_config() {
    let text = "[vars]\nk = \"v\"\n";
    assert_eq!(load_config_vars(Some(text), "/r/dotling.toml"), vec![("k".to_string(), "v".to_string())]);
    assert!(load_config_vars(None, "/r/dotling.toml").is_empty());
    assert!(load_config_vars(Some("[[entries]]\nsource = 1 2\n"), "/r/dotling.toml").is_empty());
}

#[test]
fn check_report_lines() {
    let c = ctx(&[("have".into(), "x".into())], &[]);
    let entries = vec![
        ("a.dtmpl".to_string(), TemplateSource::NotFound),
        ("b.dtmpl".to_string(), TemplateSource::Encrypted),
        ("c.dtmpl".to_string(), TemplateSource::Text("{{ var.have }}".into())),
        ("d.dtmpl".to_string(), TemplateSource::Text("{{ var.lack }}".into())),
    ];
    let r = run_check(&entries, &c, false);
    let div = "─".repeat(66);
    assert_eq!(
        r.lines,
        vec![
            String::new(),
            "  Template variable check".to_string(),
            format!("  {div}"),
            "  ✗ a.dtmpl — source file not found in repo".to_string(),
            "  ⚠ b.dtmpl — encrypted template (cannot validate without vault password)".to_string(),
            "  ✓ c.dtmpl  —  1 variable — all resolved".to_string(),
            "  ✗ d.dtmpl  —  missing: var.lack".to_string(),
            "     → dotling vars set lack <value>".to_string(),
            format!("  {div}"),
        ]
    );
    assert!(!r.all_ok);
    assert_eq!(check_verdict(false).text, "some templates have unresolved variables");
    assert!(run_check(&vec![], &c, false).all_ok);
}

#[test]
fn lone_quote_values_are_passed_over() {
    let store = VarStore::parse("[vars]\na = \"\nb = \"2\"\n");
    assert_eq!(store.get("a"), None);
    assert_eq!(store.get("b"), Some("2"));
    assert!(dotling::vars_cmd::load_config_vars(Some("[vars]\nx = '\n"), "dotling.toml").is_empty());
}
