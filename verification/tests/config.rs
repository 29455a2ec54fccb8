use dotling::config::{parse_config, serialize_config, Config, DeployMethod, Entry, Hooks, Settings};

fn entry(source: &str, target: &str) -> Entry {
    Entry {
        source: source.into(),
        target: target.into(),
        method: None,
        encrypted: false,
        directory: false,
        template: false,
        os: None,
        permissions: None,
        before: None,
        after: None,
    }
}

#[test]
fn parse_empty_config() {
    let config = parse_config("", "test.toml").unwrap();
    assert!(config.entries.is_empty());
    assert_eq!(config.settings.method, DeployMethod::Symlink);
}

#[test]
fn parse_basic_config() {
    let input = r#"
# dotling.toml

[settings]
method = "symlink"

[[entries]]
source = "shell/zshrc"
target = "~/.zshrc"

[[entries]]
source = "config/nvim"
target = "~/.config/nvim"
directory = true
method = "copy"
os = "macos"
"#;

    let config = parse_config(input, "test.toml").unwrap();
    assert_eq!(config.settings.method, DeployMethod::Symlink);
    assert_eq!(config.entries.len(), 2);

    assert_eq!(config.entries[0].source, "shell/zshrc");
    assert_eq!(config.entries[0].target, "~/.zshrc");
    assert!(!config.entries[0].directory);
    assert!(config.entries[0].method.is_none());

    assert_eq!(config.entries[1].source, "config/nvim");
    assert_eq!(config.entries[1].target, "~/.config/nvim");
    assert!(config.entries[1].directory);
    assert_eq!(config.entries[1].method, Some(DeployMethod::Copy));
    assert_eq!(config.entries[1].os.as_deref(), Some("macos"));
}

#[test]
fn serialize_roundtrip() {
    let config = Config {
        settings: Settings { method: DeployMethod::Symlink },
        entries: vec![
            Entry {
                source: "shell/zshrc".into(),
                target: "~/.zshrc".into(),
                method: None,
                encrypted: false,
                directory: false,
                template: false,
                os: None,
                permissions: None,
                before: Some("echo 'entry before'".into()),
                after: Some("echo 'entry after'".into()),
            },
            Entry {
                source: "config/nvim".into(),
                target: "~/.config/nvim".into(),
                method: Some(DeployMethod::Copy),
                encrypted: true,
                directory: true,
                template: false,
                os: Some("linux".into()),
                permissions: Some(0o600),
                before: None,
                after: None,
            },
        ],
        hooks: Hooks {
            init: Some("echo 'init'".into()),
            before: Some("echo 'global before'".into()),
            after: Some("echo 'global after'".into()),
        },
        vars: vec![],
        path: "test.toml".into(),
    };

    let serialized = serialize_config(&config);
    let parsed = parse_config(&serialized, "test.toml").unwrap();

    assert_eq!(parsed.entries.len(), 2);
    assert_eq!(parsed.entries[0].source, "shell/zshrc");
    assert_eq!(parsed.entries[0].before.as_deref(), Some("echo 'entry before'"));
    assert_eq!(parsed.entries[0].after.as_deref(), Some("echo 'entry after'"));
    assert!(parsed.entries[1].encrypted);
    assert!(parsed.entries[1].directory);
    assert_eq!(parsed.entries[1].permissions, Some(0o600));
    assert_eq!(parsed.hooks.init.as_deref(), Some("echo 'init'"));
    assert_eq!(parsed.hooks.before.as_deref(), Some("echo 'global before'"));
    assert_eq!(parsed.hooks.after.as_deref(), Some("echo 'global after'"));
}

#[test]
fn duplicate_source_rejected() {
    let mut config = Config::new("test.toml");
    config.add_entry(entry("a", "~/.a")).unwrap();
    let err = config.add_entry(entry("a", "~/.b")).unwrap_err();
    assert!(err.to_text().contains("already tracked"));
}

#[test]
fn duplicate_target_rejected() {
    let mut config = Config::new("test.toml");
    config.add_entry(entry("a", "~/.a")).unwrap();
    let err = config.add_entry(entry("b", "~/.a")).unwrap_err();
    assert!(err.to_text().contains("already in use"));
}

#[test]
fn find_by_source_or_target() {
    let mut config = Config::new("test.toml");
    config.add_entry(entry("shell/zshrc", "~/.zshrc")).unwrap();

    assert!(config.find_entry("shell/zshrc", "/home/u", "/work").is_some());
    assert!(config.find_entry("~/.zshrc", "/home/u", "/work").is_some());
    assert!(config.find_entry("nope", "/home/u", "/work").is_none());
}

#[test]
fn remove_entry() {
    let mut config = Config::new("test.toml");
    config.add_entry(entry("a", "~/.a")).unwrap();

    assert!(config.remove_entry("a").is_some());
    assert!(config.entries.is_empty());
    assert!(config.remove_entry("a").is_none());
}

#[test]
fn find_by_resolved_target() {
    let mut config = Config::new("/repo/dotling.toml");
    config.add_entry(entry("shell/zshrc", "~/.zshrc")).unwrap();
    assert!(config.find_entry("/home/u/.zshrc", "/home/u", "/work").is_some());
    assert!(config.find_entry("/repo/shell/zshrc", "/home/u", "/work").is_some());
    assert_eq!(config.find_entry_index("~/.zshrc", "/home/u", "/work"), Some(0));
}

#[test]
fn parse_error_reports_line() {
    let err = parse_config("[[entries]]\nsource = \"a\"\n", "t.toml").unwrap_err();
    assert!(err.to_text().starts_with("config error"));
}

#[test]
fn saved_text_parses_back() {
    let mut config = Config::new("t.toml");
    config.add_entry(entry("git/gitconfig", "~/.gitconfig")).unwrap();
    let text = config.save();
    let back = parse_config(&text, "t.toml").unwrap();
    assert_eq!(back.entries.len(), 1);
    assert_eq!(back.entries[0].source, "git/gitconfig");
    assert_eq!(back.entries[0].target, "~/.gitconfig");
}

#[test]
fn lone_quote_value_is_a_config_error() {
    let text = "[settings]\nmethod = \"symlink\"\n\n[[entries]]\nsource = \"\ntarget = \"~/.x\"\n";
    let err = parse_config(text, "dotling.toml").unwrap_err();
    assert_eq!(err.to_text(), "config error at line 5: value is a lone quote character");
}

#[test]
fn os_with_a_tab_reads_back() {
    let mut config = Config::new("test.toml");
    let mut e = entry("a", "~/.a");
    e.os = Some("linux\tx \"y\"".into());
    config.add_entry(e).unwrap();
    let parsed = parse_config(&serialize_config(&config), "test.toml").unwrap();
    assert_eq!(parsed.entries[0].os.as_deref(), Some("linux\tx \"y\""));
}

#[test]
fn find_and_find_mut_pick_the_same_entry() {
    let mut config = Config::new("test.toml");
    config.add_entry(entry("shell/zshrc", "~/.zshrc")).unwrap();
    config.add_entry(entry("git/gitconfig", "~/.gitconfig")).unwrap();
    let found = config.find_entry("~/.gitconfig", "/home/u", "/work").cloned();
    let found_mut = config.find_entry_mut("~/.gitconfig", "/home/u", "/work").cloned();
    assert_eq!(found.unwrap().source, "git/gitconfig");
    assert_eq!(found_mut.unwrap().source, "git/gitconfig");
    assert!(config.find_entry_mut("nope", "/home/u", "/work").is_none());
}
