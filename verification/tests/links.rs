use dotling::error::DotlingError;
use dotling::links::{Config, EncryptionConfig, LinkEntry, LinkMethod};
use dotling::platform::Platform;

fn link(src: &str, dest: &str) -> LinkEntry {
    LinkEntry { src: src.into(), dest: dest.into(), method: LinkMethod::Symlink, os: None }
}

#[test]
fn duplicate_dest_errors() {
    let mut config = Config::from_parts("/r/.dotling.toml", EncryptionConfig::empty(), Vec::new());
    config.add_entry(link("shell/zshrc", "~/.zshrc")).unwrap();
    let result = config.add_entry(link("other/zshrc", "~/.zshrc"));
    assert!(result.is_err());
}

#[test]
fn remove_nonexistent_errors() {
    let mut config = Config::from_parts("/r/.dotling.toml", EncryptionConfig::empty(), Vec::new());
    let result = config.remove_entry("~/.nonexistent");
    assert!(matches!(result, Err(DotlingError::NotTracked(_))));
}

#[test]
fn load_empty_when_missing() {
    let config = Config::empty("/r/.dotling.toml");
    assert!(config.entries.is_empty());
}

#[test]
fn add_then_remove_gives_back_the_entry() {
    let mut config = Config::empty("/r/.dotling.toml");
    config.add_entry(link("a", "~/.a")).unwrap();
    config.add_entry(link("b", "~/.b")).unwrap();
    let removed = config.remove_entry("~/.a").unwrap();
    assert_eq!(removed.src, "a");
    assert_eq!(config.entries.len(), 1);
    assert!(config.find_by_dest("~/.a").is_none());
    assert_eq!(config.find_by_src("b").unwrap().dest, "~/.b");
}

#[test]
fn active_entries_follow_the_platform() {
    let mut mac = link("m", "~/.m");
    mac.os = Some(Platform::Macos);
    let config = Config::from_parts("/r/.dotling.toml", EncryptionConfig::empty(), vec![link("a", "~/.a"), mac]);
    assert_eq!(config.active_entries(Platform::Linux).len(), 1);
    assert_eq!(config.active_entries(Platform::Macos).len(), 2);
    assert_eq!(LinkMethod::default_method(), LinkMethod::Symlink);
    assert_eq!(LinkMethod::Copy.name(), "copy");
}

#[test]
fn saved_text_layout() {
    let mut mac = link("shell/zshrc", "~/.zshrc");
    mac.method = LinkMethod::Copy;
    mac.os = Some(Platform::Macos);
    let config = Config::from_parts(
        "/r/.dotling.toml",
        EncryptionConfig { recipients: vec!["age1test".to_string()] },
        vec![link("config/nvim/init.lua", "~/.config/nvim/init.lua"), mac],
    );
    assert_eq!(
        config.save(),
        "[encryption]\nrecipients = [\n    \"age1test\",\n]\n\n[[links]]\nsrc = \"config/nvim/init.lua\"\ndest = \"~/.config/nvim/init.lua\"\n\n[[links]]\nsrc = \"shell/zshrc\"\ndest = \"~/.zshrc\"\nmethod = \"copy\"\nos = \"macos\"\n"
    );
    assert_eq!(Config::empty("/x").save(), "");
    let quoted = Config::from_parts("/x", EncryptionConfig::empty(), vec![link("a\"b", "~/.q")]).save();
    assert!(quoted.starts_with("[[links]]\nsrc = \"a\\\"b\"\n"));
}

#[test]
fn orphans_are_untracked_visible_files() {
    let config = Config::from_parts("/r/.dotling.toml", EncryptionConfig::empty(), vec![link("shell/zshrc", "~/.zshrc")]);
    assert!(!config.is_orphan("shell/zshrc"));
    assert!(config.is_orphan("shell/bashrc"));
    assert!(!config.is_orphan(".git/config"));
    assert!(!config.is_orphan(".dotling.toml"));
    assert!(!config.is_orphan(".hidden"));
}
