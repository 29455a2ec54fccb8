use dotling::path::{collapse_tilde, expand_tilde, map_to_repo, normalize, relative_to, resolve, same_path};
use dotling::platform::{should_deploy, Platform};
use dotling::repo::{
    dest_to_src_path, expand_path, is_inside_home, normalize_path, path_with_tilde, resolve_path,
    src_to_dest_path,
};
use dotling::store::{config_path, state_dir, state_path};

const HOME: &str = "/home/tester";

#[test]
fn path_tilde_expansion() {
    let expanded = expand_tilde("~/test", HOME);
    assert!(expanded.starts_with('/'));
    assert!(expanded.ends_with("test"));
    assert_eq!(expanded, "/home/tester/test");
}

#[test]
fn tilde_collapse() {
    let path = format!("{HOME}/Documents/file.txt");
    assert_eq!(collapse_tilde(&path, HOME), "~/Documents/file.txt");
}

#[test]
fn relative_path() {
    let r = relative_to("/a/b/c", "/a/d").unwrap();
    assert_eq!(r, "../b/c");
}

#[test]
fn config_mapping() {
    let p = format!("{HOME}/.config/nvim/init.lua");
    assert_eq!(map_to_repo(&p, HOME).unwrap(), "config/nvim/init.lua");
}

#[test]
fn shell_mapping() {
    let p = format!("{HOME}/.zshrc");
    assert_eq!(map_to_repo(&p, HOME).unwrap(), "shell/zshrc");
}

#[test]
fn default_mapping() {
    let p = format!("{HOME}/.some_random_rc");
    assert_eq!(map_to_repo(&p, HOME).unwrap(), "home/some_random_rc");
}

#[test]
fn normalize_dots() {
    let p = normalize("/a/b/../c/./d");
    assert_eq!(p, "/a/c/d");
}

#[test]
fn relative_resolution_uses_cwd() {
    assert_eq!(resolve("x/../y", HOME, "/work"), "/work/y");
    assert_eq!(resolve("~/.zshrc", HOME, "/work"), "/home/tester/.zshrc");
    assert!(same_path("/a/b/", "/a/b"));
}

#[test]
fn mapping_outside_home_is_refused() {
    assert!(map_to_repo("/etc/hosts", HOME).is_err());
}

#[test]
fn current_is_valid() {
    let p = Platform::current("linux");
    assert!(!p.as_str().is_empty());
}

#[test]
fn parse_roundtrip() {
    for p in [Platform::Linux, Platform::Macos, Platform::Windows] {
        assert_eq!(Platform::parse(p.as_str()), Some(p));
    }
}

#[test]
fn all_always_deploys() {
    assert!(should_deploy(None, Platform::Linux));
    assert!(should_deploy(Some("all"), Platform::Linux));
}

#[test]
fn tagged_entries_deploy_only_on_their_platform() {
    assert!(should_deploy(Some("macos"), Platform::Macos));
    assert!(!should_deploy(Some("macos"), Platform::Linux));
    assert_eq!(Platform::current("macos"), Platform::Macos);
    assert_eq!(Platform::parse("beos"), None);
}

#[test]
fn repo_tilde_expansion() {
    let expanded = expand_path("~/something", Some(HOME)).unwrap();
    assert_eq!(expanded, "/home/tester/something");
}

#[test]
fn absolute_path_passthrough() {
    let result = expand_path("/usr/local/bin/thing", Some(HOME)).unwrap();
    assert_eq!(result, "/usr/local/bin/thing");
}

#[test]
fn dest_to_src_config_nvim() {
    let dest = format!("{HOME}/.config/nvim/init.lua");
    assert_eq!(dest_to_src_path(&dest, Some(HOME)).unwrap(), "config/nvim/init.lua");
}

#[test]
fn dest_to_src_bare_zshrc() {
    let dest = format!("{HOME}/.zshrc");
    assert_eq!(dest_to_src_path(&dest, Some(HOME)).unwrap(), "shell/zshrc");
}

#[test]
fn dest_to_src_bare_gitconfig() {
    let dest = format!("{HOME}/.gitconfig");
    assert_eq!(dest_to_src_path(&dest, Some(HOME)).unwrap(), "git/gitconfig");
}

#[test]
fn is_inside_home_true() {
    assert!(is_inside_home(&format!("{HOME}/test"), Some(HOME)));
}

#[test]
fn is_inside_home_false() {
    assert!(!is_inside_home("/tmp/test", Some(HOME)));
}

#[test]
fn resolve_tilde_path() {
    let resolved = resolve_path("~/something", Some(HOME), "/work").unwrap();
    assert_eq!(resolved, "/home/tester/something");
}

#[test]
fn resolve_absolute_path() {
    let resolved = resolve_path("/usr/local/bin", Some(HOME), "/work").unwrap();
    assert_eq!(resolved, "/usr/local/bin");
}

#[test]
fn normalize_removes_dot_dot() {
    assert_eq!(normalize_path("/home/user/foo/../bar"), "/home/user/bar");
}

#[test]
fn normalize_removes_dot() {
    assert_eq!(normalize_path("/home/user/./bar"), "/home/user/bar");
}

#[test]
fn normalize_complex_path() {
    assert_eq!(normalize_path("/a/b/../c/./d/../e"), "/a/c/e");
}

#[test]
fn stored_destinations_expand() {
    assert_eq!(src_to_dest_path("~/.config/nvim/init.lua", Some(HOME)).unwrap(), "/home/tester/.config/nvim/init.lua");
    assert_eq!(path_with_tilde("/home/tester/.zshrc", Some(HOME)), "~/.zshrc");
}

#[test]
fn no_home_is_an_error() {
    assert!(expand_path("~/x", None).is_err());
}

#[test]
fn state_dir_is_under_home() {
    let dir = state_dir(HOME);
    assert!(dir.ends_with(".dotling"));
    assert_eq!(state_path(HOME), "/home/tester/.dotling/state.toml");
    assert_eq!(config_path("/repo"), "/repo/dotling.toml");
}

#[test]
fn collapsed_paths_expand_back() {
    for p in ["/home/u/.zshrc", "/home/u/.config/nvim/init.lua", "/home/u/a//b/./c"] {
        let back = expand_tilde(&collapse_tilde(p, "/home/u"), "/home/u");
        assert_eq!(std::path::Path::new(&back), std::path::Path::new(p));
    }
    assert_eq!(expand_tilde(&collapse_tilde("/home/u/x", "/home/u/"), "/home/u/"), "/home/u/x");
    assert_eq!(collapse_tilde("/etc/hosts", "/home/u"), "/etc/hosts");
}

#[test]
fn parent_of_root_is_root() {
    assert_eq!(normalize("/../etc"), "/etc");
    assert_eq!(resolve("/../../etc/./hosts", "/home/u", "/w"), "/etc/hosts");
    assert_eq!(normalize("/a/../.."), "/");
}
