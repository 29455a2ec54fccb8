use dotling::editor::{content_changed, find_editor, find_editor_from_map, normalize_gui_editor};

#[test]
fn find_editor_from_env() {
    // DOTLING_EDITOR must beat VISUAL and EDITOR.
    let env = [("DOTLING_EDITOR", "emacs"), ("VISUAL", "code --wait"), ("EDITOR", "nano")];
    assert_eq!(find_editor_from_map(&env).as_deref(), Some("emacs"));
}

#[test]
fn find_editor_falls_back_to_visual() {
    let env = [("VISUAL", "code --wait"), ("EDITOR", "nano")];
    assert_eq!(find_editor_from_map(&env).as_deref(), Some("code --wait"));
}

#[test]
fn find_editor_falls_back_to_editor() {
    let env = [("EDITOR", "nano")];
    assert_eq!(find_editor_from_map(&env).as_deref(), Some("nano"));
}

#[test]
fn find_editor_returns_none_when_all_empty() {
    assert_eq!(find_editor_from_map(&[]).as_deref(), None);
}

#[test]
fn normalize_adds_wait_for_vscode() {
    assert_eq!(normalize_gui_editor("code"), "code --wait");
}

#[test]
fn normalize_adds_wait_for_vscode_full_path() {
    assert_eq!(normalize_gui_editor("/usr/local/bin/code"), "/usr/local/bin/code --wait");
}

#[test]
fn normalize_does_not_duplicate_wait() {
    assert_eq!(normalize_gui_editor("code --wait"), "code --wait");
}

#[test]
fn normalize_adds_wait_for_subl() {
    assert_eq!(normalize_gui_editor("subl"), "subl --wait");
}

#[test]
fn normalize_does_not_touch_terminal_editors() {
    assert_eq!(normalize_gui_editor("vim"), "vim");
    assert_eq!(normalize_gui_editor("nano"), "nano");
    assert_eq!(normalize_gui_editor("nvim"), "nvim");
    assert_eq!(normalize_gui_editor("emacs"), "emacs");
}

#[test]
fn normalize_twice_is_normalize_once() {
    for e in ["code", "subl", "vim", "/opt/bin/zed", "code --wait"] {
        let once = normalize_gui_editor(e);
        assert_eq!(normalize_gui_editor(&once), once);
    }
}

#[test]
fn blank_values_are_skipped() {
    let env = [("DOTLING_EDITOR", "   "), ("VISUAL", ""), ("EDITOR", "  vi  ")];
    assert_eq!(find_editor_from_map(&env).as_deref(), Some("vi"));
}

#[test]
fn find_editor_normalizes_environment_choice() {
    let env = [("EDITOR", "code")];
    assert_eq!(find_editor(&env, &[true, true, true]).unwrap(), "code --wait");
}

#[test]
fn find_editor_falls_back_to_installed_editors() {
    assert_eq!(find_editor(&[], &[false, true, true]).unwrap(), "nano");
    assert_eq!(find_editor(&[], &[false, false, true]).unwrap(), "vi");
    let err = find_editor(&[], &[false, false, false]).unwrap_err();
    assert_eq!(err.to_text(), "no editor found — set $EDITOR, $VISUAL, or $DOTLING_EDITOR");
}

#[test]
fn edits_are_detected_by_digest() {
    assert!(!content_changed(b"original content", b"original content"));
    assert!(content_changed(b"original content", b"modified content"));
}
