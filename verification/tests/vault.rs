use dotling::crypto::hex_decode;
use dotling::hooks::hex_encode;
use dotling::ui::NoticeKind;
use dotling::vault::{
    change_password, check_imported_identity, days_to_ymd, decrypt_identity, init_vault,
    read_bundle, seal_identity, timestamp, unlock_vault, vault_config_text,
    vault_dir, write_bundle, write_identity,
};
use dotling::vault_cmd::{
    password_not_empty, passwords_match, run_change_password, run_export, run_import, run_init,
    run_show,
};

#[test]
fn vault_dir_is_underhome() {
    let dir = vault_dir("/home/u");
    assert!(dir.ends_with(".dotling/vault"));
}

#[test]
fn days_to_ymd_epoch() {
    assert_eq!(days_to_ymd(0), (1970, 1, 1));
}

#[test]
fn days_to_ymd_known_date() {
    assert_eq!(days_to_ymd(19723), (2024, 1, 1));
}

#[test]
fn days_to_ymd_leap_day() {
    assert_eq!(days_to_ymd(19782), (2024, 2, 29));
    assert_eq!(days_to_ymd(11016), (2000, 2, 29));
}

#[test]
fn timestamps_are_iso8601_utc() {
    assert_eq!(timestamp(0), "1970-01-01T00:00:00Z");
    assert_eq!(timestamp(1_704_067_200 + 3661), "2024-01-01T01:01:01Z");
    assert_eq!(vault_config_text("X"), "[vault]\nversion = 1\ncreated = \"X\"\n");
}

#[test]
fn write_identity_decrypt_roundtrip() {
    let secret = [0x42u8; 32];
    let content = write_identity("test-pass", &secret).unwrap();
    let decrypted = decrypt_identity(&content, "test-pass").unwrap();
    assert_eq!(decrypted, secret);
}

#[test]
fn decrypt_identity_wrong_password() {
    let content = write_identity("correct", &[0x42u8; 32]).unwrap();
    assert!(decrypt_identity(&content, "wrong").is_err());
}

#[test]
fn decrypt_identity_corrupted_header() {
    let result = decrypt_identity("WRONG-HEADER\nabc\nabc\nabc\n", "pass");
    assert!(result.is_err());
    assert!(result.unwrap_err().to_text().contains("invalid vault"));
}

#[test]
fn decrypt_identity_truncated() {
    assert!(decrypt_identity("DOTLING-VAULT-V1\n", "pass").is_err());
}

#[test]
fn decrypt_identity_bad_salt_length() {
    let content = "DOTLING-VAULT-V1\nabcd\nabcd1234abcd1234abcd1234\ndGVzdA==\n";
    let result = decrypt_identity(content, "pass");
    assert!(result.is_err());
    assert!(result.unwrap_err().to_text().contains("salt"));
}

#[test]
fn decrypt_identity_bad_nonce_length() {
    let salt = hex_encode(&[0u8; 32]);
    let content = format!("DOTLING-VAULT-V1\n{salt}\nabcd\ndGVzdA==\n");
    let result = decrypt_identity(&content, "pass");
    assert!(result.is_err());
    assert!(result.unwrap_err().to_text().contains("nonce"));
}

#[test]
fn sealed_identity_layout() {
    let t = seal_identity("pw", &[1u8; 32], &[2u8; 32], &[3u8; 12]).unwrap();
    let lines: Vec<&str> = t.lines().collect();
    assert_eq!(lines[0], "DOTLING-VAULT-V1");
    assert_eq!(hex_decode(lines[1]).unwrap(), vec![2u8; 32]);
    assert_eq!(hex_decode(lines[2]).unwrap(), vec![3u8; 12]);
    assert_eq!(decrypt_identity(&t, "pw").unwrap(), vec![1u8; 32]);
}

#[test]
fn unlock_needs_a_vault_and_the_password() {
    let e = unlock_vault(None, "pw").unwrap_err();
    assert_eq!(e.to_text(), "vault: vault not initialized — run `dotling vault init` first");
    let t = init_vault(false, "pw").unwrap();
    assert_eq!(unlock_vault(Some(&t), "pw").unwrap().len(), 32);
    assert!(unlock_vault(Some(&t), "other").is_err());
    assert!(init_vault(true, "pw").is_err());
}

#[test]
fn changed_password_opens_the_same_secret() {
    let t = write_identity("old", &[9u8; 32]).unwrap();
    let t2 = change_password(Some(&t), "old", "new").unwrap();
    assert_eq!(decrypt_identity(&t2, "new").unwrap(), vec![9u8; 32]);
    assert!(decrypt_identity(&t2, "old").is_err());
    assert!(change_password(Some(&t), "wrong", "new").is_err());
}

#[test]
fn bundle_roundtrip() {
    let blob = write_bundle("pw", b"[vault]\n", b"IDENTITY").unwrap();
    assert_eq!(&blob[..8], b"DOTLVAUL");
    let (config, identity) = read_bundle(&blob, "pw").unwrap();
    assert_eq!(config, b"[vault]\n");
    assert_eq!(identity, b"IDENTITY");
    assert!(read_bundle(&blob, "nope").is_err());
    let small = read_bundle(b"tiny", "pw").unwrap_err();
    assert_eq!(small.to_text(), "vault: bundle too small (4 bytes, expected at least 73)");
}

#[test]
fn imported_identity_is_checked() {
    let t = write_identity("pw", &[5u8; 32]).unwrap();
    assert!(check_imported_identity(t.as_bytes(), "pw").is_ok());
    assert!(check_imported_identity(t.as_bytes(), "bad").is_err());
    let e = check_imported_identity(&[0xff, 0xfe], "pw").unwrap_err();
    assert_eq!(e.to_text(), "vault: corrupted identity content in bundle");
}

fn kinds(v: &[dotling::ui::Notice]) -> Vec<(NoticeKind, String)> {
    v.iter().map(|n| (n.kind, n.text.clone())).collect()
}

#[test]
fn vault_init_command() {
    let o = run_init(true, true, "", "", "now").unwrap();
    assert!(o.files.is_none());
    assert_eq!(kinds(&o.notices)[0], (NoticeKind::Warning, "vault already exists".to_string()));
    assert_eq!(run_init(false, false, "", "", "now").unwrap_err().to_text(), "password cannot be empty");
    assert_eq!(run_init(false, false, "a", "b", "now").unwrap_err().to_text(), "passwords do not match");
    let o = run_init(false, false, "pw", "pw", "2024-01-01T00:00:00Z").unwrap();
    let files = o.files.unwrap();
    assert_eq!(files.config, "[vault]\nversion = 1\ncreated = \"2024-01-01T00:00:00Z\"\n");
    assert_eq!(decrypt_identity(&files.identity, "pw").unwrap().len(), 32);
    assert_eq!(kinds(&o.notices)[0], (NoticeKind::Success, "vault created".to_string()));
    assert!(password_not_empty("x").is_ok());
    let lone = run_init(false, true, "pw", "pw", "now").unwrap_err();
    assert_eq!(lone.to_text(), "vault: vault already exists — use change_password to update");
    assert!(passwords_match("x", "x").is_ok());
}

#[test]
fn vault_show_command() {
    assert_eq!(
        kinds(&run_show(true, "/h/.dotling/vault")),
        vec![
            (NoticeKind::Header, "Vault".to_string()),
            (NoticeKind::Info, "location: /h/.dotling/vault".to_string()),
            (NoticeKind::Info, "status: initialized ✓".to_string()),
        ]
    );
    assert_eq!(kinds(&run_show(false, "x"))[0], (NoticeKind::Info, "no vault found".to_string()));
}

#[test]
fn vault_export_import_commands() {
    let identity = write_identity("pw", &[4u8; 32]).unwrap();
    let e = run_export(false, None, "pw", b"", "/tmp/b").unwrap_err();
    assert_eq!(e.to_text(), "no vault found — run `dotling vault init` first");
    assert!(run_export(true, Some(&identity), "wrong", b"cfg", "/tmp/b").is_err());
    let out = run_export(true, Some(&identity), "pw", b"cfg", "/tmp/b").unwrap();
    assert_eq!(kinds(&out.notices)[0], (NoticeKind::Success, "vault exported to `/tmp/b`".to_string()));

    let cancelled = run_import(true, false, &out.bundle, "pw").unwrap();
    assert!(cancelled.files.is_none());
    assert_eq!(kinds(&cancelled.notices)[0], (NoticeKind::Info, "import cancelled".to_string()));
    let imported = run_import(false, false, &out.bundle, "pw").unwrap();
    let (config, id) = imported.files.unwrap();
    assert_eq!(config, b"cfg");
    assert_eq!(id, identity.as_bytes());
    assert!(run_import(false, false, &out.bundle, "bad").is_err());
}

#[test]
fn vault_change_password_command() {
    let identity = write_identity("old", &[6u8; 32]).unwrap();
    let e = run_change_password(false, None, "old", "new", "new").unwrap_err();
    assert_eq!(e.to_text(), "no vault found — run `dotling vault init` first");
    let e = run_change_password(true, Some(&identity), "old", "", "").unwrap_err();
    assert_eq!(e.to_text(), "password cannot be empty");
    let e = run_change_password(true, Some(&identity), "old", "new", "neu").unwrap_err();
    assert_eq!(e.to_text(), "passwords do not match");
    let o = run_change_password(true, Some(&identity), "old", "new", "new").unwrap();
    assert_eq!(decrypt_identity(&o.identity, "new").unwrap(), vec![6u8; 32]);
}
