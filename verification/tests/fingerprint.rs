use dotling::fingerprint::{
    hash_bytes, parse_store, serialize_store, EntryFingerprint, FingerprintStore, WhichSide,
};
use dotling::hooks::hex_encode;

fn find<'a>(v: &'a [(String, EntryFingerprint)], k: &str) -> &'a EntryFingerprint {
    &v.iter().find(|(s, _)| s == k).unwrap().1
}

#[test]
fn serialize_parse_roundtrip() {
    let records = vec![
        (
            "a/b".to_string(),
            EntryFingerprint {
                enc_hash: "abc123".to_string(),
                target_hash: "def456".to_string(),
                source_hash: String::new(),
            },
        ),
        (
            "c/d".to_string(),
            EntryFingerprint {
                enc_hash: String::new(),
                target_hash: "789abc".to_string(),
                source_hash: "012def".to_string(),
            },
        ),
    ];

    let serialized = serialize_store(&records);
    let parsed = parse_store(&serialized);

    assert_eq!(parsed.len(), 2);
    assert_eq!(find(&parsed, "a/b").enc_hash, "abc123");
    assert_eq!(find(&parsed, "a/b").target_hash, "def456");
    assert_eq!(find(&parsed, "c/d").source_hash, "012def");
}

#[test]
fn parse_empty_input() {
    let parsed = parse_store("");
    assert!(parsed.is_empty());
}

#[test]
fn parse_with_comments() {
    let input = "# comment\n[[entries]]\nsource = \"x\"\ntarget_hash = \"abc\"\n";
    let parsed = parse_store(input);
    assert_eq!(parsed.len(), 1);
    assert_eq!(find(&parsed, "x").target_hash, "abc");
}

#[test]
fn parse_with_missing_optional_fields() {
    let input = "[[entries]]\nsource = \"x\"\ntarget_hash = \"abc\"\n";
    let parsed = parse_store(input);
    assert_eq!(find(&parsed, "x").enc_hash, "");
    assert_eq!(find(&parsed, "x").source_hash, "");
}

#[test]
fn test_hex_encode() {
    assert_eq!(hex_encode(b"hello"), "68656c6c6f");
}

#[test]
fn hex_encode_empty() {
    assert_eq!(hex_encode(b""), "");
}

#[test]
fn who_changed_unknown() {
    let store = FingerprintStore::new("/tmp/fp.toml", None);
    let h = hash_bytes(b"");
    assert_eq!(store.who_changed("missing", Some(&h), Some(&h)), WhichSide::Unknown);
}

#[test]
fn who_changed_tells_the_sides_apart() {
    let mut store = FingerprintStore::new("/tmp/fp.toml", None);
    store.record_plain("a", "s1", "t1");
    assert_eq!(store.who_changed("a", Some("s1"), Some("t1")), WhichSide::Neither);
    assert_eq!(store.who_changed("a", Some("s2"), Some("t1")), WhichSide::RepoOnly);
    assert_eq!(store.who_changed("a", Some("s1"), Some("t2")), WhichSide::ActualOnly);
    assert_eq!(store.who_changed("a", Some("s2"), Some("t2")), WhichSide::Both);
}

#[test]
fn is_in_sync_unknown_source() {
    let store = FingerprintStore::new("/tmp/fp.toml", None);
    assert_eq!(store.is_in_sync("missing", Some("abc"), Some("def")), None);
}

#[test]
fn has_record_false_for_missing() {
    let store = FingerprintStore::new("/tmp/fp.toml", None);
    assert!(!store.has_record("does/not/exist"));
}

#[test]
fn recorded_pair_is_in_sync() {
    let mut store = FingerprintStore::new("/tmp/fp.toml", None);
    store.record("a", "e1", "t1");
    assert!(store.has_record("a"));
    assert_eq!(store.is_in_sync("a", Some("e1"), Some("t1")), Some(true));
    assert_eq!(store.is_in_sync("a", Some("e2"), Some("t1")), Some(false));
}

#[test]
fn saved_store_loads_back() {
    let mut store = FingerprintStore::new("/tmp/fp.toml", None);
    store.record_plain("shell/zshrc", "s1", "t1");
    let text = store.save().unwrap();
    let back = FingerprintStore::new("/tmp/fp.toml", Some(&text));
    assert!(back.has_record("shell/zshrc"));
}

#[test]
fn hashes_are_hex_digests() {
    let h = hash_bytes(b"hello");
    assert_eq!(h.len(), 64);
    assert!(h.chars().all(|c| c.is_ascii_hexdigit()));
    assert_ne!(h, hash_bytes(b"world"));
}

#[test]
fn fresh_store_saves_nothing_and_answers_after_reload() {
    let store = FingerprintStore::new("/tmp/fp.toml", None);
    assert!(store.save().is_none());
    let mut store = FingerprintStore::new("/tmp/fp.toml", None);
    store.record("b/enc", "e0", "t0");
    store.record_plain("a/plain", "s0", "t0");
    let back = FingerprintStore::new("/tmp/fp.toml", Some(&store.save().unwrap()));
    assert!(back.save().is_none());
    assert_eq!(back.is_in_sync("b/enc", Some("e0"), Some("t0")), Some(true));
    assert_eq!(back.is_in_sync("b/enc", Some("e0"), None), Some(false));
    assert_eq!(back.is_in_sync("c", Some("e0"), Some("t0")), None);
    assert_eq!(back.who_changed("a/plain", Some("s1"), Some("t0")), WhichSide::RepoOnly);
    assert_eq!(back.who_changed("a/plain", Some("s0"), Some("t1")), WhichSide::ActualOnly);
}
