use dotling::crypto::{
    decrypt_with_key, derive_key, encrypt_with_key, hex_decode, is_encrypted_content,
    seal_with_nonce,
};
use dotling::hooks::hex_encode;

#[test]
fn encrypt_decrypt_roundtrip() {
    let data = b"my secret config data";
    let key = [0x42u8; 32];
    let encrypted = encrypt_with_key(data, &key).unwrap();
    let text = std::str::from_utf8(&encrypted).unwrap();
    assert!(text.starts_with("DOTLING-ENC-V2\n"));
    let decrypted = decrypt_with_key(&encrypted, &key).unwrap();
    assert_eq!(&decrypted, data);
}

#[test]
fn wrong_key_fails() {
    let key1 = [0x11u8; 32];
    let key2 = [0x22u8; 32];
    let encrypted = encrypt_with_key(b"secret", &key1).unwrap();
    assert!(decrypt_with_key(&encrypted, &key2).is_err());
}

#[test]
fn hex_roundtrip() {
    let data = b"Hello, world!";
    let encoded = hex_encode(data);
    let decoded = hex_decode(&encoded).unwrap();
    assert_eq!(&decoded, data);
}

#[test]
fn encrypt_decrypt_empty_data() {
    let key = [0x01u8; 32];
    let encrypted = encrypt_with_key(b"", &key).unwrap();
    let decrypted = decrypt_with_key(&encrypted, &key).unwrap();
    assert!(decrypted.is_empty());
}

#[test]
fn encrypt_decrypt_large_data() {
    let key = [0x02u8; 32];
    let data = vec![0xABu8; 1024 * 1024];
    let encrypted = encrypt_with_key(&data, &key).unwrap();
    let decrypted = decrypt_with_key(&encrypted, &key).unwrap();
    assert_eq!(decrypted, data);
}

#[test]
fn encrypted_output_has_correct_header() {
    let key = [0x03u8; 32];
    let encrypted = encrypt_with_key(b"test", &key).unwrap();
    let text = std::str::from_utf8(&encrypted).unwrap();
    assert!(text.starts_with("DOTLING-ENC-V2\n"));
}

#[test]
fn encrypted_output_is_valid_utf8() {
    let key = [0x04u8; 32];
    let encrypted = encrypt_with_key(b"binary-safe test", &key).unwrap();
    assert!(std::str::from_utf8(&encrypted).is_ok());
}

#[test]
fn decrypt_invalid_header() {
    let key = [0x05u8; 32];
    let bad = b"WRONG-HEADER\nabc\nabc\n";
    let result = decrypt_with_key(bad, &key);
    assert!(result.is_err());
    assert!(result.unwrap_err().to_text().contains("DOTLING-ENC-V2"));
}

#[test]
fn decrypt_truncated_data() {
    let key = [0x06u8; 32];
    let bad = b"DOTLING-ENC-V2\nabcd1234abcd1234abcd1234\n";
    assert!(decrypt_with_key(bad, &key).is_err());
}

#[test]
fn decrypt_invalid_base64() {
    let key = [0x07u8; 32];
    let bad = b"DOTLING-ENC-V2\nabcd1234abcd1234abcd1234\n!!!not-base64!!!\n";
    assert!(decrypt_with_key(bad, &key).is_err());
}

#[test]
fn decrypt_wrong_nonce_length() {
    let key = [0x08u8; 32];
    let bad = b"DOTLING-ENC-V2\nabcd\ndGVzdA==\n";
    let result = decrypt_with_key(bad, &key);
    assert!(result.is_err());
    assert!(result.unwrap_err().to_text().contains("nonce"));
}

#[test]
fn decrypt_tampered_ciphertext() {
    let key = [0x09u8; 32];
    let encrypted = encrypt_with_key(b"original", &key).unwrap();
    let text = std::str::from_utf8(&encrypted).unwrap().to_string();
    let mut lines: Vec<&str> = text.lines().collect();
    let payload = lines[2].as_bytes().to_vec();
    let mut tampered_payload = payload.clone();
    tampered_payload[0] = if tampered_payload[0] == b'A' { b'B' } else { b'A' };
    lines[2] = std::str::from_utf8(&tampered_payload).unwrap();
    let tampered = lines.join("\n");
    assert!(decrypt_with_key(tampered.as_bytes(), &key).is_err());
}

#[test]
fn derive_key_deterministic() {
    let password = "test-password";
    let salt = b"fixed-salt-value-1234567890ab";
    let key1 = derive_key(password, salt).unwrap();
    let key2 = derive_key(password, salt).unwrap();
    assert_eq!(key1, key2);
}

#[test]
fn derive_key_different_salt() {
    let password = "test-password";
    let key1 = derive_key(password, b"aaaaaaaaaaaaaaaaaaaaaaaaaaaaaa").unwrap();
    let key2 = derive_key(password, b"bbbbbbbbbbbbbbbbbbbbbbbbbbbbbb").unwrap();
    assert_ne!(key1, key2);
}

#[test]
fn derive_key_empty_password() {
    let key = derive_key("", b"some-salt-value-1234567890abcd").unwrap();
    assert_eq!(key.len(), 32);
}

#[test]
fn derive_key_refuses_short_salt() {
    let err = derive_key("pw", b"abc").unwrap_err();
    assert!(err.to_text().starts_with("crypto: key derivation failed: "));
}

#[test]
fn hex_decode_odd_length() {
    let result = hex_decode("abc");
    assert!(result.is_err());
    assert!(result.unwrap_err().contains("odd length"));
}

#[test]
fn hex_decode_invalid_chars() {
    assert!(hex_decode("zzzz").is_err());
}

#[test]
fn hex_decode_empty() {
    assert!(hex_decode("").unwrap().is_empty());
}

#[test]
fn hex_encode_is_lowercase_pairs() {
    assert_eq!(hex_encode(&[0x00, 0xff, 0x10]), "00ff10");
    assert_eq!(hex_decode("00FF10").unwrap(), vec![0x00, 0xff, 0x10]);
}

#[test]
fn is_encrypted_content_detects_header() {
    let key = [0x42u8; 32];
    let encrypted = encrypt_with_key(b"secret", &key).unwrap();
    assert!(is_encrypted_content(&encrypted));
}

#[test]
fn is_encrypted_content_rejects_plaintext() {
    assert!(!is_encrypted_content(b"just plain text"));
}

#[test]
fn is_encrypted_content_rejects_partial_header() {
    assert!(!is_encrypted_content(b"DOTLING-ENC-V"));
}

#[test]
fn is_encrypted_content_rejects_empty() {
    assert!(!is_encrypted_content(b""));
}

#[test]
fn sealing_with_a_fixed_nonce_is_deterministic() {
    let key = [0x33u8; 32];
    let nonce = [7u8; 12];
    let a = seal_with_nonce(b"same", &key, &nonce).unwrap();
    let b = seal_with_nonce(b"same", &key, &nonce).unwrap();
    assert_eq!(a, b);
    let text = String::from_utf8(a.clone()).unwrap();
    assert_eq!(text.lines().nth(1).unwrap(), "070707070707070707070707");
    assert_eq!(decrypt_with_key(&a, &key).unwrap(), b"same");
    assert_ne!(text.lines().nth(2).unwrap(), "c2FtZQ==");
}

#[test]
fn split_characters_in_hex_are_errors() {
    assert_eq!(hex_decode("a\u{e9}b").unwrap_err(), "invalid hex: invalid digit found in string");
    let key = [7u8; 32];
    let err = decrypt_with_key("DOTLING-ENC-V2\na\u{e9}b\nxx\n".as_bytes(), &key).unwrap_err();
    assert_eq!(err.to_text(), "crypto: invalid nonce: invalid hex: invalid digit found in string");
}
