//! Password-based encryption of dotfiles.
//!
//! - **Argon2id** for key derivation (memory-hard, resists GPU attacks)
//! - **ChaCha20-Poly1305** AEAD for authenticated encryption
//! - a CSPRNG for salts and nonces
//!
//! An encrypted file is text:
//!
//! ```text
//! DOTLING-ENC-V2
//! <12-byte nonce as hex>
//! <base64-encoded ciphertext+tag>
//! ```
//!
//! The primitives come from their crates; the file format, its checks and
//! its error messages are this module's own.

use vstd::prelude::*;

use base64::prelude::BASE64_STANDARD;
use base64::Engine;
use chacha20poly1305::aead::{Aead, KeyInit};
use rand::Rng;

use crate::error::Error;
use crate::fingerprint::{hex, hex_digit, hex_encode};
use crate::text::{
    chars_of, decimal, decimal_vec, is_whitespace, is_ws, join_lines, lemma_join_one, lemma_lines_join, lines,
    lines_vec, push_all, push_str, same_str, seqs_of, string_of,
};

verus! {

// ── Outside primitives ────────────────────────────────────────────

/// The ChaCha20-Poly1305 sealing (ciphertext followed by tag) of `plain`.
pub uninterp spec fn chacha_seal(key: Seq<u8>, nonce: Seq<u8>, plain: Seq<u8>) -> Seq<u8>;

/// The ChaCha20-Poly1305 opening of `sealed`: the plaintext, or `None` when
/// the tag does not authenticate.
pub uninterp spec fn chacha_open(key: Seq<u8>, nonce: Seq<u8>, sealed: Seq<u8>) -> Option<Seq<u8>>;

/// Standard padded base64 of some bytes.
pub uninterp spec fn base64_encode(data: Seq<u8>) -> Seq<char>;

/// Standard padded base64 decoding: the bytes, or the decoder's message.
pub uninterp spec fn base64_decode(text: Seq<char>) -> Result<Seq<u8>, Seq<char>>;

/// The 32-byte Argon2id key (default parameters) of a password and salt.
pub uninterp spec fn argon2id_key(password: Seq<u8>, salt: Seq<u8>) -> Seq<u8>;

pub open spec fn opt_bytes(o: Option<Vec<u8>>) -> Option<Seq<u8>> {
    match o {
        Some(v) => Some(v@),
        None => None,
    }
}

pub open spec fn res_bytes(r: Result<Vec<u8>, String>) -> Result<Seq<u8>, Seq<char>> {
    match r {
        Ok(v) => Ok(v@),
        Err(e) => Err(e@),
    }
}

/// A successful decoding to `b`.
pub open spec fn decoded(b: Seq<u8>) -> Result<Seq<u8>, Seq<char>> {
    Ok(b)
}

/// ChaCha20 can encrypt fewer than `u32::MAX` 64-byte blocks.
pub open spec fn sealable(len: nat) -> bool {
    len / 64 < 0xffff_ffff
}

/// `ChaCha20Poly1305::encrypt` with a 12-byte nonce.
///
/// Trusted: per the crate's source, it fails only when the message reaches
/// `u32::MAX` blocks of 64 bytes; otherwise it returns the sealing, named
/// here: the ciphertext, as long as the message, then a 16-byte tag.
#[verifier::external_body]
pub(crate) fn aead_seal(key: &[u8; 32], nonce: &[u8], data: &[u8]) -> (r: Option<Vec<u8>>)
    requires
        nonce@.len() == 12,
    ensures
        r is Some <==> sealable(data@.len()),
        r matches Some(c) ==> c@ == chacha_seal(key@, nonce@, data@) && c@.len() == data@.len() + 16,
{
    let cipher = chacha20poly1305::ChaCha20Poly1305::new(key.into());
    cipher.encrypt(chacha20poly1305::Nonce::from_slice(nonce), data).ok()
}

/// `ChaCha20Poly1305::decrypt` with a 12-byte nonce.
///
/// Trusted: returns the opening, named here; what `encrypt` sealed under the
/// same key and nonce opens to the plaintext (the AEAD's correctness). That
/// another key or altered bytes fail to open is a matter of chance and is
/// not stated.
#[verifier::external_body]
pub(crate) fn aead_open(key: &[u8; 32], nonce: &[u8], sealed: &[u8]) -> (r: Option<Vec<u8>>)
    requires
        nonce@.len() == 12,
    ensures
        opt_bytes(r) == chacha_open(key@, nonce@, sealed@),
        forall|p: Seq<u8>|
            sealable(p.len()) && sealed@ == #[trigger] chacha_seal(key@, nonce@, p) ==> opt_bytes(r)
                == Some(p),
{
    let cipher = chacha20poly1305::ChaCha20Poly1305::new(key.into());
    cipher.decrypt(chacha20poly1305::Nonce::from_slice(nonce), sealed).ok()
}

/// A character of the standard base64 alphabet, or padding.
pub open spec fn is_b64_char(c: char) -> bool {
    ('A' <= c && c <= 'Z') || ('a' <= c && c <= 'z') || ('0' <= c && c <= '9') || c == '+' || c
        == '/' || c == '='
}

/// A text made of base64 characters.
pub open spec fn all_b64(s: Seq<char>) -> bool {
    forall|i: int| 0 <= i < s.len() ==> is_b64_char(#[trigger] s[i])
}

/// `BASE64_STANDARD.encode`.
///
/// Trusted: the encoding is named here; its characters are those of the
/// standard alphabet and `=` padding.
#[verifier::external_body]
pub(crate) fn b64_encode(data: &[u8]) -> (r: String)
    ensures
        r@ == base64_encode(data@),
        forall|i: int| 0 <= i < r@.len() ==> is_b64_char(#[trigger] r@[i]),
{
    BASE64_STANDARD.encode(data)
}

/// `BASE64_STANDARD.decode`, with the error's text.
///
/// Trusted: the decoding is named here; the text of an encoding decodes
/// back to its bytes.
#[verifier::external_body]
pub(crate) fn b64_decode(text: &str) -> (r: Result<Vec<u8>, String>)
    ensures
        res_bytes(r) == base64_decode(text@),
        forall|b: Seq<u8>| text@ == #[trigger] base64_encode(b) ==> res_bytes(r) == decoded(b),
{
    match BASE64_STANDARD.decode(text) {
        Ok(v) => Ok(v),
        Err(e) => Err(e.to_string()),
    }
}

/// The key derivation's refusal, in the order `argon2` checks.
pub open spec fn argon2_refusal(password_len: nat, salt_len: nat) -> Option<Seq<char>> {
    if password_len > 0xFFFF_FFFF {
        Some("password is too long"@)
    } else if salt_len < 8 {
        Some("salt is too short"@)
    } else if salt_len > 0xFFFF_FFFF {
        Some("salt is too long"@)
    } else {
        None
    }
}

/// `Argon2::default().hash_password_into` into 32 bytes.
///
/// Trusted: per the crate's source it refuses a password over `u32::MAX`
/// bytes and a salt under 8 or over `u32::MAX` bytes, with those messages,
/// and otherwise yields the key, named here.
#[verifier::external_body]
fn argon2_derive(password: &str, salt: &[u8]) -> (r: Result<[u8; 32], String>)
    ensures
        match argon2_refusal(vstd::utf8::encode_utf8(password@).len(), salt@.len()) {
            Some(m) => r matches Err(e) && e@ == m,
            None => r matches Ok(k) && k@ == argon2id_key(vstd::utf8::encode_utf8(password@), salt@),
        },
{
    let mut key = [0u8;32];
    match argon2::Argon2::default().hash_password_into(password.as_bytes(), salt, &mut key) {
        Ok(()) => Ok(key),
        Err(e) => Err(e.to_string()),
    }
}

/// `std::str::from_utf8`, owned.
///
/// Trusted: per std's documentation the bytes are accepted exactly when
/// they are valid UTF-8, and the text is their decoding.
#[verifier::external_body]
pub(crate) fn utf8_text(data: &[u8]) -> (r: Option<String>)
    ensures
        r is Some <==> vstd::utf8::valid_utf8(data@),
        r matches Some(s) ==> s@ == vstd::utf8::decode_utf8(data@),
{
    match std::str::from_utf8(data) {
        Ok(s) => Some(s.to_string()),
        Err(_) => None,
    }
}

/// `Rng::fill` from the thread-local CSPRNG.
///
/// Trusted: `n` bytes come back; what they are is chance.
#[verifier::external_body]
pub(crate) fn random_bytes(n: usize) -> (r: Vec<u8>)
    ensures
        r@.len() == n,
{
    let mut v = vec![0u8; n];
    rand::rng().fill(&mut v[..]);
    v
}

// ── Hex ───────────────────────────────────────────────────────────

/// The number of bytes of a character in UTF-8.
pub open spec fn utf8_width(c: char) -> nat {
    let u = c as u32;
    if u < 0x80 {
        1
    } else if u < 0x800 {
        2
    } else if u < 0x10000 {
        3
    } else {
        4
    }
}

/// The number of bytes of a text in UTF-8.
pub open spec fn byte_len(s: Seq<char>) -> nat
    decreases s.len(),
{
    if s.len() == 0 {
        0
    } else {
        byte_len(s.drop_last()) + utf8_width(s.last())
    }
}

/// The text without whitespace.
pub open spec fn drop_ws(s: Seq<char>) -> Seq<char>
    decreases s.len(),
{
    if s.len() == 0 {
        Seq::empty()
    } else if is_ws(s.last()) {
        drop_ws(s.drop_last())
    } else {
        drop_ws(s.drop_last()).push(s.last())
    }
}

pub open spec fn hex_val(c: char) -> Option<u8> {
    if '0' <= c && c <= '9' {
        Some((c as u32 - 48) as u8)
    } else if 'a' <= c && c <= 'f' {
        Some((c as u32 - 87) as u8)
    } else if 'A' <= c && c <= 'F' {
        Some((c as u32 - 55) as u8)
    } else {
        None
    }
}

/// `u8::from_str_radix` of two characters in base 16: a leading `+` is a
/// sign.
pub open spec fn pair_val(a: char, b: char) -> Option<u8> {
    if a == '+' {
        hex_val(b)
    } else {
        match (hex_val(a), hex_val(b)) {
            (Some(x), Some(y)) => Some((x * 16 + y) as u8),
            _ => None,
        }
    }
}

/// The bytes of an ASCII text read two characters at a time.
pub open spec fn decode_pairs(s: Seq<char>) -> Option<Seq<u8>>
    decreases s.len(),
{
    if s.len() < 2 {
        Some(Seq::empty())
    } else {
        match (decode_pairs(s.take(s.len() - 2)), pair_val(s[s.len() - 2], s[s.len() - 1])) {
            (Some(v), Some(b)) => Some(v.push(b)),
            _ => None,
        }
    }
}

pub open spec fn all_ascii(s: Seq<char>) -> bool {
    forall|i: int| 0 <= i < s.len() ==> ((#[trigger] s[i]) as u32) < 0x80
}

pub open spec fn odd_length_message() -> Seq<char> {
    "hex string has odd length"@
}

pub open spec fn invalid_digit_message() -> Seq<char> {
    "invalid hex: invalid digit found in string"@
}

/// Hex decoding: whitespace ignored, an odd number of bytes refused, and
/// every pair a hex byte.
pub open spec fn hex_decode_spec(s: Seq<char>) -> Result<Seq<u8>, Seq<char>> {
    let f = drop_ws(s);
    if byte_len(f) % 2 != 0 {
        Err(odd_length_message())
    } else if !all_ascii(f) {
        Err(invalid_digit_message())
    } else {
        match decode_pairs(f) {
            Some(v) => Ok(v),
            None => Err(invalid_digit_message()),
        }
    }
}

fn hex_val_exec(c: char) -> (r: Option<u8>)
    ensures
        r == hex_val(c),
{
    let u = c as u32;
    if '0' <= c && c <= '9' {
        Some((u - 48) as u8)
    } else if 'a' <= c && c <= 'f' {
        Some((u - 87) as u8)
    } else if 'A' <= c && c <= 'F' {
        Some((u - 55) as u8)
    } else {
        None
    }
}

fn pair_val_exec(a: char, b: char) -> (r: Option<u8>)
    ensures
        r == pair_val(a, b),
{
    if a == '+' {
        hex_val_exec(b)
    } else {
        match (hex_val_exec(a), hex_val_exec(b)) {
            (Some(x), Some(y)) => {
                assert(x < 16 && y < 16);
                Some(x * 16 + y)
            },
            _ => None,
        }
    }
}

fn width_is_odd(c: char) -> (r: bool)
    ensures
        r == (utf8_width(c) % 2 == 1),
{
    let u = c as u32;
    u < 0x80 || (0x800 <= u && u < 0x10000)
}

fn drop_ws_vec(s: &[char]) -> (r: Vec<char>)
    ensures
        r@ == drop_ws(s@),
{
    let mut r: Vec<char> = Vec::new();
    let mut i: usize = 0;
    while i < s.len()
        invariant
            i <= s@.len(),
            r@ == drop_ws(s@.take(i as int)),
        decreases s@.len() - i,
    {
        proof {
            assert(s@.take(i + 1).drop_last() == s@.take(i as int));
            assert(s@.take(i + 1).last() == s@[i as int]);
        }
        if !is_whitespace(s[i]) {
            r.push(s[i]);
        }
        i += 1;
    }
    assert(s@.take(s@.len() as int) == s@);
    r
}

/// Decode a hex string to bytes.
pub fn hex_decode(s: &str) -> (r: Result<Vec<u8>, String>)
    ensures
        match hex_decode_spec(s@) {
            Ok(v) => r matches Ok(b) && b@ == v,
            Err(m) => r matches Err(e) && e@ == m,
        },
{
    let f = drop_ws_vec(&chars_of(s));
    let ghost fs = f@;
    let mut odd = false;
    let mut ascii = true;
    let mut i: usize = 0;
    while i < f.len()
        invariant
            i <= f@.len(),
            fs == f@,
            odd == (byte_len(fs.take(i as int)) % 2 == 1),
            ascii == all_ascii(fs.take(i as int)),
        decreases f@.len() - i,
    {
        let c = f[i];
        proof {
            assert(fs.take(i + 1).drop_last() == fs.take(i as int));
            assert(fs.take(i + 1).last() == c);
            assert(fs.take(i + 1)[i as int] == c);
            assert forall|k: int| 0 <= k < i implies fs.take(i + 1)[k] == fs.take(i as int)[k] by {}
        }
        if width_is_odd(c) {
            odd = !odd;
        }
        if (c as u32) >= 0x80 {
            ascii = false;
        }
        i += 1;
    }
    assert(fs.take(fs.len() as int) == fs);
    if odd {
        return Err("hex string has odd length".to_string());
    }
    if !ascii {
        return Err("invalid hex: invalid digit found in string".to_string());
    }
    let mut out: Vec<u8> = Vec::new();
    let mut j: usize = 0;
    proof {
        assert(fs.take(0) =~= Seq::<char>::empty());
        lemma_byte_len_parity(fs);
    }
    while j + 1 < f.len()
        invariant
            j <= f@.len(),
            j % 2 == 0,
            fs == f@,
            fs == drop_ws(s@),
            fs.len() % 2 == 0,
            byte_len(fs) % 2 == 0,
            all_ascii(fs),
            decode_pairs(fs.take(j as int)) == Some(out@),
        decreases f@.len() - j,
    {
        match pair_val_exec(f[j], f[j + 1]) {
            Some(b) => {
                proof {
                    let t = fs.take(j + 2);
                    assert(t.take(t.len() - 2) == fs.take(j as int));
                    assert(t[t.len() - 2] == fs[j as int]);
                    assert(t[t.len() - 1] == fs[j + 1]);
                }
                out.push(b);
            },
            None => {
                proof {
                    lemma_decode_pairs_none(fs, j as int);
                }
                return Err("invalid hex: invalid digit found in string".to_string());
            },
        }
        j += 2;
    }
    assert(j == fs.len());
    assert(fs.take(j as int) == fs);
    Ok(out)
}

/// An ASCII text has as many bytes as characters.
proof fn lemma_byte_len_ascii(s: Seq<char>)
    requires
        all_ascii(s),
    ensures
        byte_len(s) == s.len(),
    decreases s.len(),
{
    if s.len() > 0 {
        assert(all_ascii(s.drop_last()));
        lemma_byte_len_ascii(s.drop_last());
    }
}

proof fn lemma_byte_len_parity(s: Seq<char>)
    requires
        all_ascii(s),
        byte_len(s) % 2 == 0,
    ensures
        s.len() % 2 == 0,
{
    lemma_byte_len_ascii(s);
}

/// An invalid pair makes every longer decoding fail.
proof fn lemma_decode_pairs_none(s: Seq<char>, j: int)
    requires
        0 <= j,
        j + 1 < s.len(),
        j % 2 == 0,
        pair_val(s[j], s[j + 1]) is None,
        s.len() % 2 == 0,
    ensures
        decode_pairs(s) is None,
    decreases s.len(),
{
    if j + 2 < s.len() {
        let t = s.take(s.len() - 2);
        assert(t[j] == s[j] && t[j + 1] == s[j + 1]);
        lemma_decode_pairs_none(t, j);
    } else {
        assert(s[s.len() - 2] == s[j]);
    }
}

/// The hex of some bytes is plain ASCII without whitespace.
pub(crate) proof fn lemma_hex_chars(data: Seq<u8>)
    ensures
        forall|i: int| 0 <= i < hex(data).len() ==> {
            let c = #[trigger] hex(data)[i];
            &&& (('0' <= c && c <= '9') || ('a' <= c && c <= 'f'))
        },
        hex(data).len() == 2 * data.len(),
    decreases data.len(),
{
    if data.len() > 0 {
        lemma_hex_chars(data.drop_last());
        let h = hex(data);
        let p = hex(data.drop_last());
        let b = data.last();
        assert(b / 16 < 16 && b % 16 < 16);
        assert forall|i: int| 0 <= i < h.len() implies {
            let c = #[trigger] h[i];
            &&& (('0' <= c && c <= '9') || ('a' <= c && c <= 'f'))
        } by {
            if i < p.len() {
                assert(h[i] == p[i]);
            } else if i == p.len() {
                assert(h[i] == hex_digit(b / 16));
            } else {
                assert(h[i] == hex_digit(b % 16));
            }
        }
    }
}

proof fn lemma_hex_val_digit(n: u8)
    requires
        n < 16,
    ensures
        hex_val(hex_digit(n)) == Some(n),
        hex_digit(n) != '+',
{
}

/// Hex text decodes back to its bytes.
proof fn lemma_decode_hex(data: Seq<u8>)
    ensures
        decode_pairs(hex(data)) == Some(data),
    decreases data.len(),
{
    lemma_hex_chars(data);
    if data.len() > 0 {
        lemma_decode_hex(data.drop_last());
        lemma_hex_chars(data.drop_last());
        let h = hex(data);
        let b = data.last();
        assert(h.take(h.len() - 2) =~= hex(data.drop_last()));
        lemma_hex_val_digit(b / 16);
        lemma_hex_val_digit(b % 16);
        assert((b / 16) * 16 + b % 16 == b);
        assert(data.drop_last().push(b) =~= data);
    } else {
        assert(hex(data).len() == 0);
    }
}

proof fn lemma_drop_ws_plain(s: Seq<char>)
    requires
        forall|i: int| 0 <= i < s.len() ==> !is_ws(#[trigger] s[i]),
    ensures
        drop_ws(s) == s,
    decreases s.len(),
{
    if s.len() > 0 {
        lemma_drop_ws_plain(s.drop_last());
        assert(s.drop_last().push(s.last()) =~= s);
    }
}

/// Hex text decodes back to its bytes.
pub proof fn lemma_hex_roundtrip(data: Seq<u8>)
    ensures
        hex_decode_spec(hex(data)) == Ok::<Seq<u8>, Seq<char>>(data),
{
    let h = hex(data);
    lemma_hex_chars(data);
    lemma_drop_ws_plain(h);
    assert(all_ascii(h));
    lemma_byte_len_ascii(h);
    lemma_decode_hex(data);
}

// ── Encrypted files ───────────────────────────────────────────────

pub open spec fn header_text() -> Seq<char> {
    "DOTLING-ENC-V2"@
}

/// The text of an encrypted file.
pub open spec fn encrypted_text(nonce: Seq<u8>, sealed: Seq<u8>) -> Seq<char> {
    join_lines(seq![header_text(), hex(nonce), base64_encode(sealed)])
}

/// The bytes of the file that seals `plain` under `key` with `nonce`.
pub open spec fn sealed_file(key: Seq<u8>, nonce: Seq<u8>, plain: Seq<u8>) -> Seq<u8> {
    vstd::utf8::encode_utf8(encrypted_text(nonce, chacha_seal(key, nonce, plain)))
}

fn text_bytes(s: &str) -> (r: Vec<u8>)
    ensures
        r@ == vstd::utf8::encode_utf8(s@),
{
    let b = s.as_bytes();
    let mut v: Vec<u8> = Vec::new();
    let mut i: usize = 0;
    while i < b.len()
        invariant
            i <= b@.len(),
            b@ == vstd::utf8::encode_utf8(s@),
            v@ == b@.take(i as int),
        decreases b@.len() - i,
    {
        v.push(b[i]);
        assert(b@.take(i + 1) == b@.take(i as int).push(b@[i as int]));
        i += 1;
    }
    assert(b@.take(b@.len() as int) == b@);
    v
}

/// The encrypted file of `data` under `key` with a given 12-byte nonce.
pub fn seal_with_nonce(data: &[u8], key: &[u8; 32], nonce: &[u8]) -> (r: Result<Vec<u8>, Error>)
    requires
        nonce@.len() == 12,
    ensures
        sealable(data@.len()) ==> (r matches Ok(out) && out@ == sealed_file(key@, nonce@, data@)
            && all_b64(base64_encode(chacha_seal(key@, nonce@, data@))) ),
        !sealable(data@.len()) ==> (r matches Err(Error::Crypto(m)) && m@
            == "encryption failed: aead::Error"@),
{
    match aead_seal(key, nonce, data) {
        None => Err(Error::Crypto("encryption failed: aead::Error".to_string())),
        Some(ct) => {
            let h = hex_encode(nonce);
            let b = b64_encode(&ct);
            let mut v: Vec<char> = Vec::new();
            push_str(&mut v, "DOTLING-ENC-V2");
            v.push('\n');
            push_str(&mut v, h.as_str());
            v.push('\n');
            push_str(&mut v, b.as_str());
            v.push('\n');
            proof {
                let ls = seq![header_text(), h@, b@];
                let l2 = seq![header_text(), h@];
                assert(ls.drop_last() =~= l2);
                assert(l2.drop_last() =~= seq![header_text()]);
                lemma_join_one(header_text());
                assert(join_lines(l2) == join_lines(seq![header_text()]) + h@ + seq!['\n']);
                assert(join_lines(ls) == join_lines(l2) + b@ + seq!['\n']);
                assert(v@ =~= join_lines(ls));
            }
            let s = string_of(&v);
            let out = text_bytes(s.as_str());
            proof {
                lemma_sealed_file_lines(out@, key@);
            }
            Ok(out)
        },
    }
}

/// Encrypt data with a 32-byte symmetric key and a fresh random nonce.
pub fn encrypt_with_key(data: &[u8], key: &[u8; 32]) -> (r: Result<Vec<u8>, Error>)
    ensures
        sealable(data@.len()) ==> r is Ok,
        r matches Ok(out) ==> exists|n: Seq<u8>|
            n.len() == 12 && out@ == sealed_file(key@, n, data@) && all_b64(
                base64_encode(chacha_seal(key@, n, data@)),
            ),
        !sealable(data@.len()) ==> (r matches Err(Error::Crypto(m)) && m@
            == "encryption failed: aead::Error"@),
{
    let nonce = random_bytes(12);
    seal_with_nonce(data, key, &nonce)
}

pub open spec fn bad_header_message() -> Seq<char> {
    "not a valid dotling encrypted file (expected DOTLING-ENC-V2 header)"@
}

/// Decryption of an encrypted file: refused unless it is UTF-8 text whose
/// first line is the header, with a hex nonce of 12 bytes and a base64
/// payload that opens under the key.
pub open spec fn decrypt_spec(data: Seq<u8>, key: Seq<u8>) -> Result<Seq<u8>, Seq<char>> {
    if !vstd::utf8::valid_utf8(data) {
        Err("invalid UTF-8 in encrypted file"@)
    } else {
        let ls = lines(vstd::utf8::decode_utf8(data));
        if ls.len() < 3 || ls[0] != header_text() {
            Err(bad_header_message())
        } else {
            match hex_decode_spec(ls[1]) {
                Err(e) => Err("invalid nonce: "@ + e),
                Ok(n) => match base64_decode(ls[2]) {
                    Err(e) => Err("invalid payload: "@ + e),
                    Ok(ct) => if n.len() != 12 {
                        Err("expected 12-byte nonce, got "@ + decimal(n.len()))
                    } else {
                        match chacha_open(key, n, ct) {
                            None => Err("decryption failed — wrong key or corrupted data"@),
                            Some(p) => Ok(p),
                        }
                    },
                },
            }
        }
    }
}

/// Decrypt data with a 32-byte symmetric key. What [`seal_with_nonce`]
/// wrote under the same key decrypts back to the data.
pub fn decrypt_with_key(data: &[u8], key: &[u8; 32]) -> (r: Result<Vec<u8>, Error>)
    ensures
        match decrypt_spec(data@, key@) {
            Ok(p) => r matches Ok(v) && v@ == p,
            Err(m) => r matches Err(Error::Crypto(e)) && e@ == m,
        },
        forall|n: Seq<u8>, p: Seq<u8>|
            n.len() == 12 && sealable(p.len()) && all_b64(base64_encode(chacha_seal(key@, n, p)))
                && data@ == #[trigger] sealed_file(key@, n, p) ==> (r matches Ok(v) && v@ == p),
{
    proof {
        lemma_sealed_file_lines(data@, key@);
    }
    let text = match utf8_text(data) {
        None => {
            return Err(Error::Crypto("invalid UTF-8 in encrypted file".to_string()));
        },
        Some(t) => t,
    };
    let ls = lines_vec(&chars_of(text.as_str()));
    let ghost lv = lines(text@);
    if ls.len() < 3 || !same_str(&ls[0], "DOTLING-ENC-V2") {
        proof {
            lemma_sealed_file_lines(data@, key@);
        }
        return Err(
            Error::Crypto(
                "not a valid dotling encrypted file (expected DOTLING-ENC-V2 header)".to_string(),
            ),
        );
    }
    let l1 = string_of(&ls[1]);
    let l2 = string_of(&ls[2]);
    let nonce = match hex_decode(l1.as_str()) {
        Err(e) => {
            proof {
                lemma_sealed_file_lines(data@, key@);
            }
            let mut v: Vec<char> = Vec::new();
            push_str(&mut v, "invalid nonce: ");
            push_str(&mut v, e.as_str());
            return Err(Error::Crypto(string_of(&v)));
        },
        Ok(n) => n,
    };
    let ct = match b64_decode(l2.as_str()) {
        Err(e) => {
            proof {
                lemma_sealed_file_lines(data@, key@);
            }
            let mut v: Vec<char> = Vec::new();
            push_str(&mut v, "invalid payload: ");
            push_str(&mut v, e.as_str());
            return Err(Error::Crypto(string_of(&v)));
        },
        Ok(c) => c,
    };
    if nonce.len() != 12 {
        proof {
            lemma_sealed_file_lines(data@, key@);
        }
        let mut v: Vec<char> = Vec::new();
        push_str(&mut v, "expected 12-byte nonce, got ");
        let d = decimal_vec(nonce.len());
        push_all(&mut v, &d);
        return Err(Error::Crypto(string_of(&v)));
    }
    proof {
        lemma_sealed_file_lines(data@, key@);
    }
    match aead_open(key, &nonce, &ct) {
        None => Err(Error::Crypto("decryption failed — wrong key or corrupted data".to_string())),
        Some(p) => Ok(p),
    }
}

/// The lines of a sealed file: the header, the nonce's hex, the payload.
proof fn lemma_sealed_file_lines(data: Seq<u8>, key: Seq<u8>)
    ensures
        forall|n: Seq<u8>, p: Seq<u8>|
            n.len() == 12 && all_b64(base64_encode(chacha_seal(key, n, p))) && data
                == #[trigger] sealed_file(key, n, p) ==> {
                let t = encrypted_text(n, chacha_seal(key, n, p));
                &&& vstd::utf8::valid_utf8(data)
                &&& vstd::utf8::decode_utf8(data) == t
                &&& lines(t) == seq![header_text(), hex(n), base64_encode(chacha_seal(key, n, p))]
                &&& hex_decode_spec(hex(n)) == Ok::<Seq<u8>, Seq<char>>(n)
            },
{
    assert forall|n: Seq<u8>, p: Seq<u8>|
        n.len() == 12 && all_b64(base64_encode(chacha_seal(key, n, p))) && data
            == #[trigger] sealed_file(key, n, p) implies {
            let t = encrypted_text(n, chacha_seal(key, n, p));
            &&& vstd::utf8::valid_utf8(data)
            &&& vstd::utf8::decode_utf8(data) == t
            &&& lines(t) == seq![header_text(), hex(n), base64_encode(chacha_seal(key, n, p))]
            &&& hex_decode_spec(hex(n)) == Ok::<Seq<u8>, Seq<char>>(n)
        } by {
        let ct = chacha_seal(key, n, p);
        let t = encrypted_text(n, ct);
        vstd::utf8::encode_utf8_valid_utf8(t);
        vstd::utf8::encode_utf8_decode_utf8(t);
        lemma_hex_chars(n);
        lemma_hex_roundtrip(n);
        let ls = seq![header_text(), hex(n), base64_encode(ct)];
        reveal_strlit("DOTLING-ENC-V2");
        assert forall|i: int, k: int| 0 <= i < ls.len() && 0 <= k < ls[i].len() implies ls[i][k]
            != '\n' by {
            if i == 1 {
                assert(hex(n)[k] == ls[i][k]);
            } else if i == 2 {
                assert(base64_encode(ct)[k] == ls[i][k]);
            }
        }
        assert forall|i: int| 0 <= i < ls.len() implies ls[i].len() == 0 || ls[i].last() != '\r' by {
            if i == 1 && ls[i].len() > 0 {
                assert(hex(n)[hex(n).len() - 1] == ls[i].last());
            } else if i == 2 && ls[i].len() > 0 {
                assert(base64_encode(ct)[base64_encode(ct).len() - 1] == ls[i].last());
            }
        }
        lemma_lines_join(ls);
    }
}

/// The header that starts every encrypted file, in bytes.
pub open spec fn header_bytes() -> Seq<u8> {
    vstd::utf8::encode_utf8(header_text())
}

/// Whether data starts with the header and a line break.
pub open spec fn is_encrypted_spec(data: Seq<u8>) -> bool {
    data.len() > header_bytes().len() && data.take(header_bytes().len() as int) == header_bytes()
        && data[header_bytes().len() as int] == 10u8
}

/// Returns `true` if `data` starts with the `DOTLING-ENC-V2` header.
pub fn is_encrypted_content(data: &[u8]) -> (r: bool)
    ensures
        r == is_encrypted_spec(data@),
{
    let h = "DOTLING-ENC-V2".as_bytes();
    if data.len() <= h.len() {
        return false;
    }
    let mut i: usize = 0;
    while i < h.len()
        invariant
            i <= h@.len(),
            h@.len() < data@.len(),
            h@ == header_bytes(),
            forall|k: int| 0 <= k < i ==> data@[k] == h@[k],
        decreases h@.len() - i,
    {
        if data[i] != h[i] {
            assert(data@.take(h@.len() as int)[i as int] != h@[i as int]);
            return false;
        }
        i += 1;
    }
    assert(data@.take(h@.len() as int) =~= h@);
    data[h.len()] == 10u8
}

/// Derive a 32-byte key from a password and salt with Argon2id.
pub fn derive_key(password: &str, salt: &[u8]) -> (r: Result<[u8; 32], Error>)
    ensures
        match argon2_refusal(vstd::utf8::encode_utf8(password@).len(), salt@.len()) {
            Some(m) => r matches Err(Error::Crypto(e)) && e@ == "key derivation failed: "@ + m,
            None => r matches Ok(k) && k@ == argon2id_key(vstd::utf8::encode_utf8(password@), salt@),
        },
{
    match argon2_derive(password, salt) {
        Ok(k) => Ok(k),
        Err(m) => {
            let mut v: Vec<char> = Vec::new();
            push_str(&mut v, "key derivation failed: ");
            push_str(&mut v, m.as_str());
            Err(Error::Crypto(string_of(&v)))
        },
    }
}

} // verus!
