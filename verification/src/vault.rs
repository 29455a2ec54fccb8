//! The secret vault kept at `~/.dotling/vault/`:
//! - `identity.enc` — the 32-byte master secret, encrypted with the user's
//!   password (Argon2id + ChaCha20-Poly1305);
//! - `config.toml` — vault metadata (not secret).
//!
//! A vault can be exported as one encrypted bundle and imported again.
//! Reading and writing the files is the caller's; their formats, checks and
//! messages are here.

use vstd::prelude::*;

use crate::crypto::{
    aead_open, aead_seal, all_b64, argon2id_key, b64_decode, b64_encode, base64_decode,
    base64_encode, chacha_open, chacha_seal, derive_key, hex_decode, hex_decode_spec,
    lemma_hex_roundtrip, random_bytes, sealable,
};
use crate::error::Error;
use crate::fingerprint::{hex, hex_encode};
use crate::path::{join, join_paths};
use crate::text::{
    chars_of, decimal, decimal_u64, decimal_vec, join_lines, lemma_join_one, lemma_lines_join, lines, lines_vec,
    push_all, push_str, same_str, string_of,
};

verus! {

/// The vault directory under a home directory.
pub open spec fn vault_dir_spec(home: Seq<char>) -> Seq<char> {
    join(join(home, ".dotling"@), "vault"@)
}

/// Returns the vault directory path (`~/.dotling/vault/`).
pub fn vault_dir(home: &str) -> (r: String)
    ensures
        r@ == vault_dir_spec(home@),
{
    let d = join_paths(home, ".dotling");
    join_paths(d.as_str(), "vault")
}

pub open spec fn vault_header() -> Seq<char> {
    "DOTLING-VAULT-V1"@
}

/// The text of `identity.enc`.
pub open spec fn identity_text(salt: Seq<u8>, nonce: Seq<u8>, sealed: Seq<u8>) -> Seq<char> {
    join_lines(seq![vault_header(), hex(salt), hex(nonce), base64_encode(sealed)])
}

/// The `identity.enc` that seals `secret` under `password` with a given
/// salt and nonce.
pub open spec fn sealed_identity(password: Seq<char>, salt: Seq<u8>, nonce: Seq<u8>, secret: Seq<u8>) -> Seq<char> {
    identity_text(
        salt,
        nonce,
        chacha_seal(argon2id_key(vstd::utf8::encode_utf8(password), salt), nonce, secret),
    )
}

/// A password Argon2 accepts.
pub open spec fn password_ok(password: Seq<char>) -> bool {
    vstd::utf8::encode_utf8(password).len() <= 0xFFFF_FFFF
}

/// Seal `secret` under `password` with a 32-byte salt and a 12-byte nonce,
/// giving the text of `identity.enc`.
pub fn seal_identity(password: &str, secret: &[u8], salt: &[u8], nonce: &[u8]) -> (r: Result<String, Error>)
    requires
        salt@.len() == 32,
        nonce@.len() == 12,
    ensures
        !password_ok(password@) ==> (r matches Err(Error::Crypto(m)) && m@
            == "key derivation failed: password is too long"@),
        password_ok(password@) && !sealable(secret@.len()) ==> (r matches Err(Error::Vault(m)) && m@
            == "vault encryption failed: aead::Error"@),
        password_ok(password@) && sealable(secret@.len()) ==> (r matches Ok(t) && t@ == sealed_identity(
            password@,
            salt@,
            nonce@,
            secret@,
        ) && all_b64(
            base64_encode(
                chacha_seal(argon2id_key(vstd::utf8::encode_utf8(password@), salt@), nonce@, secret@),
            ),
        )),
{
    let key = match derive_key(password, salt) {
        Ok(k) => k,
        Err(e) => {
            proof {
                reveal_strlit("key derivation failed: ");
                reveal_strlit("password is too long");
                reveal_strlit("key derivation failed: password is too long");
                assert("key derivation failed: "@ + "password is too long"@ =~= "key derivation failed: password is too long"@);
            }
            return Err(e);
        },
    };
    let ct = match aead_seal(&key, nonce, secret) {
        None => {
            return Err(Error::Vault("vault encryption failed: aead::Error".to_string()));
        },
        Some(c) => c,
    };
    let hs = hex_encode(salt);
    let hn = hex_encode(nonce);
    let b = b64_encode(&ct);
    let mut v: Vec<char> = Vec::new();
    push_str(&mut v, "DOTLING-VAULT-V1");
    v.push('\n');
    push_str(&mut v, hs.as_str());
    v.push('\n');
    push_str(&mut v, hn.as_str());
    v.push('\n');
    push_str(&mut v, b.as_str());
    v.push('\n');
    proof {
        let l1 = seq![vault_header()];
        let l2 = l1.push(hs@);
        let l3 = l2.push(hn@);
        let l4 = l3.push(b@);
        assert(l4 == seq![vault_header(), hs@, hn@, b@]);
        assert(l4.drop_last() == l3 && l3.drop_last() == l2 && l2.drop_last() == l1);
        lemma_join_one(vault_header());
        assert(join_lines(l2) == join_lines(l1) + hs@ + seq!['\n']);
        assert(join_lines(l3) == join_lines(l2) + hn@ + seq!['\n']);
        assert(join_lines(l4) == join_lines(l3) + b@ + seq!['\n']);
        assert(v@ =~= join_lines(l4));
        lemma_identity_lines(v@, password@);
        assert(v@ == sealed_identity(password@, salt@, nonce@, secret@));
    }
    Ok(string_of(&v))
}

/// Encrypt `secret` with `password` under a fresh random salt and nonce,
/// giving the text of `identity.enc`.
pub fn write_identity(password: &str, secret: &[u8]) -> (r: Result<String, Error>)
    ensures
        password_ok(password@) && sealable(secret@.len()) ==> r is Ok,
        !password_ok(password@) ==> (r matches Err(Error::Crypto(m)) && m@ == too_long_message()),
        r matches Ok(t) ==> exists|salt: Seq<u8>, nonce: Seq<u8>|
            salt.len() == 32 && nonce.len() == 12 && t@ == sealed_identity(password@, salt, nonce, secret@)
                && all_b64(
                base64_encode(
                    chacha_seal(argon2id_key(vstd::utf8::encode_utf8(password@), salt), nonce, secret@),
                ),
            ),
{
    let salt = random_bytes(32);
    let nonce = random_bytes(12);
    seal_identity(password, secret, &salt, &nonce)
}

/// Why reading a vault file failed.
pub enum Failure {
    /// A vault error with its message.
    Vault(Seq<char>),
    /// A crypto error with its message.
    Crypto(Seq<char>),
}

/// An error of the library and the failure it reports.
pub open spec fn reports(e: Error, f: Failure) -> bool {
    match (e, f) {
        (Error::Vault(a), Failure::Vault(b)) => a@ == b,
        (Error::Crypto(a), Failure::Crypto(b)) => a@ == b,
        _ => false,
    }
}

/// Reading `identity.enc`: refused unless the header, the salt and nonce in
/// hex, and the payload in base64 are there; the salt must be 32 bytes and
/// the nonce 12; then the password must open the payload.
pub open spec fn decrypt_identity_spec(content: Seq<char>, password: Seq<char>) -> Result<Seq<u8>, Failure> {
    let ls = lines(content);
    if ls.len() < 4 || ls[0] != vault_header() {
        Err(Failure::Vault("invalid vault identity format"@))
    } else {
        match hex_decode_spec(ls[1]) {
            Err(e) => Err(Failure::Vault("invalid salt hex: "@ + e)),
            Ok(salt) => match hex_decode_spec(ls[2]) {
                Err(e) => Err(Failure::Vault("invalid nonce hex: "@ + e)),
                Ok(nonce) => match base64_decode(ls[3]) {
                    Err(e) => Err(Failure::Vault("invalid base64 payload: "@ + e)),
                    Ok(ct) => if salt.len() != 32 {
                        Err(Failure::Vault("expected 32-byte salt, got "@ + decimal(salt.len())))
                    } else if nonce.len() != 12 {
                        Err(Failure::Vault("expected 12-byte nonce, got "@ + decimal(nonce.len())))
                    } else if !password_ok(password) {
                        Err(Failure::Crypto("key derivation failed: password is too long"@))
                    } else {
                        match chacha_open(
                            argon2id_key(vstd::utf8::encode_utf8(password), salt),
                            nonce,
                            ct,
                        ) {
                            None => Err(Failure::Vault("incorrect password or corrupted vault"@)),
                            Some(p) => Ok(p),
                        }
                    },
                },
            },
        }
    }
}

fn vault_err(prefix: &str, detail: &str) -> (r: Error)
    ensures
        r matches Error::Vault(m) && m@ == prefix@ + detail@,
{
    let mut v: Vec<char> = Vec::new();
    push_str(&mut v, prefix);
    push_str(&mut v, detail);
    Error::Vault(string_of(&v))
}

fn count_err(prefix: &str, n: usize) -> (r: Error)
    ensures
        r matches Error::Vault(m) && m@ == prefix@ + decimal(n as nat),
{
    let mut v: Vec<char> = Vec::new();
    push_str(&mut v, prefix);
    let d = decimal_vec(n);
    push_all(&mut v, &d);
    Error::Vault(string_of(&v))
}

/// The lines of a sealed identity.
proof fn lemma_identity_lines(content: Seq<char>, password: Seq<char>)
    ensures
        forall|salt: Seq<u8>, nonce: Seq<u8>, secret: Seq<u8>|
            salt.len() == 32 && nonce.len() == 12 && all_b64(
                base64_encode(chacha_seal(argon2id_key(vstd::utf8::encode_utf8(password), salt), nonce, secret)),
            ) && content == #[trigger] sealed_identity(password, salt, nonce, secret) ==> {
                let ct = chacha_seal(argon2id_key(vstd::utf8::encode_utf8(password), salt), nonce, secret);
                &&& lines(content) == seq![vault_header(), hex(salt), hex(nonce), base64_encode(ct)]
                &&& hex_decode_spec(hex(salt)) == Ok::<Seq<u8>, Seq<char>>(salt)
                &&& hex_decode_spec(hex(nonce)) == Ok::<Seq<u8>, Seq<char>>(nonce)
            },
{
    assert forall|salt: Seq<u8>, nonce: Seq<u8>, secret: Seq<u8>|
        salt.len() == 32 && nonce.len() == 12 && all_b64(
            base64_encode(chacha_seal(argon2id_key(vstd::utf8::encode_utf8(password), salt), nonce, secret)),
        ) && content == #[trigger] sealed_identity(password, salt, nonce, secret) implies {
            let ct = chacha_seal(argon2id_key(vstd::utf8::encode_utf8(password), salt), nonce, secret);
            &&& lines(content) == seq![vault_header(), hex(salt), hex(nonce), base64_encode(ct)]
            &&& hex_decode_spec(hex(salt)) == Ok::<Seq<u8>, Seq<char>>(salt)
            &&& hex_decode_spec(hex(nonce)) == Ok::<Seq<u8>, Seq<char>>(nonce)
        } by {
        let ct = chacha_seal(argon2id_key(vstd::utf8::encode_utf8(password), salt), nonce, secret);
        lemma_hex_roundtrip(salt);
        lemma_hex_roundtrip(nonce);
        lemma_hex_plain(salt);
        lemma_hex_plain(nonce);
        reveal_strlit("DOTLING-VAULT-V1");
        let ls = seq![vault_header(), hex(salt), hex(nonce), base64_encode(ct)];
        assert forall|i: int, k: int| 0 <= i < ls.len() && 0 <= k < ls[i].len() implies ls[i][k]
            != '\n' by {
            if i == 1 {
                assert(hex(salt)[k] == ls[i][k]);
            } else if i == 2 {
                assert(hex(nonce)[k] == ls[i][k]);
            } else if i == 3 {
                assert(base64_encode(ct)[k] == ls[i][k]);
            }
        }
        assert forall|i: int| 0 <= i < ls.len() implies ls[i].len() == 0 || ls[i].last() != '\r' by {
            if i == 1 && ls[i].len() > 0 {
                assert(hex(salt)[hex(salt).len() - 1] == ls[i].last());
            } else if i == 2 && ls[i].len() > 0 {
                assert(hex(nonce)[hex(nonce).len() - 1] == ls[i].last());
            } else if i == 3 && ls[i].len() > 0 {
                assert(base64_encode(ct)[base64_encode(ct).len() - 1] == ls[i].last());
            }
        }
        lemma_lines_join(ls);
    }
}

/// Hex text holds only hex digits.
proof fn lemma_hex_plain(data: Seq<u8>)
    ensures
        forall|i: int| 0 <= i < hex(data).len() ==> {
            let c = #[trigger] hex(data)[i];
            ('0' <= c && c <= '9') || ('a' <= c && c <= 'f')
        },
{
    crate::crypto::lemma_hex_chars(data);
}

/// Parse and decrypt an `identity.enc` file. What [`seal_identity`] wrote
/// with the same password reads back as the secret.
pub fn decrypt_identity(content: &str, password: &str) -> (r: Result<Vec<u8>, Error>)
    ensures
        match decrypt_identity_spec(content@, password@) {
            Ok(p) => r matches Ok(v) && v@ == p,
            Err(f) => r matches Err(e) && reports(e, f),
        },
        forall|salt: Seq<u8>, nonce: Seq<u8>, secret: Seq<u8>|
            salt.len() == 32 && nonce.len() == 12 && password_ok(password@) && sealable(secret.len())
                && all_b64(
                base64_encode(chacha_seal(argon2id_key(vstd::utf8::encode_utf8(password@), salt), nonce, secret)),
            ) && content@ == #[trigger] sealed_identity(password@, salt, nonce, secret) ==> (r matches Ok(
                v,
            ) && v@ == secret),
{
    proof {
        lemma_identity_lines(content@, password@);
    }
    let ls = lines_vec(&chars_of(content));
    if ls.len() < 4 || !same_str(&ls[0], "DOTLING-VAULT-V1") {
        return Err(Error::Vault("invalid vault identity format".to_string()));
    }
    let l1 = string_of(&ls[1]);
    let l2 = string_of(&ls[2]);
    let l3 = string_of(&ls[3]);
    let salt = match hex_decode(l1.as_str()) {
        Err(e) => {
            return Err(vault_err("invalid salt hex: ", e.as_str()));
        },
        Ok(s) => s,
    };
    let nonce = match hex_decode(l2.as_str()) {
        Err(e) => {
            return Err(vault_err("invalid nonce hex: ", e.as_str()));
        },
        Ok(n) => n,
    };
    let ct = match b64_decode(l3.as_str()) {
        Err(e) => {
            return Err(vault_err("invalid base64 payload: ", e.as_str()));
        },
        Ok(c) => c,
    };
    if salt.len() != 32 {
        return Err(count_err("expected 32-byte salt, got ", salt.len()));
    }
    if nonce.len() != 12 {
        return Err(count_err("expected 12-byte nonce, got ", nonce.len()));
    }
    let key = match derive_key(password, &salt) {
        Ok(k) => k,
        Err(e) => {
            proof {
                reveal_strlit("key derivation failed: ");
                reveal_strlit("password is too long");
                reveal_strlit("key derivation failed: password is too long");
                assert("key derivation failed: "@ + "password is too long"@ =~= "key derivation failed: password is too long"@);
            }
            return Err(e);
        },
    };
    match aead_open(&key, &nonce, &ct) {
        None => Err(Error::Vault("incorrect password or corrupted vault".to_string())),
        Some(p) => Ok(p),
    }
}

// ── Unlocking and the vault's lifecycle ───────────────────────────

fn key_array(v: &[u8]) -> (r: [u8; 32])
    requires
        v@.len() == 32,
    ensures
        r@ == v@,
{
    let r = [
        v[0], v[1], v[2], v[3], v[4], v[5], v[6], v[7], v[8], v[9], v[10], v[11], v[12], v[13],
        v[14], v[15], v[16], v[17], v[18], v[19], v[20], v[21], v[22], v[23], v[24], v[25], v[26],
        v[27], v[28], v[29], v[30], v[31],
    ];
    assert(r@ =~= v@);
    r
}

pub open spec fn not_initialized_message() -> Seq<char> {
    "vault not initialized — run `dotling vault init` first"@
}

/// Unlock the vault whose `identity.enc` holds `identity` (`None` when the
/// file does not exist) and return the 32-byte secret.
pub fn unlock_vault(identity: Option<&str>, password: &str) -> (r: Result<[u8; 32], Error>)
    ensures
        identity is None ==> (r matches Err(Error::Vault(m)) && m@ == not_initialized_message()),
        identity matches Some(c) ==> match decrypt_identity_spec(c@, password@) {
            Ok(p) => if p.len() == 32 {
                r matches Ok(k) && k@ == p
            } else {
                r matches Err(Error::Vault(m)) && m@ == "corrupted vault secret length"@
            },
            Err(f) => r matches Err(e) && reports(e, f),
        },
        forall|salt: Seq<u8>, nonce: Seq<u8>, secret: Seq<u8>|
            salt.len() == 32 && nonce.len() == 12 && secret.len() == 32 && password_ok(password@)
                && all_b64(
                base64_encode(chacha_seal(argon2id_key(vstd::utf8::encode_utf8(password@), salt), nonce, secret)),
            ) && (identity matches Some(c) && c@ == #[trigger] sealed_identity(password@, salt, nonce, secret))
                ==> (r matches Ok(k) && k@ == secret),
{
    let content = match identity {
        None => {
            return Err(
                Error::Vault("vault not initialized — run `dotling vault init` first".to_string()),
            );
        },
        Some(c) => c,
    };
    let secret = match decrypt_identity(content, password) {
        Ok(s) => s,
        Err(e) => {
            return Err(e);
        },
    };
    if secret.len() != 32 {
        return Err(Error::Vault("corrupted vault secret length".to_string()));
    }
    Ok(key_array(&secret))
}

pub open spec fn vault_exists_message() -> Seq<char> {
    "vault already exists — use change_password to update"@
}

/// Initialize a new vault: a random 32-byte secret sealed with `password`;
/// returns the text of `identity.enc`. Refused when one already exists.
pub fn init_vault(identity_exists: bool, password: &str) -> (r: Result<String, Error>)
    ensures
        identity_exists ==> (r matches Err(Error::Vault(m)) && m@ == vault_exists_message()),
        !identity_exists && password_ok(password@) ==> r is Ok,
        r matches Ok(t) ==> exists|salt: Seq<u8>, nonce: Seq<u8>, secret: Seq<u8>|
            salt.len() == 32 && nonce.len() == 12 && secret.len() == 32 && t@ == sealed_identity(
                password@,
                salt,
                nonce,
                secret,
            ) && all_b64(
                base64_encode(
                    chacha_seal(argon2id_key(vstd::utf8::encode_utf8(password@), salt), nonce, secret),
                ),
            ),
{
    if identity_exists {
        return Err(Error::Vault("vault already exists — use change_password to update".to_string()));
    }
    let secret = random_bytes(32);
    write_identity(password, &secret)
}

/// `t` seals, under `new`, the secret that `old` opens in `content`.
pub open spec fn resealed(content: Seq<char>, old: Seq<char>, new: Seq<char>, t: Seq<char>) -> bool {
    match decrypt_identity_spec(content, old) {
        Ok(p) => exists|salt: Seq<u8>, nonce: Seq<u8>|
            salt.len() == 32 && nonce.len() == 12 && t == sealed_identity(new, salt, nonce, p)
                && all_b64(
                base64_encode(chacha_seal(argon2id_key(vstd::utf8::encode_utf8(new), salt), nonce, p)),
            ),
        Err(_) => false,
    }
}

/// The error of a password that Argon2 refuses.
pub open spec fn too_long_message() -> Seq<char> {
    "key derivation failed: password is too long"@
}

/// Change the vault password: the secret unlocked with the old password is
/// sealed again with the new one. Refused without an identity, when the old
/// password does not open it, when the secret is not 32 bytes, or when the
/// new password is too long for Argon2.
pub fn change_password(identity: Option<&str>, old_password: &str, new_password: &str) -> (r: Result<String, Error>)
    ensures
        r matches Ok(t) ==> (identity matches Some(c) && resealed(c@, old_password@, new_password@, t@)),
        identity is None ==> (r matches Err(Error::Vault(m)) && m@ == not_initialized_message()),
        identity matches Some(c) ==> match decrypt_identity_spec(c@, old_password@) {
            Err(f) => r matches Err(e) && reports(e, f),
            Ok(p) => if p.len() != 32 {
                r matches Err(Error::Vault(m)) && m@ == "corrupted vault secret length"@
            } else if !password_ok(new_password@) {
                r matches Err(Error::Crypto(m)) && m@ == too_long_message()
            } else {
                r is Ok
            },
        },
{
    let secret = match unlock_vault(identity, old_password) {
        Ok(k) => k,
        Err(e) => {
            return Err(e);
        },
    };
    write_identity(new_password, &secret)
}

// ── Bundles ───────────────────────────────────────────────────────

pub open spec fn bundle_magic() -> Seq<u8> {
    seq![68u8, 79u8, 84u8, 76u8, 86u8, 65u8, 85u8, 76u8]
}

/// Big-endian bytes of a `u32`.
pub open spec fn be32(n: u32) -> Seq<u8> {
    seq![(n >> 24u32) as u8, (n >> 16u32) as u8, (n >> 8u32) as u8, n as u8]
}

pub open spec fn from_be32(b0: u8, b1: u8, b2: u8, b3: u8) -> u32 {
    ((b0 as u32) << 24u32) | ((b1 as u32) << 16u32) | ((b2 as u32) << 8u32) | (b3 as u32)
}

proof fn lemma_be32(n: u32)
    ensures
        from_be32(be32(n)[0], be32(n)[1], be32(n)[2], be32(n)[3]) == n,
{
    let b0 = (n >> 24u32) as u8;
    let b1 = (n >> 16u32) as u8;
    let b2 = (n >> 8u32) as u8;
    let b3 = n as u8;
    assert(((b0 as u32) << 24u32) | ((b1 as u32) << 16u32) | ((b2 as u32) << 8u32) | (b3 as u32)
        == n) by (bit_vector)
        requires
            b0 == (n >> 24u32) as u8,
            b1 == (n >> 16u32) as u8,
            b2 == (n >> 8u32) as u8,
            b3 == n as u8,
    ;
}

/// The plaintext of a bundle: the config's length, the config, the identity.
pub open spec fn bundle_payload(config: Seq<u8>, identity: Seq<u8>) -> Seq<u8> {
    be32(config.len() as u32) + config + identity
}

/// The bundle of a vault: magic, version 1, salt, nonce, then the sealed
/// payload.
pub open spec fn bundle_blob(
    password: Seq<char>,
    salt: Seq<u8>,
    nonce: Seq<u8>,
    config: Seq<u8>,
    identity: Seq<u8>,
) -> Seq<u8> {
    bundle_magic() + seq![1u8] + salt + nonce + chacha_seal(
        argon2id_key(vstd::utf8::encode_utf8(password), salt),
        nonce,
        bundle_payload(config, identity),
    )
}

/// The sealed payload of a bundle carries its 16-byte tag.
pub open spec fn tagged(password: Seq<char>, salt: Seq<u8>, nonce: Seq<u8>, config: Seq<u8>, identity: Seq<u8>) -> bool {
    chacha_seal(argon2id_key(vstd::utf8::encode_utf8(password), salt), nonce, bundle_payload(config, identity)).len()
        == bundle_payload(config, identity).len() + 16
}

fn push_bytes(out: &mut Vec<u8>, b: &[u8])
    ensures
        final(out)@ == old(out)@ + b@,
{
    let mut i: usize = 0;
    let ghost o0 = out@;
    while i < b.len()
        invariant
            i <= b@.len(),
            out@ == o0 + b@.take(i as int),
        decreases b@.len() - i,
    {
        out.push(b[i]);
        assert(b@.take(i + 1) == b@.take(i as int).push(b@[i as int]));
        i += 1;
    }
    assert(b@.take(b@.len() as int) == b@);
}

/// The encrypted bundle of a vault's config and identity, under a 32-byte
/// salt and a 12-byte nonce.
pub fn build_bundle(password: &str, config: &[u8], identity: &[u8], salt: &[u8], nonce: &[u8]) -> (r: Result<Vec<u8>, Error>)
    requires
        salt@.len() == 32,
        nonce@.len() == 12,
    ensures
        config@.len() > 0xFFFF_FFFF ==> (r matches Err(Error::Vault(m)) && m@ == "config.toml too large"@),
        config@.len() <= 0xFFFF_FFFF && !password_ok(password@) ==> (r matches Err(Error::Crypto(m))
            && m@ == "key derivation failed: password is too long"@),
        config@.len() <= 0xFFFF_FFFF && password_ok(password@) && !sealable(
            bundle_payload(config@, identity@).len(),
        ) ==> (r matches Err(Error::Vault(m)) && m@ == "bundle encryption failed: aead::Error"@),
        config@.len() <= 0xFFFF_FFFF && password_ok(password@) && sealable(
            bundle_payload(config@, identity@).len(),
        ) ==> (r matches Ok(b) && b@ == bundle_blob(password@, salt@, nonce@, config@, identity@)
            && tagged(password@, salt@, nonce@, config@, identity@)),
{
    if config.len() > 0xFFFF_FFFF {
        return Err(Error::Vault("config.toml too large".to_string()));
    }
    let n = config.len() as u32;
    let mut payload: Vec<u8> = Vec::new();
    payload.push((n >> 24u32) as u8);
    payload.push((n >> 16u32) as u8);
    payload.push((n >> 8u32) as u8);
    payload.push(n as u8);
    assert(payload@ =~= be32(n));
    push_bytes(&mut payload, config);
    push_bytes(&mut payload, identity);
    assert(payload@ =~= bundle_payload(config@, identity@));
    let key = match derive_key(password, salt) {
        Ok(k) => k,
        Err(e) => {
            proof {
                reveal_strlit("key derivation failed: ");
                reveal_strlit("password is too long");
                reveal_strlit("key derivation failed: password is too long");
                assert("key derivation failed: "@ + "password is too long"@
                    =~= "key derivation failed: password is too long"@);
            }
            return Err(e);
        },
    };
    let ct = match aead_seal(&key, nonce, &payload) {
        None => {
            return Err(Error::Vault("bundle encryption failed: aead::Error".to_string()));
        },
        Some(c) => c,
    };
    let mut blob: Vec<u8> = Vec::new();
    let magic: [u8; 8] = [68u8, 79u8, 84u8, 76u8, 86u8, 65u8, 85u8, 76u8];
    push_bytes(&mut blob, &magic);
    assert(magic@ =~= bundle_magic());
    blob.push(1u8);
    push_bytes(&mut blob, salt);
    push_bytes(&mut blob, nonce);
    push_bytes(&mut blob, &ct);
    assert(blob@ =~= bundle_blob(password@, salt@, nonce@, config@, identity@));
    Ok(blob)
}

/// The encrypted bundle of a vault under a fresh random salt and nonce.
pub fn write_bundle(password: &str, config: &[u8], identity: &[u8]) -> (r: Result<Vec<u8>, Error>)
    ensures
        config@.len() <= 0xFFFF_FFFF && password_ok(password@) && sealable(
            bundle_payload(config@, identity@).len(),
        ) ==> r is Ok,
        r matches Ok(b) ==> exists|salt: Seq<u8>, nonce: Seq<u8>|
            salt.len() == 32 && nonce.len() == 12 && b@ == bundle_blob(password@, salt, nonce, config@, identity@)
                && tagged(password@, salt, nonce, config@, identity@),
{
    let salt = random_bytes(32);
    let nonce = random_bytes(12);
    build_bundle(password, config, identity, &salt, &nonce)
}

/// Reading a bundle: refused when too small, with the wrong magic or
/// version, or when the password does not open it; the payload splits into
/// the config and the identity.
pub open spec fn read_bundle_spec(blob: Seq<u8>, password: Seq<char>) -> Result<(Seq<u8>, Seq<u8>), Failure> {
    if blob.len() < 73 {
        Err(Failure::Vault(
            "bundle too small ("@ + decimal(blob.len()) + " bytes, expected at least 73)"@,
        ))
    } else if blob.take(8) != bundle_magic() {
        Err(Failure::Vault("invalid bundle format (bad magic bytes)"@))
    } else if blob[8] != 1u8 {
        Err(Failure::Vault("unsupported bundle version: "@ + decimal(blob[8] as nat)))
    } else if !password_ok(password) {
        Err(Failure::Crypto("key derivation failed: password is too long"@))
    } else {
        let salt = blob.subrange(9, 41);
        let nonce = blob.subrange(41, 53);
        let ct = blob.skip(53);
        match chacha_open(argon2id_key(vstd::utf8::encode_utf8(password), salt), nonce, ct) {
            None => Err(Failure::Vault("incorrect password or corrupted bundle"@)),
            Some(p) => if p.len() < 4 {
                Err(Failure::Vault("bundle payload too short"@))
            } else {
                let n = from_be32(p[0], p[1], p[2], p[3]);
                if n > p.len() - 4 {
                    Err(Failure::Vault("bundle payload truncated"@))
                } else {
                    Ok((p.subrange(4, 4 + n as int), p.skip(4 + n as int)))
                }
            },
        }
    }
}

fn copy_range(b: &[u8], from: usize, to: usize) -> (r: Vec<u8>)
    requires
        from <= to <= b@.len(),
    ensures
        r@ == b@.subrange(from as int, to as int),
{
    let mut v: Vec<u8> = Vec::new();
    let mut i = from;
    while i < to
        invariant
            from <= i <= to <= b@.len(),
            v@ == b@.subrange(from as int, i as int),
        decreases to - i,
    {
        v.push(b[i]);
        assert(b@.subrange(from as int, i + 1) == b@.subrange(from as int, i as int).push(b@[i as int]));
        i += 1;
    }
    v
}

/// Read and decrypt a vault bundle, giving `(config, identity)`. What
/// [`build_bundle`] wrote with the same password reads back as what it
/// bundled.
pub fn read_bundle(blob: &[u8], password: &str) -> (r: Result<(Vec<u8>, Vec<u8>), Error>)
    ensures
        match read_bundle_spec(blob@, password@) {
            Ok((c, i)) => r matches Ok((rc, ri)) && rc@ == c && ri@ == i,
            Err(f) => r matches Err(e) && reports(e, f),
        },
        forall|salt: Seq<u8>, nonce: Seq<u8>, config: Seq<u8>, identity: Seq<u8>|
            salt.len() == 32 && nonce.len() == 12 && config.len() <= 0xFFFF_FFFF && password_ok(
                password@,
            ) && sealable(bundle_payload(config, identity).len()) && tagged(
                password@,
                salt,
                nonce,
                config,
                identity,
            ) && blob@ == #[trigger] bundle_blob(
                password@,
                salt,
                nonce,
                config,
                identity,
            ) ==> (r matches Ok((rc, ri)) && rc@ == config && ri@ == identity),
{
    proof {
        lemma_bundle_parts(blob@, password@);
    }
    if blob.len() < 73 {
        let mut v: Vec<char> = Vec::new();
        push_str(&mut v, "bundle too small (");
        let d = decimal_vec(blob.len());
        push_all(&mut v, &d);
        push_str(&mut v, " bytes, expected at least 73)");
        return Err(Error::Vault(string_of(&v)));
    }
    let magic: [u8; 8] = [68u8, 79u8, 84u8, 76u8, 86u8, 65u8, 85u8, 76u8];
    let mut k: usize = 0;
    while k < 8
        invariant
            k <= 8,
            blob@.len() >= 73,
            magic@ == bundle_magic(),
            forall|j: int| 0 <= j < k ==> blob@[j] == magic@[j],
        decreases 8 - k,
    {
        if blob[k] != magic[k] {
            assert(blob@.take(8)[k as int] != bundle_magic()[k as int]);
            return Err(Error::Vault("invalid bundle format (bad magic bytes)".to_string()));
        }
        k += 1;
    }
    assert(blob@.take(8) =~= bundle_magic());
    if blob[8] != 1u8 {
        let mut v: Vec<char> = Vec::new();
        push_str(&mut v, "unsupported bundle version: ");
        let d = decimal_vec(blob[8] as usize);
        push_all(&mut v, &d);
        return Err(Error::Vault(string_of(&v)));
    }
    let salt = copy_range(blob, 9, 41);
    let nonce = copy_range(blob, 41, 53);
    let ct = copy_range(blob, 53, blob.len());
    assert(ct@ =~= blob@.skip(53));
    let key = match derive_key(password, &salt) {
        Ok(k) => k,
        Err(e) => {
            proof {
                reveal_strlit("key derivation failed: ");
                reveal_strlit("password is too long");
                reveal_strlit("key derivation failed: password is too long");
                assert("key derivation failed: "@ + "password is too long"@
                    =~= "key derivation failed: password is too long"@);
            }
            return Err(e);
        },
    };
    let p = match aead_open(&key, &nonce, &ct) {
        None => {
            return Err(Error::Vault("incorrect password or corrupted bundle".to_string()));
        },
        Some(p) => p,
    };
    if p.len() < 4 {
        return Err(Error::Vault("bundle payload too short".to_string()));
    }
    let n: u32 = ((p[0] as u32) << 24u32) | ((p[1] as u32) << 16u32) | ((p[2] as u32) << 8u32) | (
    p[3] as u32);
    let nl = n as usize;
    if nl > p.len() - 4 {
        return Err(Error::Vault("bundle payload truncated".to_string()));
    }
    let config = copy_range(&p, 4, 4 + nl);
    let identity = copy_range(&p, 4 + nl, p.len());
    assert(identity@ =~= p@.skip(4 + nl));
    Ok((config, identity))
}

/// The parts of a bundle that [`build_bundle`] wrote.
proof fn lemma_bundle_parts(blob: Seq<u8>, password: Seq<char>)
    ensures
        forall|salt: Seq<u8>, nonce: Seq<u8>, config: Seq<u8>, identity: Seq<u8>|
            salt.len() == 32 && nonce.len() == 12 && config.len() <= 0xFFFF_FFFF && tagged(
                password,
                salt,
                nonce,
                config,
                identity,
            ) && blob == #[trigger] bundle_blob(password, salt, nonce, config, identity) ==> {
                let p = bundle_payload(config, identity);
                &&& blob.len() >= 73
                &&& blob.take(8) == bundle_magic()
                &&& blob[8] == 1u8
                &&& blob.subrange(9, 41) == salt
                &&& blob.subrange(41, 53) == nonce
                &&& blob.skip(53) == chacha_seal(argon2id_key(vstd::utf8::encode_utf8(password), salt), nonce, p)
                &&& p.len() >= 4
                &&& from_be32(p[0], p[1], p[2], p[3]) == config.len()
                &&& p.subrange(4, 4 + config.len() as int) == config
                &&& p.skip(4 + config.len() as int) == identity
            },
{
    assert forall|salt: Seq<u8>, nonce: Seq<u8>, config: Seq<u8>, identity: Seq<u8>|
        salt.len() == 32 && nonce.len() == 12 && config.len() <= 0xFFFF_FFFF && tagged(
            password,
            salt,
            nonce,
            config,
            identity,
        ) && blob == #[trigger] bundle_blob(password, salt, nonce, config, identity) implies {
            let p = bundle_payload(config, identity);
            &&& blob.len() >= 73
            &&& blob.take(8) == bundle_magic()
            &&& blob[8] == 1u8
            &&& blob.subrange(9, 41) == salt
            &&& blob.subrange(41, 53) == nonce
            &&& blob.skip(53) == chacha_seal(argon2id_key(vstd::utf8::encode_utf8(password), salt), nonce, p)
            &&& p.len() >= 4
            &&& from_be32(p[0], p[1], p[2], p[3]) == config.len()
            &&& p.subrange(4, 4 + config.len() as int) == config
            &&& p.skip(4 + config.len() as int) == identity
        } by {
        let p = bundle_payload(config, identity);
        let n = config.len() as u32;
        lemma_be32(n);
        assert(blob.take(8) =~= bundle_magic());
        assert(blob.subrange(9, 41) =~= salt);
        assert(blob.subrange(41, 53) =~= nonce);
        assert(blob.skip(53) =~= chacha_seal(argon2id_key(vstd::utf8::encode_utf8(password), salt), nonce, p));
        assert(p[0] == be32(n)[0] && p[1] == be32(n)[1] && p[2] == be32(n)[2] && p[3] == be32(n)[3]);
        assert(p.subrange(4, 4 + config.len() as int) =~= config);
        assert(p.skip(4 + config.len() as int) =~= identity);
    }
}

/// Check that an imported identity is UTF-8 text that the password opens.
pub fn check_imported_identity(identity: &[u8], password: &str) -> (r: Result<(), Error>)
    ensures
        !vstd::utf8::valid_utf8(identity@) ==> (r matches Err(Error::Vault(m)) && m@
            == "corrupted identity content in bundle"@),
        vstd::utf8::valid_utf8(identity@) ==> match decrypt_identity_spec(vstd::utf8::decode_utf8(identity@), password@) {
            Ok(_) => r is Ok,
            Err(f) => r matches Err(e) && reports(e, f),
        },
{
    let text = match crate::crypto::utf8_text(identity) {
        None => {
            return Err(Error::Vault("corrupted identity content in bundle".to_string()));
        },
        Some(t) => t,
    };
    match decrypt_identity(text.as_str(), password) {
        Ok(_) => Ok(()),
        Err(e) => Err(e),
    }
}

// ── Metadata ──────────────────────────────────────────────────────

/// Days since the Unix epoch as a civil (year, month, day), by the
/// era-based conversion.
pub open spec fn civil_from_days(days: int) -> (int, int, int) {
    let z = days + 719_468;
    let era = z / 146_097;
    let doe = z % 146_097;
    let yoe = (doe - doe / 1460 + doe / 36524 - doe / 146_096) / 365;
    let y = yoe + era * 400;
    let doy = doe - (365 * yoe + yoe / 4 - yoe / 100);
    let mp = (5 * doy + 2) / 153;
    let d = doy - (153 * mp + 2) / 5 + 1;
    let m = if mp < 10 {
        mp + 3
    } else {
        mp - 9
    };
    let y2 = if m <= 2 {
        y + 1
    } else {
        y
    };
    (y2, m, d)
}

/// Convert days since Unix epoch to (year, month, day).
#[verifier::spinoff_prover]
#[verifier::rlimit(50)]
pub fn days_to_ymd(days: u64) -> (r: (u64, u64, u64))
    ensures
        r == ({
            let c = civil_from_days(days as int);
            (c.0 as u64, c.1 as u64, c.2 as u64)
        }),
{
    let z: i128 = days as i128 + 719_468;
    let era: i128 = z / 146_097;
    let doe: i128 = z % 146_097;
    let yoe: i128 = (doe - doe / 1460 + doe / 36524 - doe / 146_096) / 365;
    let y: i128 = yoe + era * 400;
    let doy: i128 = doe - (365 * yoe + yoe / 4 - yoe / 100);
    let mp: i128 = (5 * doy + 2) / 153;
    let d: i128 = doy - (153 * mp + 2) / 5 + 1;
    let m: i128 = if mp < 10 {
        mp + 3
    } else {
        mp - 9
    };
    let y2: i128 = if m <= 2 {
        y + 1
    } else {
        y
    };
    (y2 as u64, m as u64, d as u64)
}

/// A number in decimal, padded with zeros to `w` digits.
pub open spec fn padded(n: nat, w: nat) -> Seq<char> {
    let d = decimal(n);
    if d.len() < w {
        Seq::new((w - d.len()) as nat, |i: int| '0') + d
    } else {
        d
    }
}

fn padded_vec(n: u64, w: usize) -> (r: Vec<char>)
    ensures
        r@ == padded(n as nat, w as nat),
{
    let d = decimal_u64(n);
    let mut v: Vec<char> = Vec::new();
    if d.len() < w {
        let k = w - d.len();
        let mut i: usize = 0;
        while i < k
            invariant
                i <= k,
                v@ == Seq::new(i as nat, |j: int| '0'),
            decreases k - i,
        {
            v.push('0');
            assert(v@ =~= Seq::new((i + 1) as nat, |j: int| '0'));
            i += 1;
        }
    }
    let ghost v0 = v@;
    push_all(&mut v, &d);
    assert(d@ == decimal(n as nat));
    proof {
        if d@.len() < w as nat {
            assert(v0 =~= Seq::new((w - d@.len()) as nat, |j: int| '0'));
        } else {
            assert(v0.len() == 0);
        }
    }
    assert(v@ =~= padded(n as nat, w as nat));
    v
}

/// A UTC timestamp, `YYYY-MM-DDTHH:MM:SSZ`, of seconds since the epoch.
pub open spec fn timestamp_spec(secs: u64) -> Seq<char> {
    let c = civil_from_days((secs / 86400) as int);
    let tod = secs % 86400;
    padded((c.0 as u64) as nat, 4) + "-"@ + padded((c.1 as u64) as nat, 2) + "-"@ + padded(
        (c.2 as u64) as nat,
        2,
    ) + "T"@ + padded((tod / 3600) as nat, 2) + ":"@ + padded(((tod % 3600) / 60) as nat, 2) + ":"@
        + padded((tod % 60) as nat, 2) + "Z"@
}

/// The UTC timestamp of `secs` seconds since the epoch.
pub fn timestamp(secs: u64) -> (r: String)
    ensures
        r@ == timestamp_spec(secs),
{
    let days = secs / 86400;
    let tod = secs % 86400;
    let (year, month, day) = days_to_ymd(days);
    let mut v: Vec<char> = Vec::new();
    push_all(&mut v, &padded_vec(year, 4));
    push_str(&mut v, "-");
    push_all(&mut v, &padded_vec(month, 2));
    push_str(&mut v, "-");
    push_all(&mut v, &padded_vec(day, 2));
    push_str(&mut v, "T");
    push_all(&mut v, &padded_vec(tod / 3600, 2));
    push_str(&mut v, ":");
    push_all(&mut v, &padded_vec((tod % 3600) / 60, 2));
    push_str(&mut v, ":");
    push_all(&mut v, &padded_vec(tod % 60, 2));
    push_str(&mut v, "Z");
    string_of(&v)
}

/// The text of the vault's `config.toml`, created at `now`.
pub open spec fn vault_config_spec(now: Seq<char>) -> Seq<char> {
    "[vault]\nversion = 1\ncreated = \""@ + now + "\"\n"@
}

pub fn vault_config_text(now: &str) -> (r: String)
    ensures
        r@ == vault_config_spec(now@),
{
    let mut v: Vec<char> = Vec::new();
    push_str(&mut v, "[vault]\nversion = 1\ncreated = \"");
    push_str(&mut v, now);
    push_str(&mut v, "\"\n");
    string_of(&v)
}



} // verus!
