//! The `dotling vault` subcommands: the checks on what the user typed, the
//! vault files to write and the messages to show.
//!
//! The caller reads the files, asks for the passwords, writes what comes
//! back and shows the messages.

use vstd::prelude::*;

use crate::error::Error;
use crate::text::{push_str, str_eq, string_of};
use crate::ui::{notice, notices_view, Notice, NoticeKind};
use crate::vault::{
    bundle_blob, change_password, decrypt_identity_spec, init_vault,
    not_initialized_message, password_ok, vault_exists_message, read_bundle, read_bundle_spec, reports, resealed,
    sealed_identity, too_long_message, unlock_vault, vault_config_spec, vault_config_text, write_bundle,
    bundle_payload,
};
use crate::crypto::sealable;

verus! {

pub open spec fn empty_password_message() -> Seq<char> {
    "password cannot be empty"@
}

pub open spec fn mismatch_message() -> Seq<char> {
    "passwords do not match"@
}

pub open spec fn no_vault_message() -> Seq<char> {
    "no vault found — run `dotling vault init` first"@
}

/// A new password may not be empty.
pub fn password_not_empty(password: &str) -> (r: Result<(), Error>)
    ensures
        password@.len() == 0 ==> (r matches Err(Error::User(m)) && m@ == empty_password_message()),
        password@.len() > 0 ==> r is Ok,
{
    if str_eq(password, "") {
        proof {
            reveal_strlit("");
        }
        return Err(Error::User("password cannot be empty".to_string()));
    }
    proof {
        reveal_strlit("");
        if password@.len() == 0 {
            assert(password@ =~= ""@);
        }
    }
    Ok(())
}

/// A new password must be typed the same way twice.
pub fn passwords_match(password: &str, confirm: &str) -> (r: Result<(), Error>)
    ensures
        password@ == confirm@ ==> r is Ok,
        password@ != confirm@ ==> (r matches Err(Error::User(m)) && m@ == mismatch_message()),
{
    if str_eq(password, confirm) {
        Ok(())
    } else {
        Err(Error::User("passwords do not match".to_string()))
    }
}

/// The two files of a vault: `identity.enc` and `config.toml`.
#[derive(Debug, Clone)]
pub struct VaultFiles {
    pub identity: String,
    pub config: String,
}

/// What `vault init` did: the files to write, if any, and the messages.
#[derive(Debug, Clone)]
pub struct InitOutcome {
    pub files: Option<VaultFiles>,
    pub notices: Vec<Notice>,
}

/// `t` is an `identity.enc` sealing some 32-byte secret under `password`.
pub open spec fn fresh_identity(password: Seq<char>, t: Seq<char>) -> bool {
    exists|salt: Seq<u8>, nonce: Seq<u8>, secret: Seq<u8>|
        salt.len() == 32 && nonce.len() == 12 && secret.len() == 32 && t == sealed_identity(
            password,
            salt,
            nonce,
            secret,
        )
}

pub open spec fn init_exists_notices() -> Seq<(NoticeKind, Seq<char>)> {
    seq![
        (NoticeKind::Warning, "vault already exists"@),
        (NoticeKind::Hint, "use `dotling vault show` to view status"@),
    ]
}

pub open spec fn init_done_notices() -> Seq<(NoticeKind, Seq<char>)> {
    seq![
        (NoticeKind::Success, "vault created"@),
        (NoticeKind::Hint, "your encrypted entries are protected by this password"@),
        (NoticeKind::Hint, "use `dotling vault export <path>` to create a backup for new machines"@),
    ]
}

/// `dotling vault init`: nothing when a vault exists (`present`: both of
/// its files); otherwise the password must be non-empty and confirmed, and a
/// new vault is made, its config stamped with `now` — refused when an
/// `identity.enc` is there on its own (`identity_present`).
pub fn run_init(present: bool, identity_present: bool, password: &str, confirm: &str, now: &str) -> (r: Result<
    InitOutcome,
    Error,
>)
    ensures
        present ==> (r matches Ok(o) && o.files is None && notices_view(o.notices@)
            == init_exists_notices()),
        !present && password@.len() == 0 ==> (r matches Err(Error::User(m)) && m@
            == empty_password_message()),
        !present && password@.len() > 0 && password@ != confirm@ ==> (r matches Err(Error::User(m))
            && m@ == mismatch_message()),
        !present && password@.len() > 0 && password@ == confirm@ && identity_present ==> (r matches Err(
            Error::Vault(m),
        ) && m@ == vault_exists_message()),
        !present && password@.len() > 0 && password@ == confirm@ && !identity_present && password_ok(
            password@,
        ) ==> r is Ok,
        !present ==> (r matches Ok(o) ==> (o.files matches Some(f) && f.config@ == vault_config_spec(now@)
            && fresh_identity(password@, f.identity@) && notices_view(o.notices@)
            == init_done_notices())),
{
    if present {
        let notices = vec![
            notice(NoticeKind::Warning, "vault already exists"),
            notice(NoticeKind::Hint, "use `dotling vault show` to view status"),
        ];
        assert(notices_view(notices@) =~= init_exists_notices());
        return Ok(InitOutcome { files: None, notices });
    }
    match password_not_empty(password) {
        Ok(()) => {},
        Err(e) => {
            return Err(e);
        },
    }
    match passwords_match(password, confirm) {
        Ok(()) => {},
        Err(e) => {
            return Err(e);
        },
    }
    let identity = match init_vault(identity_present, password) {
        Ok(t) => t,
        Err(e) => {
            return Err(e);
        },
    };
    let config = vault_config_text(now);
    let notices = vec![
        notice(NoticeKind::Success, "vault created"),
        notice(NoticeKind::Hint, "your encrypted entries are protected by this password"),
        notice(NoticeKind::Hint, "use `dotling vault export <path>` to create a backup for new machines"),
    ];
    assert(notices_view(notices@) =~= init_done_notices());
    Ok(InitOutcome { files: Some(VaultFiles { identity, config }), notices })
}

pub open spec fn show_notices(present: bool, vault_dir: Seq<char>) -> Seq<(NoticeKind, Seq<char>)> {
    if present {
        seq![
            (NoticeKind::Header, "Vault"@),
            (NoticeKind::Info, "location: "@ + vault_dir),
            (NoticeKind::Info, "status: initialized ✓"@),
        ]
    } else {
        seq![
            (NoticeKind::Info, "no vault found"@),
            (NoticeKind::Hint, "run `dotling vault init` to create one"@),
        ]
    }
}

/// `dotling vault show`: where the vault is, or how to make one.
pub fn run_show(present: bool, vault_dir: &str) -> (r: Vec<Notice>)
    ensures
        notices_view(r@) == show_notices(present, vault_dir@),
{
    if !present {
        let notices = vec![
            notice(NoticeKind::Info, "no vault found"),
            notice(NoticeKind::Hint, "run `dotling vault init` to create one"),
        ];
        assert(notices_view(notices@) =~= show_notices(present, vault_dir@));
        return notices;
    }
    let mut loc: Vec<char> = Vec::new();
    push_str(&mut loc, "location: ");
    push_str(&mut loc, vault_dir);
    let loc_text = string_of(&loc);
    let notices = vec![
        notice(NoticeKind::Header, "Vault"),
        notice(NoticeKind::Info, loc_text.as_str()),
        notice(NoticeKind::Info, "status: initialized ✓"),
    ];
    assert(notices_view(notices@) =~= show_notices(present, vault_dir@));
    notices
}

/// What `vault export` made: the bundle to write, and the messages.
#[derive(Debug, Clone)]
pub struct ExportOutcome {
    pub bundle: Vec<u8>,
    pub notices: Vec<Notice>,
}

pub open spec fn export_notices(path: Seq<char>) -> Seq<(NoticeKind, Seq<char>)> {
    seq![
        (NoticeKind::Success, "vault exported to `"@ + path + "`"@),
        (NoticeKind::Hint, "transfer this file to your new machine and run `dotling vault import <path>`"@),
    ]
}

/// `o` holds a bundle of `config` and `identity` sealed under `password`,
/// and the messages of a finished export.
pub open spec fn exported(o: ExportOutcome, password: Seq<char>, config: Seq<u8>, identity: Seq<u8>, path: Seq<char>) -> bool {
    &&& exists|salt: Seq<u8>, nonce: Seq<u8>|
        salt.len() == 32 && nonce.len() == 12 && o.bundle@ == bundle_blob(password, salt, nonce, config, identity)
    &&& notices_view(o.notices@) == export_notices(path)
}

/// `dotling vault export`: refused without a vault; the password must open
/// `identity.enc` (its text, `None` when missing); then the vault's config
/// and identity go into a bundle sealed with that password.
pub fn run_export(present: bool, identity: Option<&str>, password: &str, config: &[u8], path: &str) -> (r:
    Result<ExportOutcome, Error>)
    ensures
        !present ==> (r matches Err(Error::User(m)) && m@ == no_vault_message()),
        present && identity is None ==> (r matches Err(Error::Vault(m)) && m@
            == not_initialized_message()),
        present ==> (identity matches Some(c) ==> match decrypt_identity_spec(c@, password@) {
            Err(f) => r matches Err(e) && reports(e, f),
            Ok(p) => (p.len() != 32 ==> (r matches Err(Error::Vault(m)) && m@
                == "corrupted vault secret length"@)) && (p.len() == 32 && config@.len()
                <= 0xFFFF_FFFF && password_ok(password@) && sealable(
                bundle_payload(config@, vstd::utf8::encode_utf8(c@)).len(),
            ) ==> r is Ok),
        }),
        r matches Ok(o) ==> present,
        r matches Ok(o) ==> (identity matches Some(c) && exported(o, password@, config@, vstd::utf8::encode_utf8(c@), path@)),
{
    if !present {
        return Err(Error::User("no vault found — run `dotling vault init` first".to_string()));
    }
    match unlock_vault(identity, password) {
        Ok(_) => {},
        Err(e) => {
            return Err(e);
        },
    }
    let content = match identity {
        Some(c) => c,
        None => {
            return Err(Error::Vault("vault not initialized — run `dotling vault init` first".to_string()));
        },
    };
    let bundle = match write_bundle(password, config, content.as_bytes()) {
        Ok(b) => b,
        Err(e) => {
            return Err(e);
        },
    };
    let mut msg: Vec<char> = Vec::new();
    push_str(&mut msg, "vault exported to `");
    push_str(&mut msg, path);
    push_str(&mut msg, "`");
    let msg_text = string_of(&msg);
    let notices = vec![
        notice(NoticeKind::Success, msg_text.as_str()),
        notice(
            NoticeKind::Hint,
            "transfer this file to your new machine and run `dotling vault import <path>`",
        ),
    ];
    assert(notices_view(notices@) =~= export_notices(path@));
    Ok(ExportOutcome { bundle, notices })
}

/// What `vault import` found: the files to write (config, then identity),
/// or none when the user kept the vault there is; and the messages.
#[derive(Debug, Clone)]
pub struct ImportOutcome {
    pub files: Option<(Vec<u8>, Vec<u8>)>,
    pub notices: Vec<Notice>,
}

pub open spec fn import_notices() -> Seq<(NoticeKind, Seq<char>)> {
    seq![
        (NoticeKind::Success, "vault imported"@),
        (NoticeKind::Hint, "run `dotling deploy` to deploy your dotfiles"@),
    ]
}

/// `dotling vault import`: cancelled when a vault present and the user does
/// not want it overwritten; otherwise the bundle is opened with the password
/// and its config and identity are to be written. The written identity is
/// then checked with `vault::check_imported_identity`.
pub fn run_import(present: bool, overwrite: bool, blob: &[u8], password: &str) -> (r: Result<
    ImportOutcome,
    Error,
>)
    ensures
        present && !overwrite ==> (r matches Ok(o) && o.files is None && notices_view(o.notices@)
            == seq![(NoticeKind::Info, "import cancelled"@)]),
        !present || overwrite ==> match read_bundle_spec(blob@, password@) {
            Ok((c, i)) => r matches Ok(o) && o.files matches Some((rc, ri)) && rc@ == c && ri@ == i
                && notices_view(o.notices@) == import_notices(),
            Err(f) => r matches Err(e) && reports(e, f),
        },
{
    if present && !overwrite {
        let notices = vec![notice(NoticeKind::Info, "import cancelled")];
        assert(notices_view(notices@) =~= seq![(NoticeKind::Info, "import cancelled"@)]);
        return Ok(ImportOutcome { files: None, notices });
    }
    let (config, identity) = match read_bundle(blob, password) {
        Ok(p) => p,
        Err(e) => {
            return Err(e);
        },
    };
    let notices = vec![
        notice(NoticeKind::Success, "vault imported"),
        notice(NoticeKind::Hint, "run `dotling deploy` to deploy your dotfiles"),
    ];
    assert(notices_view(notices@) =~= import_notices());
    Ok(ImportOutcome { files: Some((config, identity)), notices })
}

/// What `vault change-password` made: the new `identity.enc`, and the
/// messages.
#[derive(Debug, Clone)]
pub struct ChangeOutcome {
    pub identity: String,
    pub notices: Vec<Notice>,
}

/// `dotling vault change-password`: refused without a vault; the new
/// password must be non-empty and confirmed; the secret that the old
/// password opens is sealed again under the new one.
pub fn run_change_password(
    present: bool,
    identity: Option<&str>,
    old_password: &str,
    new_password: &str,
    confirm: &str,
) -> (r: Result<ChangeOutcome, Error>)
    ensures
        !present ==> (r matches Err(Error::User(m)) && m@ == no_vault_message()),
        present && new_password@.len() == 0 ==> (r matches Err(Error::User(m)) && m@
            == empty_password_message()),
        present && new_password@.len() > 0 && new_password@ != confirm@ ==> (r matches Err(
            Error::User(m),
        ) && m@ == mismatch_message()),
        present && new_password@.len() > 0 && new_password@ == confirm@ && identity is None ==> (r matches Err(
            Error::Vault(m),
        ) && m@ == not_initialized_message()),
        r matches Ok(o) ==> (identity matches Some(c) && resealed(
            c@,
            old_password@,
            new_password@,
            o.identity@,
        ) && notices_view(o.notices@) == seq![(NoticeKind::Success, "vault password changed"@)]),
        present && new_password@.len() > 0 && new_password@ == confirm@ ==> (identity matches Some(c)
            ==> match decrypt_identity_spec(c@, old_password@) {
            Err(f) => r matches Err(e) && reports(e, f),
            Ok(p) => if p.len() != 32 {
                r matches Err(Error::Vault(m)) && m@ == "corrupted vault secret length"@
            } else if !password_ok(new_password@) {
                r matches Err(Error::Crypto(m)) && m@ == too_long_message()
            } else {
                r is Ok
            },
        }),
{
    if !present {
        return Err(Error::User("no vault found — run `dotling vault init` first".to_string()));
    }
    match password_not_empty(new_password) {
        Ok(()) => {},
        Err(e) => {
            return Err(e);
        },
    }
    match passwords_match(new_password, confirm) {
        Ok(()) => {},
        Err(e) => {
            return Err(e);
        },
    }
    let t = match change_password(identity, old_password, new_password) {
        Ok(t) => t,
        Err(e) => {
            return Err(e);
        },
    };
    let notices = vec![notice(NoticeKind::Success, "vault password changed")];
    assert(notices_view(notices@) =~= seq![(NoticeKind::Success, "vault password changed"@)]);
    Ok(ChangeOutcome { identity: t, notices })
}

} // verus!
