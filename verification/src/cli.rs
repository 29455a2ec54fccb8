//! The actions of the `vault`, `backup` and `vars` subcommands, as the
//! command line gives them. Parsing the command line is the caller's.

use vstd::prelude::*;

verus! {

/// `dotling vault ...`
#[derive(Clone, Debug, PartialEq, Eq)]
pub enum VaultAction {
    /// Initialize a new vault with a password.
    Init,
    /// Show vault status.
    Show,
    /// Export the vault as a portable encrypted bundle at `path`.
    Export { path: String },
    /// Import a vault bundle from `path`.
    Import { path: String },
    /// Change the vault password.
    ChangePassword,
}

/// `dotling backup ...`
#[derive(Clone, Debug, PartialEq, Eq)]
pub enum BackupAction {
    /// List all backup sessions.
    List,
    /// Remove old backup sessions: keep the `keep_last` most recent, remove
    /// those older than `older_than` days.
    Clean { keep_last: Option<usize>, older_than: Option<u64> },
}

/// `dotling vars ...`
#[derive(Clone, Debug, PartialEq, Eq)]
pub enum VarsAction {
    /// Show all resolved variables.
    List,
    /// Set a machine-local variable.
    SetVar { key: String, value: String },
    /// Print the resolved value of one variable.
    Get { key: String },
    /// Remove a variable from the local store.
    Unset { key: String },
    /// Find unresolved variables in template entries.
    Check,
    /// Bulk-import variables from a TOML or `.env` file at `path`.
    Import { path: String },
    /// Print local variables as TOML.
    Export,
}

} // verus!
