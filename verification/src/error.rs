//! Error type shared by every module of the library.

use vstd::prelude::*;

use crate::text::{decimal, decimal_vec, push_all, push_str, string_of};

verus! {

/// Central error type for all dotling operations.
#[derive(Debug, Clone)]
pub enum Error {
    /// A usage error with a message for the user.
    User(String),
    /// A malformed `dotling.toml`, with the 1-based line where it was found.
    Config { message: String, line: Option<usize> },
    /// A template that cannot be rendered.
    Template { source: String, message: String },
    /// An entry that cannot be deployed.
    Deploy { entry: String, message: String },
    /// An encryption or decryption failure.
    Crypto(String),
    /// A vault failure.
    Vault(String),
    /// A failed file operation on `path` while doing `context`.
    Io { path: String, context: String, message: String },
}

/// Crate-wide result alias.
pub type Result<T> = core::result::Result<T, Error>;

/// The text shown to the user for an error.
pub open spec fn error_text(e: Error) -> Seq<char> {
    match e {
        Error::User(m) => m@,
        Error::Config { message, line } => match line {
            Some(l) => "config error at line "@ + decimal(l as nat) + ": "@ + message@,
            None => "config error: "@ + message@,
        },
        Error::Template { source, message } => "template `"@ + source@ + "`: "@
            + message@,
        Error::Deploy { entry, message } => "`"@ + entry@ + "`: "@ + message@,
        Error::Crypto(m) => "crypto: "@ + m@,
        Error::Vault(m) => "vault: "@ + m@,
        Error::Io { path, context, message } => "failed to "@ + context@ + " `"@ + path@
            + "`: "@ + message@,
    }
}

impl Error {
    /// The text shown to the user for this error.
    pub fn to_text(&self) -> (r: String)
        ensures
            r@ == error_text(*self),
    {
        let mut v: Vec<char> = Vec::new();
        match self {
            Error::User(m) => {
                push_str(&mut v, m.as_str());
            },
            Error::Config { message, line } => {
                match line {
                    Some(l) => {
                        push_str(&mut v, "config error at line ");
                        let d = decimal_vec(*l);
                        push_all(&mut v, &d);
                        push_str(&mut v, ": ");
                    },
                    None => {
                        push_str(&mut v, "config error: ");
                    },
                }
                push_str(&mut v, message.as_str());
            },
            Error::Template { source, message } => {
                push_str(&mut v, "template `");
                push_str(&mut v, source.as_str());
                push_str(&mut v, "`: ");
                push_str(&mut v, message.as_str());
            },
            Error::Deploy { entry, message } => {
                push_str(&mut v, "`");
                push_str(&mut v, entry.as_str());
                push_str(&mut v, "`: ");
                push_str(&mut v, message.as_str());
            },
            Error::Crypto(m) => {
                push_str(&mut v, "crypto: ");
                push_str(&mut v, m.as_str());
            },
            Error::Vault(m) => {
                push_str(&mut v, "vault: ");
                push_str(&mut v, m.as_str());
            },
            Error::Io { path, context, message } => {
                push_str(&mut v, "failed to ");
                push_str(&mut v, context.as_str());
                push_str(&mut v, " `");
                push_str(&mut v, path.as_str());
                push_str(&mut v, "`: ");
                push_str(&mut v, message.as_str());
            },
        }
        string_of(&v)
    }
}

impl Error {
    /// A failed file operation on `path` while doing `context`, with the
    /// operating system's message.
    pub fn io(path: &str, context: &str, message: &str) -> (r: Error)
        ensures
            r matches Error::Io { path: p, context: c, message: m } && p@ == path@ && c@ == context@
                && m@ == message@,
    {
        Error::Io { path: path.to_string(), context: context.to_string(), message: message.to_string() }
    }
}

/// Errors of the link-based workflow (`.dotling.toml` with `[[links]]`).
#[derive(Debug, Clone)]
pub enum DotlingError {
    /// The dotling repository has not been initialized yet.
    RepoNotFound,
    /// A repository already exists at the given path.
    AlreadyInitialized(String),
    /// The specified path does not exist on disk.
    PathNotFound(String),
    /// The path is outside the user's home directory.
    PathOutsideHome(String),
    /// The file is already tracked by dotling.
    AlreadyTracked(String),
    /// The file is not currently tracked by dotling.
    NotTracked(String),
    /// An unmanaged file exists at the link target destination.
    DestinationConflict(String),
    /// A git command exited with a non-zero status.
    Git(String),
    /// An I/O error on `path`, with the operating system's message.
    Io { path: String, message: String },
    /// The config file could not be parsed.
    ConfigParse(String),
    /// The config file could not be written.
    ConfigWrite(String),
    /// No git remote is configured on the repository.
    NoRemote,
    /// The path is already a symlink (cannot link a symlink).
    AlreadySymlink(String),
}

/// The text shown to the user for a link-workflow error.
pub open spec fn dotling_error_text(e: DotlingError) -> Seq<char> {
    match e {
        DotlingError::RepoNotFound => "dotling repo not found — run `dotling init <path>` first"@,
        DotlingError::AlreadyInitialized(p) => "already initialized at "@ + p@,
        DotlingError::PathNotFound(p) => "path not found: "@ + p@,
        DotlingError::PathOutsideHome(p) => "path is outside home directory: "@ + p@,
        DotlingError::AlreadyTracked(p) => "already tracked: "@ + p@,
        DotlingError::NotTracked(p) => "not tracked: "@ + p@,
        DotlingError::DestinationConflict(p) => "destination conflict — unmanaged file exists at "@
            + p@,
        DotlingError::Git(m) => "git: "@ + m@,
        DotlingError::Io { path, message } => path@ + ": "@ + message@,
        DotlingError::ConfigParse(m) => "failed to parse config: "@ + m@,
        DotlingError::ConfigWrite(m) => "failed to write config: "@ + m@,
        DotlingError::NoRemote => "no git remote configured — add one with `git remote add origin <url>`"@,
        DotlingError::AlreadySymlink(p) => "already a symlink: "@ + p@,
    }
}

impl DotlingError {
    /// The text shown to the user for this error.
    pub fn to_text(&self) -> (r: String)
        ensures
            r@ == dotling_error_text(*self),
    {
        let mut v: Vec<char> = Vec::new();
        match self {
            DotlingError::RepoNotFound => {
                push_str(&mut v, "dotling repo not found — run `dotling init <path>` first");
            },
            DotlingError::AlreadyInitialized(p) => {
                push_str(&mut v, "already initialized at ");
                push_str(&mut v, p.as_str());
            },
            DotlingError::PathNotFound(p) => {
                push_str(&mut v, "path not found: ");
                push_str(&mut v, p.as_str());
            },
            DotlingError::PathOutsideHome(p) => {
                push_str(&mut v, "path is outside home directory: ");
                push_str(&mut v, p.as_str());
            },
            DotlingError::AlreadyTracked(p) => {
                push_str(&mut v, "already tracked: ");
                push_str(&mut v, p.as_str());
            },
            DotlingError::NotTracked(p) => {
                push_str(&mut v, "not tracked: ");
                push_str(&mut v, p.as_str());
            },
            DotlingError::DestinationConflict(p) => {
                push_str(&mut v, "destination conflict — unmanaged file exists at ");
                push_str(&mut v, p.as_str());
            },
            DotlingError::Git(m) => {
                push_str(&mut v, "git: ");
                push_str(&mut v, m.as_str());
            },
            DotlingError::Io { path, message } => {
                push_str(&mut v, path.as_str());
                push_str(&mut v, ": ");
                push_str(&mut v, message.as_str());
            },
            DotlingError::ConfigParse(m) => {
                push_str(&mut v, "failed to parse config: ");
                push_str(&mut v, m.as_str());
            },
            DotlingError::ConfigWrite(m) => {
                push_str(&mut v, "failed to write config: ");
                push_str(&mut v, m.as_str());
            },
            DotlingError::NoRemote => {
                push_str(
                    &mut v,
                    "no git remote configured — add one with `git remote add origin <url>`",
                );
            },
            DotlingError::AlreadySymlink(p) => {
                push_str(&mut v, "already a symlink: ");
                push_str(&mut v, p.as_str());
            },
        }
        string_of(&v)
    }
}

/// The error for a failed file operation on `path`, with the operating
/// system's message.
pub fn io_err(path: &str, message: &str) -> (r: DotlingError)
    ensures
        r matches DotlingError::Io { path: p, message: m } && p@ == path@ && m@ == message@,
{
    DotlingError::Io { path: path.to_string(), message: message.to_string() }
}

} // verus!
