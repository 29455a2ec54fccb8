//! dotling — dotfiles management: configuration, templating, variables,
//! merge and sync decisions, verified with Verus.

pub mod error;
pub mod text;
pub mod merge;
pub mod path;
pub mod config;
pub mod vars;
pub mod template;
pub mod fingerprint;
pub mod platform;
pub mod store;
pub mod deploy;
pub mod ui;
pub mod sync;
pub mod repo;
pub mod links;
pub mod linker;
pub mod crypto;
pub mod vault;
pub mod hooks;
pub mod backup;
pub mod editor;
pub mod git;
pub mod diff;
pub mod adding;
pub mod vars_cmd;
pub mod printer;
pub mod vault_cmd;
pub mod backup_cmd;
pub mod cli;
pub mod encrypt_cmd;
pub mod status;
pub mod walk;
pub mod doctor;
