//! Deployment state of an entry, and what deploying it has to do.
//!
//! The filesystem is looked at by the caller: it reports what it found at
//! the entry's target in a [`TargetObservation`], and the decisions here are
//! made from that report.

use vstd::prelude::*;

use crate::config::{DeployMethod, Entry, EntryView};
use crate::error::Error;
use crate::path::{expand_tilde, expand_tilde_spec, join, join_paths, parts_of, same_path};
use crate::text::{push_str, string_of};

verus! {

/// The observed state of a deployed entry.
#[derive(Debug, Clone, Copy, PartialEq, Eq, Structural)]
pub enum EntryState {
    /// Correctly deployed and up-to-date.
    Deployed,
    /// Deployed but the target file has been modified (copy mode).
    Modified,
    /// Not deployed — target does not exist.
    Missing,
    /// Symlink exists but points to wrong target or is broken.
    Broken,
    /// An unmanaged file exists at the target path.
    Conflict,
}

/// What is on disk at an entry's target path.
pub struct TargetObservation {
    /// The target exists (following a symlink).
    pub exists: bool,
    /// The target is a symlink (broken or not).
    pub is_symlink: bool,
    /// Where the symlink points; `None` when it is no symlink or could not be read.
    pub link_target: Option<String>,
    /// Whether the repo source and the target have the same bytes; `None`
    /// when they could not be compared.
    pub identical: Option<bool>,
}

pub struct ObservationView {
    pub exists: bool,
    pub is_symlink: bool,
    pub link_target: Option<Seq<char>>,
    pub identical: Option<bool>,
}

impl View for TargetObservation {
    type V = ObservationView;

    open spec fn view(&self) -> ObservationView {
        ObservationView {
            exists: self.exists,
            is_symlink: self.is_symlink,
            link_target: match self.link_target {
                Some(s) => Some(s@),
                None => None,
            },
            identical: self.identical,
        }
    }
}

/// The repo path of an entry's source.
pub open spec fn source_path_spec(e: EntryView, repo_root: Seq<char>) -> Seq<char> {
    join(repo_root, e.source)
}

/// The deploy method that applies: templates are always copied.
pub open spec fn effective_method(e: EntryView, default_method: DeployMethod) -> DeployMethod {
    if e.template {
        DeployMethod::Copy
    } else {
        match e.method {
            Some(m) => m,
            None => default_method,
        }
    }
}

/// Two paths with the same components (`Path`'s `==`).
pub open spec fn same_path_spec(a: Seq<char>, b: Seq<char>) -> bool {
    parts_of(a) == parts_of(b)
}

/// The state of an entry, given what is at its target. Without a home
/// directory the target cannot be found, and the entry counts as missing.
pub open spec fn check_state_spec(
    e: EntryView,
    repo_root: Seq<char>,
    default_method: DeployMethod,
    home: Option<Seq<char>>,
    obs: ObservationView,
) -> EntryState {
    if home is None || (!obs.exists && !obs.is_symlink) {
        EntryState::Missing
    } else if effective_method(e, default_method) == DeployMethod::Symlink && !e.encrypted {
        if obs.is_symlink {
            match obs.link_target {
                Some(t) => if obs.exists && same_path_spec(t, source_path_spec(e, repo_root)) {
                    EntryState::Deployed
                } else {
                    EntryState::Broken
                },
                None => EntryState::Broken,
            }
        } else {
            EntryState::Conflict
        }
    } else if obs.is_symlink {
        EntryState::Conflict
    } else if e.encrypted || e.template {
        EntryState::Deployed
    } else {
        match obs.identical {
            Some(true) => EntryState::Deployed,
            Some(false) => EntryState::Modified,
            None => EntryState::Broken,
        }
    }
}

/// The target path of an entry, `~` expanded.
pub fn target_path(entry: &Entry, home: &str) -> (r: String)
    ensures
        r@ == expand_tilde_spec(entry@.target, home@),
{
    expand_tilde(entry.target.as_str(), home)
}

/// The repo path of an entry's source.
pub fn source_path(entry: &Entry, repo_root: &str) -> (r: String)
    ensures
        r@ == source_path_spec(entry@, repo_root@),
{
    join_paths(repo_root, entry.source.as_str())
}

/// Check the deployment state of an entry from what is at its target.
pub fn check_state(
    entry: &Entry,
    repo_root: &str,
    default_method: DeployMethod,
    home: Option<&str>,
    obs: &TargetObservation,
) -> (r: EntryState)
    ensures
        r == check_state_spec(
            entry@,
            repo_root@,
            default_method,
            match home {
                Some(h) => Some(h@),
                None => None,
            },
            obs@,
        ),
{
    if home.is_none() || (!obs.exists && !obs.is_symlink) {
        return EntryState::Missing;
    }
    let method = if entry.template {
        DeployMethod::Copy
    } else {
        match entry.method {
            Some(m) => m,
            None => default_method,
        }
    };
    if method == DeployMethod::Symlink && !entry.encrypted {
        if obs.is_symlink {
            match &obs.link_target {
                Some(t) => {
                    let source = source_path(entry, repo_root);
                    if obs.exists && same_path(t.as_str(), source.as_str()) {
                        EntryState::Deployed
                    } else {
                        EntryState::Broken
                    }
                },
                None => EntryState::Broken,
            }
        } else {
            EntryState::Conflict
        }
    } else if obs.is_symlink {
        EntryState::Conflict
    } else if entry.encrypted || entry.template {
        EntryState::Deployed
    } else {
        match obs.identical {
            Some(true) => EntryState::Deployed,
            Some(false) => EntryState::Modified,
            None => EntryState::Broken,
        }
    }
}

/// What deploying a plain entry does.
#[derive(Debug, Clone, Copy, PartialEq, Eq, Structural)]
pub enum DeployPlan {
    /// Already deployed correctly: nothing to do.
    Nothing,
    /// Remove what is at the target (when `remove_existing`), then deploy
    /// with `method`.
    Deploy { remove_existing: bool, method: DeployMethod },
}

pub open spec fn missing_source_message(source: Seq<char>) -> Seq<char> {
    "source `"@ + source + "` does not exist in repo"@
}

pub open spec fn unmanaged_message(target: Seq<char>) -> Seq<char> {
    "unmanaged file exists at `"@ + target + "` — use --force to overwrite"@
}

/// The deployment of a plain entry: refused without its source, or over an
/// unmanaged file unless forced; skipped when already deployed.
pub open spec fn deploy_plan_spec(
    e: EntryView,
    repo_root: Seq<char>,
    default_method: DeployMethod,
    home: Seq<char>,
    source_exists: bool,
    obs: ObservationView,
    force: bool,
) -> Result<DeployPlan, (Seq<char>, Seq<char>)> {
    let method = match e.method {
        Some(m) => m,
        None => default_method,
    };
    let state = check_state_spec(e, repo_root, default_method, Some(home), obs);
    if !source_exists {
        Err((e.source, missing_source_message(source_path_spec(e, repo_root))))
    } else if obs.exists || obs.is_symlink {
        if !force && state == EntryState::Deployed {
            Ok(DeployPlan::Nothing)
        } else if !force && state == EntryState::Conflict {
            Err((e.source, unmanaged_message(expand_tilde_spec(e.target, home))))
        } else {
            Ok(DeployPlan::Deploy { remove_existing: true, method })
        }
    } else {
        Ok(DeployPlan::Deploy { remove_existing: false, method })
    }
}

/// Decide how to deploy a plain (not encrypted) entry, from whether its
/// source exists in the repo and what is at its target.
pub fn deploy_plan(
    entry: &Entry,
    repo_root: &str,
    default_method: DeployMethod,
    home: &str,
    source_exists: bool,
    obs: &TargetObservation,
    force: bool,
) -> (r: Result<DeployPlan, Error>)
    ensures
        match deploy_plan_spec(entry@, repo_root@, default_method, home@, source_exists, obs@, force) {
            Ok(p) => r == Ok::<DeployPlan, Error>(p),
            Err((en, m)) => r matches Err(Error::Deploy { entry: re, message: rm }) && re@ == en
                && rm@ == m,
        },
{
    let method = match entry.method {
        Some(m) => m,
        None => default_method,
    };
    if !source_exists {
        let source = source_path(entry, repo_root);
        let mut v: Vec<char> = Vec::new();
        push_str(&mut v, "source `");
        push_str(&mut v, source.as_str());
        push_str(&mut v, "` does not exist in repo");
        return Err(Error::Deploy { entry: entry.source.clone(), message: string_of(&v) });
    }
    if obs.exists || obs.is_symlink {
        if !force {
            let state = check_state(entry, repo_root, default_method, Some(home), obs);
            if state == EntryState::Deployed {
                return Ok(DeployPlan::Nothing);
            }
            if state == EntryState::Conflict {
                let target = target_path(entry, home);
                let mut v: Vec<char> = Vec::new();
                push_str(&mut v, "unmanaged file exists at `");
                push_str(&mut v, target.as_str());
                push_str(&mut v, "` — use --force to overwrite");
                return Err(Error::Deploy { entry: entry.source.clone(), message: string_of(&v) });
            }
        }
        Ok(DeployPlan::Deploy { remove_existing: true, method })
    } else {
        Ok(DeployPlan::Deploy { remove_existing: false, method })
    }
}


/// A copied plain entry is deployed exactly when its target holds the same
/// bytes as its source: an existing target that is no symlink is
/// `Deployed` when the bytes are the same, `Modified` when they differ, and
/// `Broken` when they could not be compared; and a deployed entry is left
/// alone unless forced.
pub proof fn law_copy_state_follows_content(
    e: EntryView,
    repo_root: Seq<char>,
    default_method: DeployMethod,
    home: Seq<char>,
    obs: ObservationView,
)
    requires
        e.method == Some(DeployMethod::Copy),
        !e.encrypted,
        !e.template,
        obs.exists,
        !obs.is_symlink,
    ensures
        obs.identical == Some(true) ==> check_state_spec(e, repo_root, default_method, Some(home), obs)
            == EntryState::Deployed,
        obs.identical == Some(false) ==> check_state_spec(e, repo_root, default_method, Some(home), obs)
            == EntryState::Modified,
        obs.identical is None ==> check_state_spec(e, repo_root, default_method, Some(home), obs)
            == EntryState::Broken,
        obs.identical == Some(true) ==> deploy_plan_spec(e, repo_root, default_method, home, true, obs, false)
            == Ok::<DeployPlan, (Seq<char>, Seq<char>)>(DeployPlan::Nothing),
        obs.identical != Some(true) ==> deploy_plan_spec(e, repo_root, default_method, home, true, obs, false)
            == Ok::<DeployPlan, (Seq<char>, Seq<char>)>(
            DeployPlan::Deploy { remove_existing: true, method: DeployMethod::Copy },
        ),
{
}

} // verus!
