//! Symlink and copy deployment decisions for link entries.
//!
//! The caller looks at the destination and reports it in a
//! [`DestObservation`]; the [`Linker`] decides the entry's status and what
//! deploying it has to do.

use vstd::prelude::*;

use crate::error::DotlingError;
use crate::links::{LinkEntry, LinkEntryView, LinkMethod};
use crate::path::{join, join_paths, parts_of, same_path};
use crate::repo::{expand_path_spec, opt_str_view, src_to_dest_path};

verus! {

/// Result of a deploy operation.
#[derive(Debug, Clone, Copy, PartialEq, Eq, Structural)]
pub enum DeployResult {
    /// The artifact was newly created.
    Created,
    /// The correct artifact already existed — no action taken.
    AlreadyOk,
    /// The entry was skipped (e.g. copy differs, no `--force`).
    Skipped,
}

/// Status of a deployed entry.
#[derive(Debug, Clone, Copy, PartialEq, Eq, Structural)]
pub enum EntryStatus {
    /// The deployment is correct.
    Good,
    /// The deployed copy differs from the repo source.
    Modified,
    /// The destination symlink is broken.
    BrokenSymlink,
    /// The destination does not exist.
    Missing,
    /// An unmanaged regular file exists at the destination.
    Conflict,
}

/// What is on disk at an entry's destination.
pub struct DestObservation {
    /// The destination is a symlink.
    pub is_symlink: bool,
    /// The destination exists (following a symlink).
    pub exists: bool,
    /// Where the symlink points, or the error reading it.
    pub link_target: Result<String, DotlingError>,
    /// The repo source exists.
    pub src_exists: bool,
    /// Whether source and destination hold the same bytes, or the error
    /// reading them.
    pub same_content: Result<bool, DotlingError>,
}

/// Core deploy/undeploy logic, holding the repo root path.
pub struct Linker {
    /// The absolute path to the dotling repository root.
    pub repo_root: String,
}

/// The status of a symlink entry.
pub open spec fn symlink_status(
    src: Seq<char>,
    is_symlink: bool,
    exists: bool,
    link_target: Result<Seq<char>, ()>,
    src_exists: bool,
) -> Result<EntryStatus, ()> {
    if !is_symlink {
        if exists {
            Ok(EntryStatus::Conflict)
        } else {
            Ok(EntryStatus::Missing)
        }
    } else {
        match link_target {
            Err(_) => Err(()),
            Ok(t) => if parts_of(t) == parts_of(src) {
                if src_exists {
                    Ok(EntryStatus::Good)
                } else {
                    Ok(EntryStatus::BrokenSymlink)
                }
            } else {
                Ok(EntryStatus::Conflict)
            },
        }
    }
}

/// The status of a copied entry.
pub open spec fn copy_status(is_symlink: bool, exists: bool, same_content: Result<bool, ()>) -> Result<EntryStatus, ()> {
    if !exists {
        Ok(EntryStatus::Missing)
    } else if is_symlink {
        Ok(EntryStatus::Conflict)
    } else {
        match same_content {
            Err(_) => Err(()),
            Ok(true) => Ok(EntryStatus::Good),
            Ok(false) => Ok(EntryStatus::Modified),
        }
    }
}

pub open spec fn result_text(r: Result<String, DotlingError>) -> Result<Seq<char>, ()> {
    match r {
        Ok(s) => Ok(s@),
        Err(_) => Err(()),
    }
}

pub open spec fn result_unit<T>(r: Result<T, DotlingError>) -> Result<T, ()> {
    match r {
        Ok(b) => Ok(b),
        Err(_) => Err(()),
    }
}

/// What deploying an entry has to do.
#[derive(Debug, Clone, Copy, PartialEq, Eq, Structural)]
pub enum LinkStep {
    /// Nothing: the result is already known.
    Done(DeployResult),
    /// Create the symlink from the destination to the source.
    CreateSymlink,
    /// Copy the source over the destination.
    CopyFile,
}

/// Deploying as a symlink: an existing correct link is kept; any other link
/// or file in the way is a conflict.
pub open spec fn symlink_step(src: Seq<char>, is_symlink: bool, exists: bool, link_target: Result<Seq<char>, ()>) -> Result<LinkStep, ()> {
    if is_symlink {
        match link_target {
            Err(_) => Err(()),
            Ok(t) => if parts_of(t) == parts_of(src) {
                Ok(LinkStep::Done(DeployResult::AlreadyOk))
            } else {
                Err(())
            },
        }
    } else if exists {
        Err(())
    } else {
        Ok(LinkStep::CreateSymlink)
    }
}

/// Deploying as a copy: identical content is kept, differing content is
/// skipped unless forced, and a symlink in the way is a conflict.
pub open spec fn copy_step(is_symlink: bool, exists: bool, same_content: Result<bool, ()>, force: bool) -> Result<LinkStep, ()> {
    if exists && !is_symlink {
        match same_content {
            Err(_) => Err(()),
            Ok(true) => Ok(LinkStep::Done(DeployResult::AlreadyOk)),
            Ok(false) => if !force {
                Ok(LinkStep::Done(DeployResult::Skipped))
            } else {
                Ok(LinkStep::CopyFile)
            },
        }
    } else if is_symlink {
        Err(())
    } else {
        Ok(LinkStep::CopyFile)
    }
}

impl Linker {
    /// Creates a new linker for the given repo root.
    pub fn new(repo_root: &str) -> (r: Linker)
        ensures
            r.repo_root@ == repo_root@,
    {
        Linker { repo_root: repo_root.to_string() }
    }

    /// Returns the absolute source path for an entry within the repo.
    pub fn abs_src(&self, entry: &LinkEntry) -> (r: String)
        ensures
            r@ == join(self.repo_root@, entry@.src),
    {
        join_paths(self.repo_root.as_str(), entry.src.as_str())
    }

    /// Returns the absolute destination path for an entry.
    pub fn abs_dest(entry: &LinkEntry, home: Option<&str>) -> (r: Result<String, DotlingError>)
        ensures
            match expand_path_spec(entry@.dest, opt_str_view(home)) {
                Some(s) => r matches Ok(t) && t@ == s,
                None => r matches Err(DotlingError::RepoNotFound),
            },
    {
        src_to_dest_path(entry.dest.as_str(), home)
    }

    /// Checks the deployment status of a single entry from what is at its
    /// destination; errors come from a destination that cannot be found or
    /// read.
    pub fn check_entry(&self, entry: &LinkEntry, home: Option<&str>, obs: DestObservation) -> (r: Result<EntryStatus, DotlingError>)
        ensures
            expand_path_spec(entry@.dest, opt_str_view(home)) is None ==> r matches Err(
                DotlingError::RepoNotFound,
            ),
            expand_path_spec(entry@.dest, opt_str_view(home)) is Some ==> result_unit(r) == (match entry.method {
                LinkMethod::Symlink => symlink_status(
                    join(self.repo_root@, entry@.src),
                    obs.is_symlink,
                    obs.exists,
                    result_text(obs.link_target),
                    obs.src_exists,
                ),
                _ => copy_status(obs.is_symlink, obs.exists, result_unit(obs.same_content)),
            }),
            match r {
                Err(e) => expand_path_spec(entry@.dest, opt_str_view(home)) is Some ==> (match entry.method {
                    LinkMethod::Symlink => obs.link_target == Err::<String, DotlingError>(e),
                    _ => obs.same_content == Err::<bool, DotlingError>(e),
                }),
                Ok(_) => true,
            },
    {
        let src = self.abs_src(entry);
        let _dest = Linker::abs_dest(entry, home)?;
        match entry.method {
            LinkMethod::Symlink => {
                if !obs.is_symlink {
                    if obs.exists {
                        return Ok(EntryStatus::Conflict);
                    }
                    return Ok(EntryStatus::Missing);
                }
                match obs.link_target {
                    Err(e) => Err(e),
                    Ok(t) => {
                        if same_path(t.as_str(), src.as_str()) {
                            if obs.src_exists {
                                Ok(EntryStatus::Good)
                            } else {
                                Ok(EntryStatus::BrokenSymlink)
                            }
                        } else {
                            Ok(EntryStatus::Conflict)
                        }
                    },
                }
            },
            _ => {
                if !obs.exists {
                    return Ok(EntryStatus::Missing);
                }
                if obs.is_symlink {
                    return Ok(EntryStatus::Conflict);
                }
                match obs.same_content {
                    Err(e) => Err(e),
                    Ok(true) => Ok(EntryStatus::Good),
                    Ok(false) => Ok(EntryStatus::Modified),
                }
            },
        }
    }
    /// Decides what deploying an entry has to do from what is at its
    /// destination. A symlink or file in the way that is not the right
    /// artifact is a conflict.
    pub fn plan_deploy(&self, entry: &LinkEntry, home: Option<&str>, obs: DestObservation, force: bool) -> (r: Result<LinkStep, DotlingError>)
        ensures
            expand_path_spec(entry@.dest, opt_str_view(home)) is None ==> r matches Err(
                DotlingError::RepoNotFound,
            ),
            expand_path_spec(entry@.dest, opt_str_view(home)) is Some ==> result_unit(r) == (match entry.method {
                LinkMethod::Symlink => symlink_step(
                    join(self.repo_root@, entry@.src),
                    obs.is_symlink,
                    obs.exists,
                    result_text(obs.link_target),
                ),
                _ => copy_step(obs.is_symlink, obs.exists, result_unit(obs.same_content), force),
            }),
            ({
                let d = expand_path_spec(entry@.dest, opt_str_view(home));
                (d is Some && r is Err && (match entry.method {
                    LinkMethod::Symlink => obs.link_target is Ok || !obs.is_symlink,
                    _ => obs.same_content is Ok || !(obs.exists && !obs.is_symlink),
                })) ==> (r matches Err(DotlingError::DestinationConflict(p)) && p@ == d->0)
            }),
    {
        let src = self.abs_src(entry);
        let dest = Linker::abs_dest(entry, home)?;
        match entry.method {
            LinkMethod::Symlink => {
                if obs.is_symlink {
                    match obs.link_target {
                        Err(e) => Err(e),
                        Ok(t) => {
                            if same_path(t.as_str(), src.as_str()) {
                                Ok(LinkStep::Done(DeployResult::AlreadyOk))
                            } else {
                                Err(DotlingError::DestinationConflict(dest))
                            }
                        },
                    }
                } else if obs.exists {
                    Err(DotlingError::DestinationConflict(dest))
                } else {
                    Ok(LinkStep::CreateSymlink)
                }
            },
            _ => {
                if obs.exists && !obs.is_symlink {
                    match obs.same_content {
                        Err(e) => Err(e),
                        Ok(true) => Ok(LinkStep::Done(DeployResult::AlreadyOk)),
                        Ok(false) => {
                            if !force {
                                Ok(LinkStep::Done(DeployResult::Skipped))
                            } else {
                                Ok(LinkStep::CopyFile)
                            }
                        },
                    }
                } else if obs.is_symlink {
                    Err(DotlingError::DestinationConflict(dest))
                } else {
                    Ok(LinkStep::CopyFile)
                }
            },
        }
    }
}

} // verus!
