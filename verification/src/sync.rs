//! The decisions of a two-way sync: which direction each entry goes, how a
//! conflict is settled, and what is recorded afterwards.
//!
//! The caller walks the entries, looks at the filesystem, prompts the user
//! and performs the copies; every choice it makes is taken from here.

use vstd::prelude::*;

use blake2::Digest;

use crate::config::{DeployMethod, Entry, EntryView};
use crate::deploy::EntryState;
use crate::fingerprint::{opt_str, who_changed_spec, FingerprintStore, WhichSide};
use crate::path::{join, join_paths};
use crate::text::{push_str, string_of};
use crate::ui::ConflictChoice;

verus! {

// ── Conflict origin ───────────────────────────────────────────────

/// Why a conflict was detected for this entry.
#[derive(Debug, Clone, Copy, PartialEq, Eq, Structural)]
pub enum ConflictOrigin {
    /// Target exists but has never been tracked by dotling on this machine.
    FirstSeen,
    /// Both the repo source and the actual target were modified since the
    /// last sync — genuine divergence.
    BothModified,
    /// Files differ but modification times are identical; we cannot determine
    /// which is newer.
    TimestampTie,
}

pub open spec fn origin_label(o: ConflictOrigin) -> Seq<char> {
    match o {
        ConflictOrigin::FirstSeen => "first-seen"@,
        ConflictOrigin::BothModified => "both-modified"@,
        ConflictOrigin::TimestampTie => "ambiguous timestamp"@,
    }
}

impl ConflictOrigin {
    pub fn label(self) -> (r: &'static str)
        ensures
            r@ == origin_label(self),
    {
        match self {
            ConflictOrigin::FirstSeen => "first-seen",
            ConflictOrigin::BothModified => "both-modified",
            ConflictOrigin::TimestampTie => "ambiguous timestamp",
        }
    }
}

// ── Direction resolved per entry ──────────────────────────────────

#[derive(Debug, Clone, Copy, PartialEq, Eq, Structural)]
pub enum SyncAction {
    /// Already in sync — nothing to do.
    Settled,
    /// Push from repo → actual (deploy direction).
    Push,
    /// Pull from actual → repo.
    Pull,
    /// Both sides differ and need user input or a flag to resolve.
    Conflict(ConflictOrigin),
    /// Symlink is missing or broken (always a Push).
    FixSymlink,
}

/// The direction of a side-by-side pair by modification time: the newer
/// side wins; on a tie the repo wins, or the local file with
/// `--prefer-actual`.
pub open spec fn newer_side(repo: u128, target: u128, prefer_actual: bool) -> SyncAction {
    if target > repo {
        SyncAction::Pull
    } else if target < repo {
        SyncAction::Push
    } else if prefer_actual {
        SyncAction::Pull
    } else {
        SyncAction::Push
    }
}

fn newer_side_exec(repo: u128, target: u128, prefer_actual: bool) -> (r: SyncAction)
    ensures
        r == newer_side(repo, target, prefer_actual),
{
    if target > repo {
        SyncAction::Pull
    } else if target < repo {
        SyncAction::Push
    } else if prefer_actual {
        SyncAction::Pull
    } else {
        SyncAction::Push
    }
}

/// The direction of a plain copy-mode entry: by existence, then by content,
/// then by which side changed since the recorded fingerprint; without a
/// record, by modification time, and a first-seen conflict when the times
/// cannot be had.
pub open spec fn copy_action_spec(
    source_exists: bool,
    target_exists: bool,
    identical: bool,
    who: WhichSide,
    mtimes: MtimeObservation,
    prefer_actual: bool,
) -> SyncAction {
    if !source_exists && !target_exists {
        SyncAction::Settled
    } else if source_exists && !target_exists {
        SyncAction::Push
    } else if !source_exists && target_exists {
        SyncAction::Pull
    } else if identical {
        SyncAction::Settled
    } else {
        match who {
            WhichSide::Neither => SyncAction::Settled,
            WhichSide::RepoOnly => SyncAction::Push,
            WhichSide::ActualOnly => SyncAction::Pull,
            WhichSide::Both => SyncAction::Conflict(ConflictOrigin::BothModified),
            WhichSide::Unknown => match mtimes {
                MtimeObservation::Known { repo, target } => newer_side(repo, target, prefer_actual),
                _ => SyncAction::Conflict(ConflictOrigin::FirstSeen),
            },
        }
    }
}

/// Resolve the sync direction of a plain copy-mode entry.
///
/// `target_exists` counts only a target that is not a symlink; `identical`
/// is whether both files have the same bytes; the hashes are those of the
/// repo source and the target now (`None` where unreadable); `mtimes` are
/// the modification times of the repo source and the target.
pub fn resolve_copy_action(
    entry: &Entry,
    store: &FingerprintStore,
    source_exists: bool,
    target_exists: bool,
    identical: bool,
    source_hash: Option<&str>,
    target_hash: Option<&str>,
    mtimes: MtimeObservation,
    prefer_actual: bool,
) -> (r: SyncAction)
    ensures
        r == copy_action_spec(
            source_exists,
            target_exists,
            identical,
            who_changed_spec(store.records(), entry@.source, opt_str(source_hash), opt_str(target_hash)),
            mtimes,
            prefer_actual,
        ),
{
    if !source_exists && !target_exists {
        SyncAction::Settled
    } else if source_exists && !target_exists {
        SyncAction::Push
    } else if !source_exists && target_exists {
        SyncAction::Pull
    } else if identical {
        SyncAction::Settled
    } else {
        match store.who_changed(entry.source.as_str(), source_hash, target_hash) {
            WhichSide::Neither => SyncAction::Settled,
            WhichSide::RepoOnly => SyncAction::Push,
            WhichSide::ActualOnly => SyncAction::Pull,
            WhichSide::Both => SyncAction::Conflict(ConflictOrigin::BothModified),
            WhichSide::Unknown => match mtimes {
                MtimeObservation::Known { repo, target } => newer_side_exec(repo, target, prefer_actual),
                _ => SyncAction::Conflict(ConflictOrigin::FirstSeen),
            },
        }
    }
}

/// The modification times of an entry's repo file (the encrypted file for
/// an encrypted entry) and its target.
#[derive(Debug, Clone, Copy, PartialEq, Eq, Structural)]
pub enum MtimeObservation {
    /// The metadata of a file could not be read.
    Unreadable,
    /// A modification time could not be had.
    Unknown,
    /// Both times, in nanoseconds since the epoch (for a directory, the
    /// latest of the files under it).
    Known { repo: u128, target: u128 },
}

/// The direction of an encrypted entry, by existence and then by which side
/// was modified last (a tie goes to the repo, or to the local file with
/// `--prefer-actual`).
pub open spec fn encrypted_action_spec(
    enc_exists: bool,
    target_exists: bool,
    m: MtimeObservation,
    prefer_actual: bool,
) -> SyncAction {
    if !enc_exists && !target_exists {
        SyncAction::Settled
    } else if enc_exists && !target_exists {
        SyncAction::Push
    } else if !enc_exists && target_exists {
        SyncAction::Pull
    } else {
        match m {
            MtimeObservation::Known { repo, target } => newer_side(repo, target, prefer_actual),
            MtimeObservation::Unknown => SyncAction::Conflict(ConflictOrigin::TimestampTie),
            MtimeObservation::Unreadable => SyncAction::Push,
        }
    }
}

/// Resolve the sync direction of an encrypted entry without decrypting it.
pub fn resolve_encrypted_action(
    enc_exists: bool,
    target_exists: bool,
    mtimes: MtimeObservation,
    prefer_actual: bool,
) -> (r: SyncAction)
    ensures
        r == encrypted_action_spec(enc_exists, target_exists, mtimes, prefer_actual),
{
    if !enc_exists && !target_exists {
        SyncAction::Settled
    } else if enc_exists && !target_exists {
        SyncAction::Push
    } else if !enc_exists && target_exists {
        SyncAction::Pull
    } else {
        match mtimes {
            MtimeObservation::Known { repo, target } => newer_side_exec(repo, target, prefer_actual),
            MtimeObservation::Unknown => SyncAction::Conflict(ConflictOrigin::TimestampTie),
            MtimeObservation::Unreadable => SyncAction::Push,
        }
    }
}

/// The repo file of an encrypted entry: the source itself for a directory
/// or a template (whose name already ends in `.enc`), otherwise the source
/// with `.enc` added.
pub open spec fn enc_path_spec(e: EntryView, repo_root: Seq<char>) -> Seq<char> {
    if e.directory || e.template {
        join(repo_root, e.source)
    } else {
        join(repo_root, e.source + ".enc"@)
    }
}

/// The repo file that holds an encrypted entry.
pub fn enc_path(entry: &Entry, repo_root: &str) -> (r: String)
    ensures
        r@ == enc_path_spec(entry@, repo_root@),
{
    if entry.directory || entry.template {
        join_paths(repo_root, entry.source.as_str())
    } else {
        let mut v: Vec<char> = Vec::new();
        push_str(&mut v, entry.source.as_str());
        push_str(&mut v, ".enc");
        let s = string_of(&v);
        join_paths(repo_root, s.as_str())
    }
}

/// What must be looked at to decide an entry's direction.
#[derive(Debug, Clone, Copy, PartialEq, Eq, Structural)]
pub enum ActionProbe {
    /// The deployment state of a symlinked entry.
    Symlink,
    /// Existence and modification times of an encrypted entry.
    Encrypted,
    /// Existence, contents and hashes of a copied entry.
    Copy,
}

pub open spec fn action_probe_spec(e: EntryView, default_method: DeployMethod) -> ActionProbe {
    let method = match e.method {
        Some(m) => m,
        None => default_method,
    };
    if method == DeployMethod::Symlink && !e.encrypted {
        ActionProbe::Symlink
    } else if e.encrypted {
        ActionProbe::Encrypted
    } else {
        ActionProbe::Copy
    }
}

/// What must be looked at to decide an entry's direction.
pub fn action_probe(entry: &Entry, default_method: DeployMethod) -> (r: ActionProbe)
    ensures
        r == action_probe_spec(entry@, default_method),
{
    let method = match entry.method {
        Some(m) => m,
        None => default_method,
    };
    if method == DeployMethod::Symlink && !entry.encrypted {
        ActionProbe::Symlink
    } else if entry.encrypted {
        ActionProbe::Encrypted
    } else {
        ActionProbe::Copy
    }
}

/// What was found for the probe of an entry.
pub enum ActionObservation {
    Symlink(EntryState),
    Encrypted { enc_exists: bool, target_exists: bool, mtimes: MtimeObservation },
    Copy {
        source_exists: bool,
        target_exists: bool,
        identical: bool,
        source_hash: Option<String>,
        target_hash: Option<String>,
        mtimes: MtimeObservation,
    },
}

pub open spec fn observation_probe(o: ActionObservation) -> ActionProbe {
    match o {
        ActionObservation::Symlink(_) => ActionProbe::Symlink,
        ActionObservation::Encrypted { .. } => ActionProbe::Encrypted,
        ActionObservation::Copy { .. } => ActionProbe::Copy,
    }
}

pub open spec fn opt_string(o: Option<String>) -> Option<Seq<char>> {
    match o {
        Some(s) => Some(s@),
        None => None,
    }
}

/// The direction of an entry: a push when its target cannot be found (no
/// home directory); symlinks are repo-authoritative.
pub open spec fn action_spec(
    e: EntryView,
    home_known: bool,
    obs: ActionObservation,
    records: crate::fingerprint::Records,
    prefer_actual: bool,
) -> SyncAction {
    if !home_known {
        SyncAction::Push
    } else {
        match obs {
            ActionObservation::Symlink(state) => if state == EntryState::Deployed {
                SyncAction::Settled
            } else {
                SyncAction::FixSymlink
            },
            ActionObservation::Encrypted { enc_exists, target_exists, mtimes } => encrypted_action_spec(
                enc_exists,
                target_exists,
                mtimes,
                prefer_actual,
            ),
            ActionObservation::Copy {
                source_exists,
                target_exists,
                identical,
                source_hash,
                target_hash,
                mtimes,
            } => copy_action_spec(
                source_exists,
                target_exists,
                identical,
                who_changed_spec(records, e.source, opt_string(source_hash), opt_string(target_hash)),
                mtimes,
                prefer_actual,
            ),
        }
    }
}

/// Resolve the direction of one entry from what its probe found.
pub fn resolve_action(
    entry: &Entry,
    default_method: DeployMethod,
    home_known: bool,
    obs: &ActionObservation,
    store: &FingerprintStore,
    prefer_actual: bool,
) -> (r: SyncAction)
    requires
        observation_probe(*obs) == action_probe_spec(entry@, default_method),
    ensures
        r == action_spec(entry@, home_known, *obs, store.records(), prefer_actual),
{
    if !home_known {
        return SyncAction::Push;
    }
    match obs {
        ActionObservation::Symlink(state) => {
            if *state == EntryState::Deployed {
                SyncAction::Settled
            } else {
                SyncAction::FixSymlink
            }
        },
        ActionObservation::Encrypted { enc_exists, target_exists, mtimes } => {
            resolve_encrypted_action(*enc_exists, *target_exists, *mtimes, prefer_actual)
        },
        ActionObservation::Copy { source_exists, target_exists, identical, source_hash, target_hash, mtimes } => {
            let sh: Option<&str> = match source_hash {
                Some(s) => Some(s.as_str()),
                None => None,
            };
            let th: Option<&str> = match target_hash {
                Some(s) => Some(s.as_str()),
                None => None,
            };
            resolve_copy_action(
                entry,
                store,
                *source_exists,
                *target_exists,
                *identical,
                sh,
                th,
                *mtimes,
                prefer_actual,
            )
        },
    }
}

// ── Conflict resolution ───────────────────────────────────────────

/// How a conflict ended.
#[derive(Debug, Clone, Copy, PartialEq, Eq, Structural)]
pub enum ConflictOutcome {
    /// Continue with the given `SyncAction` (Push or Pull).
    Resolved(SyncAction),
    /// A 3-way merge was performed and written to disk.
    Merged,
    /// User chose to skip.
    Skipped,
}

/// How conflict resolution starts.
#[derive(Debug, Clone, Copy, PartialEq, Eq, Structural)]
pub enum ConflictStart {
    /// `--force`: back up the target, then push (repo wins).
    BackupThenPush,
    /// Settled without asking.
    Done(ConflictOutcome),
    /// Ask the user.
    Ask,
}

/// The start of conflict resolution: `--force` pushes, `--prefer-actual`
/// pulls, without a terminal the entry is skipped, and without a home
/// directory the target cannot be compared so the repo wins.
pub open spec fn conflict_start_spec(force: bool, prefer_actual: bool, no_interactive: bool, home_known: bool) -> ConflictStart {
    if force {
        ConflictStart::BackupThenPush
    } else if prefer_actual {
        ConflictStart::Done(ConflictOutcome::Resolved(SyncAction::Pull))
    } else if no_interactive {
        ConflictStart::Done(ConflictOutcome::Skipped)
    } else if !home_known {
        ConflictStart::Done(ConflictOutcome::Resolved(SyncAction::Push))
    } else {
        ConflictStart::Ask
    }
}

pub fn conflict_start(force: bool, prefer_actual: bool, no_interactive: bool, home_known: bool) -> (r: ConflictStart)
    ensures
        r == conflict_start_spec(force, prefer_actual, no_interactive, home_known),
{
    if force {
        ConflictStart::BackupThenPush
    } else if prefer_actual {
        ConflictStart::Done(ConflictOutcome::Resolved(SyncAction::Pull))
    } else if no_interactive {
        ConflictStart::Done(ConflictOutcome::Skipped)
    } else if !home_known {
        ConflictStart::Done(ConflictOutcome::Resolved(SyncAction::Push))
    } else {
        ConflictStart::Ask
    }
}

/// The warning shown when a conflict is skipped without a terminal.
pub open spec fn skip_warning_spec(o: ConflictOrigin, source: Seq<char>, target: Seq<char>) -> Seq<char> {
    "conflict ("@ + origin_label(o) + "): "@ + source + " ↔ "@ + target
        + " — skipped (use --force or --prefer-actual to resolve)"@
}

pub fn skip_warning(origin: ConflictOrigin, entry: &Entry) -> (r: String)
    ensures
        r@ == skip_warning_spec(origin, entry@.source, entry@.target),
{
    let mut v: Vec<char> = Vec::new();
    push_str(&mut v, "conflict (");
    push_str(&mut v, origin.label());
    push_str(&mut v, "): ");
    push_str(&mut v, entry.source.as_str());
    push_str(&mut v, " ↔ ");
    push_str(&mut v, entry.target.as_str());
    push_str(&mut v, " — skipped (use --force or --prefer-actual to resolve)");
    string_of(&v)
}

/// A merge is offered for plain files present on both sides.
pub open spec fn supports_merge_spec(e: EntryView, source_exists: bool, target_exists: bool) -> bool {
    !e.encrypted && !e.directory && source_exists && target_exists
}

pub fn supports_merge(entry: &Entry, source_exists: bool, target_exists: bool) -> (r: bool)
    ensures
        r == supports_merge_spec(entry@, source_exists, target_exists),
{
    !entry.encrypted && !entry.directory && source_exists && target_exists
}

/// What one answer to the conflict prompt leads to.
#[derive(Debug, Clone, Copy, PartialEq, Eq, Structural)]
pub enum ConflictStep {
    /// Show the diff, then ask again.
    ShowDiff,
    /// Finished with this outcome.
    Finish(ConflictOutcome),
    /// Back up the target if it exists, then push.
    BackupThenPush,
    /// Try a 3-way merge; ask again if it fails.
    TryMerge,
}

pub open spec fn conflict_step_spec(choice: ConflictChoice) -> ConflictStep {
    match choice {
        ConflictChoice::ShowDiff => ConflictStep::ShowDiff,
        ConflictChoice::KeepLocal => ConflictStep::Finish(ConflictOutcome::Resolved(SyncAction::Pull)),
        ConflictChoice::UseRepo => ConflictStep::BackupThenPush,
        ConflictChoice::Merge => ConflictStep::TryMerge,
        ConflictChoice::Skip => ConflictStep::Finish(ConflictOutcome::Skipped),
    }
}

/// The step that an answer to the conflict prompt leads to.
pub fn conflict_step(choice: ConflictChoice) -> (r: ConflictStep)
    ensures
        r == conflict_step_spec(choice),
{
    match choice {
        ConflictChoice::ShowDiff => ConflictStep::ShowDiff,
        ConflictChoice::KeepLocal => ConflictStep::Finish(ConflictOutcome::Resolved(SyncAction::Pull)),
        ConflictChoice::UseRepo => ConflictStep::BackupThenPush,
        ConflictChoice::Merge => ConflictStep::TryMerge,
        ConflictChoice::Skip => ConflictStep::Finish(ConflictOutcome::Skipped),
    }
}

/// After a merge attempt: merged, or ask again.
pub fn after_merge(merge_ok: bool) -> (r: Option<ConflictOutcome>)
    ensures
        r == (if merge_ok {
            Some(ConflictOutcome::Merged)
        } else {
            None::<ConflictOutcome>
        }),
{
    if merge_ok {
        Some(ConflictOutcome::Merged)
    } else {
        None
    }
}

// ── Reporting ─────────────────────────────────────────────────────

/// The dry-run label of an action.
pub open spec fn dry_run_label_spec(a: SyncAction) -> Seq<char> {
    match a {
        SyncAction::Settled => "ok"@,
        SyncAction::Push | SyncAction::FixSymlink => "would push (repo → actual)"@,
        SyncAction::Pull => "would pull (actual → repo)"@,
        SyncAction::Conflict(o) => match o {
            ConflictOrigin::FirstSeen => "conflict — first-seen (local file pre-dates dotling)"@,
            ConflictOrigin::BothModified => "conflict — both sides modified"@,
            ConflictOrigin::TimestampTie => "conflict — ambiguous timestamp"@,
        },
    }
}

pub fn dry_run_label(action: SyncAction) -> (r: &'static str)
    ensures
        r@ == dry_run_label_spec(action),
{
    match action {
        SyncAction::Settled => "ok",
        SyncAction::Push | SyncAction::FixSymlink => "would push (repo → actual)",
        SyncAction::Pull => "would pull (actual → repo)",
        SyncAction::Conflict(o) => match o {
            ConflictOrigin::FirstSeen => "conflict — first-seen (local file pre-dates dotling)",
            ConflictOrigin::BothModified => "conflict — both sides modified",
            ConflictOrigin::TimestampTie => "conflict — ambiguous timestamp",
        },
    }
}

/// The action name handed to entry hooks.
pub open spec fn hook_action_spec(a: SyncAction) -> Seq<char> {
    match a {
        SyncAction::Push | SyncAction::FixSymlink => "push"@,
        SyncAction::Pull => "pull"@,
        _ => "unknown"@,
    }
}

pub fn hook_action(action: SyncAction) -> (r: &'static str)
    ensures
        r@ == hook_action_spec(action),
{
    match action {
        SyncAction::Push | SyncAction::FixSymlink => "push",
        SyncAction::Pull => "pull",
        _ => "unknown",
    }
}

/// What is fingerprinted after an entry was pushed or pulled.
#[derive(Debug, Clone)]
pub enum FingerprintPlan {
    /// Hash the encrypted repo file and the target.
    Encrypted { enc_path: String },
    /// Hash the plain repo source and the target, and keep a snapshot of the
    /// target as the base of later merges.
    Plain { source_path: String },
    /// Plain directories are not fingerprinted.
    Nothing,
}

/// What is fingerprinted after a transfer: the encrypted repo file (the
/// source itself for a directory, else the source with `.enc`), or the
/// plain source of a file.
pub open spec fn fingerprint_plan_spec(e: EntryView, repo_root: Seq<char>) -> Option<(bool, Seq<char>)> {
    if e.encrypted {
        Some((
            true,
            if e.directory {
                join(repo_root, e.source)
            } else {
                join(repo_root, e.source + ".enc"@)
            },
        ))
    } else if !e.directory {
        Some((false, join(repo_root, e.source)))
    } else {
        None
    }
}

pub fn fingerprint_plan(entry: &Entry, repo_root: &str) -> (r: FingerprintPlan)
    ensures
        match fingerprint_plan_spec(entry@, repo_root@) {
            Some((true, p)) => r matches FingerprintPlan::Encrypted { enc_path } && enc_path@ == p,
            Some((false, p)) => r matches FingerprintPlan::Plain { source_path } && source_path@ == p,
            None => r matches FingerprintPlan::Nothing,
        },
{
    if entry.encrypted {
        let p = if entry.directory {
            join_paths(repo_root, entry.source.as_str())
        } else {
            let mut v: Vec<char> = Vec::new();
            push_str(&mut v, entry.source.as_str());
            push_str(&mut v, ".enc");
            let s = string_of(&v);
            join_paths(repo_root, s.as_str())
        };
        FingerprintPlan::Encrypted { enc_path: p }
    } else if !entry.directory {
        FingerprintPlan::Plain { source_path: join_paths(repo_root, entry.source.as_str()) }
    } else {
        FingerprintPlan::Nothing
    }
}

// ── Templates ─────────────────────────────────────────────────────

/// The BLAKE2b-512 digest of some bytes.
pub uninterp spec fn blake2b512(data: Seq<u8>) -> Seq<u8>;

/// `Blake2b512::digest`.
///
/// Trusted: the `blake2` crate's `Digest::digest` hashes the bytes with
/// BLAKE2b-512, whose output is 64 bytes; the digest is named here and not
/// written out.
#[verifier::external_body]
pub(crate) fn blake2b_digest(data: &[u8]) -> (r: Vec<u8>)
    ensures
        r@ == blake2b512(data@),
        r@.len() == 64,
{
    <blake2::Blake2b512 as Digest>::digest(data).to_vec()
}

pub(crate) fn bytes_eq(a: &[u8], b: &[u8]) -> (r: bool)
    ensures
        r == (a@ == b@),
{
    if a.len() != b.len() {
        return false;
    }
    let mut i: usize = 0;
    while i < a.len()
        invariant
            i <= a@.len(),
            a@.len() == b@.len(),
            forall|k: int| 0 <= k < i ==> a@[k] == b@[k],
        decreases a@.len() - i,
    {
        if a[i] != b[i] {
            assert(a@[i as int] != b@[i as int]);
            return false;
        }
        i += 1;
    }
    assert(a@ =~= b@);
    true
}

/// A rendered template is up to date when the deployed file could be read
/// and hashes the same as the rendering.
pub open spec fn template_up_to_date_spec(rendered: Seq<u8>, current: Option<Seq<u8>>) -> bool {
    match current {
        Some(c) => blake2b512(rendered) == blake2b512(c),
        None => false,
    }
}

/// Whether a rendered template needs no writing; `current` is the deployed
/// file's content, `None` when it is missing or unreadable.
pub fn template_up_to_date(rendered: &[u8], current: Option<&[u8]>) -> (r: bool)
    ensures
        r == template_up_to_date_spec(rendered@, match current {
            Some(c) => Some(c@),
            None => None,
        }),
{
    let rh = blake2b_digest(rendered);
    match current {
        Some(c) => {
            let ch = blake2b_digest(c);
            bytes_eq(&rh, &ch)
        },
        None => false,
    }
}

// ── The run over the entries ──────────────────────────────────────

/// How one entry ended, for the run's counts. The flag of `Pushed`,
/// `Pulled` and `Skipped` says that the entry's after hook failed.
#[derive(Debug, Clone, Copy, PartialEq, Eq, Structural)]
pub enum EntryOutcome {
    Pushed(bool),
    Pulled(bool),
    Merged,
    Skipped(bool),
    /// The entry's before hook or its transfer failed.
    Failed,
    /// Dry run: reported only, not counted.
    Reported,
}

/// What the caller does with one entry, once its direction is known.
#[derive(Debug, Clone, Copy, PartialEq, Eq, Structural)]
pub enum EntryPlan {
    /// Nothing more to do; the entry ends so.
    Done(EntryOutcome),
    /// Dry run: print what would happen; describe the entry's hooks when
    /// `announce_hooks`; count it as skipped when `count_skipped`.
    Report { announce_hooks: bool, count_skipped: bool },
    /// A conflict to settle (by the flags or by asking), then
    /// [`conflict_plan`].
    Settle(ConflictOrigin),
    /// In this order: the before hook (a failure ends the entry as failed),
    /// a backup of the target when `backup_first`, the copy in the
    /// direction (`pull` from the target into the repo, else to the target),
    /// the fingerprints, the after hook.
    Transfer { pull: bool, backup_first: bool },
    /// A template: the before hook, a backup of the target when
    /// `backup_first`, rendering and writing the target when it changed,
    /// the fingerprints, the after hook.
    Render { backup_first: bool },
}

/// Whether a plan writes a file.
pub open spec fn plan_writes(p: EntryPlan) -> bool {
    p is Transfer || p is Render
}

/// Whether a plan runs the entry's hooks (rather than describing them).
pub open spec fn plan_runs_hooks(p: EntryPlan) -> bool {
    p is Transfer || p is Render
}

/// Whether a plan asks the user something.
pub open spec fn plan_prompts(p: EntryPlan) -> bool {
    p is Settle
}

/// The plan for a transfer in a settled direction: a push backs up the
/// target first with `--backup` or `--force`.
pub open spec fn transfer_plan_spec(action: SyncAction, always_backup: bool, force: bool) -> EntryPlan {
    if action == SyncAction::Pull {
        EntryPlan::Transfer { pull: true, backup_first: false }
    } else {
        EntryPlan::Transfer { pull: false, backup_first: always_backup || force }
    }
}

/// The plan of one entry: a template is rendered (in a dry run, reported
/// and counted as skipped); otherwise a dry run reports the action, a
/// settled entry is skipped, a conflict is settled first, and the rest is
/// transferred.
pub open spec fn entry_plan_spec(
    dry_run: bool,
    always_backup: bool,
    force: bool,
    template: bool,
    action: SyncAction,
) -> EntryPlan {
    if template {
        if dry_run {
            EntryPlan::Report { announce_hooks: true, count_skipped: true }
        } else {
            EntryPlan::Render { backup_first: always_backup }
        }
    } else if dry_run {
        EntryPlan::Report { announce_hooks: action != SyncAction::Settled, count_skipped: false }
    } else {
        match action {
            SyncAction::Settled => EntryPlan::Done(EntryOutcome::Skipped(false)),
            SyncAction::Conflict(o) => EntryPlan::Settle(o),
            _ => transfer_plan_spec(action, always_backup, force),
        }
    }
}

fn transfer_plan(action: SyncAction, always_backup: bool, force: bool) -> (r: EntryPlan)
    ensures
        r == transfer_plan_spec(action, always_backup, force),
{
    if action == SyncAction::Pull {
        EntryPlan::Transfer { pull: true, backup_first: false }
    } else {
        EntryPlan::Transfer { pull: false, backup_first: always_backup || force }
    }
}

/// Plan one entry from its resolved action (for a template the action is
/// not looked at). A dry run writes nothing, runs no hook and asks nothing.
pub fn entry_plan(dry_run: bool, always_backup: bool, force: bool, template: bool, action: SyncAction) -> (r: EntryPlan)
    ensures
        r == entry_plan_spec(dry_run, always_backup, force, template, action),
        dry_run ==> !plan_writes(r) && !plan_runs_hooks(r) && !plan_prompts(r),
        !dry_run && !template && action == SyncAction::Settled ==> r == EntryPlan::Done(EntryOutcome::Skipped(false)),
{
    if template {
        if dry_run {
            EntryPlan::Report { announce_hooks: true, count_skipped: true }
        } else {
            EntryPlan::Render { backup_first: always_backup }
        }
    } else if dry_run {
        EntryPlan::Report { announce_hooks: action != SyncAction::Settled, count_skipped: false }
    } else {
        match action {
            SyncAction::Settled => EntryPlan::Done(EntryOutcome::Skipped(false)),
            SyncAction::Conflict(o) => EntryPlan::Settle(o),
            _ => transfer_plan(action, always_backup, force),
        }
    }
}

/// The plan after a conflict was settled: a merge or a skip ends the entry;
/// a chosen direction is transferred.
pub open spec fn conflict_plan_spec(outcome: ConflictOutcome, always_backup: bool, force: bool) -> EntryPlan {
    match outcome {
        ConflictOutcome::Resolved(a) => transfer_plan_spec(a, always_backup, force),
        ConflictOutcome::Merged => EntryPlan::Done(EntryOutcome::Merged),
        ConflictOutcome::Skipped => EntryPlan::Done(EntryOutcome::Skipped(false)),
    }
}

pub fn conflict_plan(outcome: ConflictOutcome, always_backup: bool, force: bool) -> (r: EntryPlan)
    ensures
        r == conflict_plan_spec(outcome, always_backup, force),
{
    match outcome {
        ConflictOutcome::Resolved(a) => transfer_plan(a, always_backup, force),
        ConflictOutcome::Merged => EntryPlan::Done(EntryOutcome::Merged),
        ConflictOutcome::Skipped => EntryPlan::Done(EntryOutcome::Skipped(false)),
    }
}

/// How the steps of a transfer or a rendering went.
#[derive(Debug, Clone, Copy, PartialEq, Eq, Structural)]
pub enum StepsResult {
    /// The before hook failed; nothing else was done.
    BeforeHookFailed,
    /// The copy, the encryption or the rendering failed.
    TransferFailed,
    /// Done; `changed` is whether a file was written (a template whose
    /// output is unchanged is not), `after_hook_ok` whether the after hook
    /// (if any) succeeded.
    Done { changed: bool, after_hook_ok: bool },
}

/// The outcome of a transfer or a rendering: a failed step fails the
/// entry; otherwise it was pulled, pushed, or (unchanged) skipped.
pub open spec fn steps_outcome_spec(pull: bool, result: StepsResult) -> EntryOutcome {
    match result {
        StepsResult::BeforeHookFailed => EntryOutcome::Failed,
        StepsResult::TransferFailed => EntryOutcome::Failed,
        StepsResult::Done { changed, after_hook_ok } => if !changed {
            EntryOutcome::Skipped(!after_hook_ok)
        } else if pull {
            EntryOutcome::Pulled(!after_hook_ok)
        } else {
            EntryOutcome::Pushed(!after_hook_ok)
        },
    }
}

pub fn steps_outcome(pull: bool, result: StepsResult) -> (r: EntryOutcome)
    ensures
        r == steps_outcome_spec(pull, result),
{
    match result {
        StepsResult::BeforeHookFailed => EntryOutcome::Failed,
        StepsResult::TransferFailed => EntryOutcome::Failed,
        StepsResult::Done { changed, after_hook_ok } => if !changed {
            EntryOutcome::Skipped(!after_hook_ok)
        } else if pull {
            EntryOutcome::Pulled(!after_hook_ok)
        } else {
            EntryOutcome::Pushed(!after_hook_ok)
        },
    }
}

/// The counts of a run.
#[derive(Debug, Clone, Copy, PartialEq, Eq, Structural)]
pub struct Counts {
    pub pushed: usize,
    pub pulled: usize,
    pub merged: usize,
    pub skipped: usize,
    pub errors: usize,
}

/// One more, stopping at the largest `usize`.
pub open spec fn inc(n: usize) -> usize {
    if n < usize::MAX {
        (n + 1) as usize
    } else {
        n
    }
}

fn inc_exec(n: usize) -> (r: usize)
    ensures
        r == inc(n),
{
    if n < usize::MAX {
        n + 1
    } else {
        n
    }
}

/// The counts after one entry: its kind is counted, and a failed after
/// hook counts as an error as well.
pub open spec fn tally_spec(c: Counts, o: EntryOutcome) -> Counts {
    match o {
        EntryOutcome::Pushed(f) => Counts {
            pushed: inc(c.pushed),
            errors: if f {
                inc(c.errors)
            } else {
                c.errors
            },
            ..c
        },
        EntryOutcome::Pulled(f) => Counts {
            pulled: inc(c.pulled),
            errors: if f {
                inc(c.errors)
            } else {
                c.errors
            },
            ..c
        },
        EntryOutcome::Merged => Counts { merged: inc(c.merged), ..c },
        EntryOutcome::Skipped(f) => Counts {
            skipped: inc(c.skipped),
            errors: if f {
                inc(c.errors)
            } else {
                c.errors
            },
            ..c
        },
        EntryOutcome::Failed => Counts { errors: inc(c.errors), ..c },
        EntryOutcome::Reported => c,
    }
}

impl Counts {
    /// No entries counted yet.
    pub fn new() -> (r: Counts)
        ensures
            r == (Counts { pushed: 0, pulled: 0, merged: 0, skipped: 0, errors: 0 }),
    {
        Counts { pushed: 0, pulled: 0, merged: 0, skipped: 0, errors: 0 }
    }

    /// The entries handled without error: pushed, pulled, merged or
    /// skipped (stopping at the largest `usize`).
    pub open spec fn handled_spec(&self) -> int {
        let t = self.pushed + self.pulled + self.merged + self.skipped;
        if t <= usize::MAX {
            t
        } else {
            usize::MAX as int
        }
    }

    pub fn handled(&self) -> (r: usize)
        ensures
            r == self.handled_spec(),
    {
        let mut t: u128 = self.pushed as u128;
        t = t + self.pulled as u128;
        t = t + self.merged as u128;
        t = t + self.skipped as u128;
        if t <= usize::MAX as u128 {
            t as usize
        } else {
            usize::MAX
        }
    }
}

/// Count one entry's outcome.
pub fn tally(c: Counts, outcome: EntryOutcome) -> (r: Counts)
    ensures
        r == tally_spec(c, outcome),
{
    match outcome {
        EntryOutcome::Pushed(f) => Counts {
            pushed: inc_exec(c.pushed),
            errors: if f {
                inc_exec(c.errors)
            } else {
                c.errors
            },
            ..c
        },
        EntryOutcome::Pulled(f) => Counts {
            pulled: inc_exec(c.pulled),
            errors: if f {
                inc_exec(c.errors)
            } else {
                c.errors
            },
            ..c
        },
        EntryOutcome::Merged => Counts { merged: inc_exec(c.merged), ..c },
        EntryOutcome::Skipped(f) => Counts {
            skipped: inc_exec(c.skipped),
            errors: if f {
                inc_exec(c.errors)
            } else {
                c.errors
            },
            ..c
        },
        EntryOutcome::Failed => Counts { errors: inc_exec(c.errors), ..c },
        EntryOutcome::Reported => c,
    }
}

/// What a run does before and after its entries.
#[derive(Debug, Clone, Copy, PartialEq, Eq, Structural)]
pub struct RunPlan {
    /// Ask for template variables that are missing.
    pub prompt_missing_vars: bool,
    /// Run the global after hook.
    pub run_after_hook: bool,
    /// Save the fingerprints.
    pub save_fingerprints: bool,
    /// Print the summary of the counts (else the dry-run note).
    pub print_summary: bool,
}

/// A dry run asks nothing, runs no after hook, saves nothing and prints
/// the dry-run note; otherwise missing variables are asked for where a
/// terminal is, the after hook runs if there is one, and the fingerprints
/// are saved when some were recorded.
pub open spec fn run_plan_spec(dry_run: bool, no_interactive: bool, has_after_hook: bool, fingerprints_changed: bool) -> RunPlan {
    RunPlan {
        prompt_missing_vars: !dry_run && !no_interactive,
        run_after_hook: !dry_run && has_after_hook,
        save_fingerprints: !dry_run && fingerprints_changed,
        print_summary: !dry_run,
    }
}

pub fn run_plan(dry_run: bool, no_interactive: bool, has_after_hook: bool, fingerprints_changed: bool) -> (r: RunPlan)
    ensures
        r == run_plan_spec(dry_run, no_interactive, has_after_hook, fingerprints_changed),
        dry_run ==> !r.prompt_missing_vars && !r.run_after_hook && !r.save_fingerprints && !r.print_summary,
{
    RunPlan {
        prompt_missing_vars: !dry_run && !no_interactive,
        run_after_hook: !dry_run && has_after_hook,
        save_fingerprints: !dry_run && fingerprints_changed,
        print_summary: !dry_run,
    }
}

/// A dry run writes no file, runs no entry hook, asks nothing, saves no
/// fingerprints and runs no global after hook, whatever the entry and its
/// direction.
pub proof fn law_dry_run_changes_nothing(
    always_backup: bool,
    force: bool,
    template: bool,
    action: SyncAction,
    no_interactive: bool,
    has_after_hook: bool,
    fingerprints_changed: bool,
)
    ensures
        ({
            let p = entry_plan_spec(true, always_backup, force, template, action);
            !plan_writes(p) && !plan_runs_hooks(p) && !plan_prompts(p)
        }),
        ({
            let r = run_plan_spec(true, no_interactive, has_after_hook, fingerprints_changed);
            !r.prompt_missing_vars && !r.run_after_hook && !r.save_fingerprints
        }),
{
}

/// A push that overwrites the target backs it up first with `--backup` or
/// `--force`; a pull never touches the target.
pub proof fn law_backup_before_overwrite(action: SyncAction, always_backup: bool, force: bool)
    requires
        action == SyncAction::Push || action == SyncAction::FixSymlink,
        always_backup || force,
    ensures
        entry_plan_spec(false, always_backup, force, false, action) == (EntryPlan::Transfer {
            pull: false,
            backup_first: true,
        }),
        conflict_plan_spec(ConflictOutcome::Resolved(action), always_backup, force) == (EntryPlan::Transfer {
            pull: false,
            backup_first: true,
        }),
{
}

// ── Laws ──────────────────────────────────────────────────────────

/// A copy-mode entry whose two sides hold the same bytes is never touched.
pub proof fn law_identical_copy_is_settled(who: WhichSide, mtimes: MtimeObservation, prefer_actual: bool)
    ensures
        copy_action_spec(true, true, true, who, mtimes, prefer_actual) == SyncAction::Settled,
{
}

/// A copy-mode entry with no recorded history whose modification times
/// cannot be had is a conflict, never silently overwritten in either
/// direction.
pub proof fn law_unknown_history_is_conflict(prefer_actual: bool)
    ensures
        copy_action_spec(true, true, false, WhichSide::Unknown, MtimeObservation::Unknown, prefer_actual)
            == SyncAction::Conflict(ConflictOrigin::FirstSeen),
        copy_action_spec(true, true, false, WhichSide::Unknown, MtimeObservation::Unreadable, prefer_actual)
            == SyncAction::Conflict(ConflictOrigin::FirstSeen),
{
}

/// When only one side changed since the last sync, the change flows to the
/// other side: repo changes are pushed, local changes are pulled.
pub proof fn law_one_sided_change_flows(mtimes: MtimeObservation, prefer_actual: bool)
    ensures
        copy_action_spec(true, true, false, WhichSide::RepoOnly, mtimes, prefer_actual) == SyncAction::Push,
        copy_action_spec(true, true, false, WhichSide::ActualOnly, mtimes, prefer_actual) == SyncAction::Pull,
{
}

/// `--force` always lets the repo win, and `--prefer-actual` the local file,
/// whatever else is asked.
pub proof fn law_conflict_flags(prefer_actual: bool, no_interactive: bool, home_known: bool)
    ensures
        conflict_start_spec(true, prefer_actual, no_interactive, home_known) == ConflictStart::BackupThenPush,
        conflict_start_spec(false, true, no_interactive, home_known) == ConflictStart::Done(
            ConflictOutcome::Resolved(SyncAction::Pull),
        ),
{
}

/// An encrypted entry, and a copied one with no recorded history, follow
/// their newer side; on equal times the repo wins, and the local file wins
/// with `--prefer-actual`.
pub proof fn law_newer_side_wins(repo: u128, target: u128, prefer_actual: bool)
    ensures
        ({
            let m = MtimeObservation::Known { repo, target };
            let expected = if target > repo {
                SyncAction::Pull
            } else if target < repo {
                SyncAction::Push
            } else if prefer_actual {
                SyncAction::Pull
            } else {
                SyncAction::Push
            };
            &&& encrypted_action_spec(true, true, m, prefer_actual) == expected
            &&& copy_action_spec(true, true, false, WhichSide::Unknown, m, prefer_actual) == expected
        }),
{
}

} // verus!
