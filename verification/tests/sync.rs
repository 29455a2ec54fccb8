use dotling::config::{DeployMethod, Entry};
use dotling::deploy::{check_state, deploy_plan, source_path, target_path, DeployPlan, EntryState, TargetObservation};
use dotling::fingerprint::FingerprintStore;
use dotling::sync::{
    action_probe, after_merge, conflict_plan, conflict_start, conflict_step, dry_run_label, enc_path,
    entry_plan, fingerprint_plan, hook_action, resolve_action, resolve_copy_action, resolve_encrypted_action,
    run_plan, skip_warning, steps_outcome, supports_merge, tally, template_up_to_date, ActionObservation,
    ActionProbe, ConflictOrigin, ConflictOutcome, ConflictStart, ConflictStep, Counts, EntryOutcome,
    EntryPlan, FingerprintPlan, MtimeObservation, StepsResult, SyncAction,
};
use dotling::ui::ConflictChoice;

fn entry(source: &str, target: &str) -> Entry {
    Entry {
        source: source.into(),
        target: target.into(),
        method: None,
        encrypted: false,
        directory: false,
        template: false,
        os: None,
        permissions: None,
        before: None,
        after: None,
    }
}

fn copy_entry(source: &str, target: &str) -> Entry {
    let mut e = entry(source, target);
    e.method = Some(DeployMethod::Copy);
    e
}

#[test]
fn identical_copy_is_settled() {
    let e = copy_entry("shell/zshrc", "~/.zshrc");
    let store = FingerprintStore::new("/tmp/fp", None);
    assert_eq!(resolve_copy_action(&e, &store, true, true, true, None, None, MtimeObservation::Unknown, false), SyncAction::Settled);
}

#[test]
fn unknown_history_is_a_first_seen_conflict() {
    let e = copy_entry("shell/zshrc", "~/.zshrc");
    let store = FingerprintStore::new("/tmp/fp", None);
    assert_eq!(
        resolve_copy_action(&e, &store, true, true, false, Some("s"), Some("t"), MtimeObservation::Unknown, false),
        SyncAction::Conflict(ConflictOrigin::FirstSeen)
    );
}

#[test]
fn unknown_history_follows_the_newer_side() {
    let e = copy_entry("shell/zshrc", "~/.zshrc");
    let store = FingerprintStore::new("/tmp/fp", None);
    let m = |repo, target| MtimeObservation::Known { repo, target };
    let r = |mt, prefer| resolve_copy_action(&e, &store, true, true, false, Some("s"), Some("t"), mt, prefer);
    assert_eq!(r(m(1, 2), false), SyncAction::Pull);
    assert_eq!(r(m(2, 1), true), SyncAction::Push);
    assert_eq!(r(m(3, 3), false), SyncAction::Push);
    assert_eq!(r(m(3, 3), true), SyncAction::Pull);
}

#[test]
fn sync_plans_and_counts() {
    for template in [false, true] {
        for action in [SyncAction::Push, SyncAction::Pull, SyncAction::Settled, SyncAction::Conflict(ConflictOrigin::FirstSeen)] {
            let p = entry_plan(true, true, true, template, action);
            assert!(matches!(p, EntryPlan::Report { .. }));
        }
    }
    assert_eq!(entry_plan(false, false, false, false, SyncAction::Settled), EntryPlan::Done(EntryOutcome::Skipped(false)));
    assert_eq!(entry_plan(false, true, false, false, SyncAction::Push), EntryPlan::Transfer { pull: false, backup_first: true });
    assert_eq!(entry_plan(false, true, true, false, SyncAction::Pull), EntryPlan::Transfer { pull: true, backup_first: false });
    assert_eq!(
        entry_plan(false, false, false, false, SyncAction::Conflict(ConflictOrigin::BothModified)),
        EntryPlan::Settle(ConflictOrigin::BothModified)
    );
    assert_eq!(entry_plan(false, true, false, true, SyncAction::Push), EntryPlan::Render { backup_first: true });
    assert_eq!(conflict_plan(ConflictOutcome::Merged, false, false), EntryPlan::Done(EntryOutcome::Merged));
    assert_eq!(
        conflict_plan(ConflictOutcome::Resolved(SyncAction::Push), false, true),
        EntryPlan::Transfer { pull: false, backup_first: true }
    );
    assert_eq!(steps_outcome(true, StepsResult::BeforeHookFailed), EntryOutcome::Failed);
    assert_eq!(steps_outcome(true, StepsResult::Done { changed: true, after_hook_ok: false }), EntryOutcome::Pulled(true));
    assert_eq!(steps_outcome(false, StepsResult::Done { changed: false, after_hook_ok: true }), EntryOutcome::Skipped(false));
    let mut c = Counts::new();
    for o in [EntryOutcome::Pushed(true), EntryOutcome::Pulled(false), EntryOutcome::Merged, EntryOutcome::Skipped(false), EntryOutcome::Failed, EntryOutcome::Reported] {
        c = tally(c, o);
    }
    assert_eq!(c, Counts { pushed: 1, pulled: 1, merged: 1, skipped: 1, errors: 2 });
    assert_eq!(c.handled(), 4);
    let dry = run_plan(true, false, true, true);
    assert!(!dry.run_after_hook && !dry.save_fingerprints && !dry.prompt_missing_vars && !dry.print_summary);
    let real = run_plan(false, false, true, false);
    assert!(real.run_after_hook && !real.save_fingerprints && real.prompt_missing_vars && real.print_summary);
}

#[test]
fn one_sided_changes_flow_the_other_way() {
    let e = copy_entry("a", "~/.a");
    let mut store = FingerprintStore::new("/tmp/fp", None);
    store.record_plain("a", "s0", "t0");
    assert_eq!(resolve_copy_action(&e, &store, true, true, false, Some("s1"), Some("t0"), MtimeObservation::Unknown, false), SyncAction::Push);
    assert_eq!(resolve_copy_action(&e, &store, true, true, false, Some("s0"), Some("t1"), MtimeObservation::Unknown, false), SyncAction::Pull);
    assert_eq!(
        resolve_copy_action(&e, &store, true, true, false, Some("s1"), Some("t1"), MtimeObservation::Unknown, false),
        SyncAction::Conflict(ConflictOrigin::BothModified)
    );
    assert_eq!(resolve_copy_action(&e, &store, true, false, false, None, None, MtimeObservation::Unknown, false), SyncAction::Push);
    assert_eq!(resolve_copy_action(&e, &store, false, true, false, None, None, MtimeObservation::Unknown, false), SyncAction::Pull);
    assert_eq!(resolve_copy_action(&e, &store, false, false, false, None, None, MtimeObservation::Unknown, false), SyncAction::Settled);
}

#[test]
fn encrypted_newer_side_wins() {
    let m = |repo, target| MtimeObservation::Known { repo, target };
    assert_eq!(resolve_encrypted_action(true, true, m(5, 9), false), SyncAction::Pull);
    assert_eq!(resolve_encrypted_action(true, true, m(9, 5), true), SyncAction::Push);
    assert_eq!(resolve_encrypted_action(true, true, m(7, 7), false), SyncAction::Push);
    assert_eq!(resolve_encrypted_action(true, true, m(7, 7), true), SyncAction::Pull);
    assert_eq!(
        resolve_encrypted_action(true, true, MtimeObservation::Unknown, false),
        SyncAction::Conflict(ConflictOrigin::TimestampTie)
    );
    assert_eq!(resolve_encrypted_action(true, true, MtimeObservation::Unreadable, false), SyncAction::Push);
}

#[test]
fn probes_and_observed_actions() {
    let store = FingerprintStore::new("/tmp/fp", None);
    let link = entry("a", "~/.a");
    assert_eq!(action_probe(&link, DeployMethod::Symlink), ActionProbe::Symlink);
    let obs = ActionObservation::Symlink(EntryState::Broken);
    assert_eq!(resolve_action(&link, DeployMethod::Symlink, true, &obs, &store, false), SyncAction::FixSymlink);
    assert_eq!(resolve_action(&link, DeployMethod::Symlink, false, &obs, &store, false), SyncAction::Push);
    let mut enc = entry("b", "~/.b");
    enc.encrypted = true;
    assert_eq!(action_probe(&enc, DeployMethod::Symlink), ActionProbe::Encrypted);
}

#[test]
fn conflict_resolution_steps() {
    assert_eq!(conflict_start(true, true, true, true), ConflictStart::BackupThenPush);
    assert_eq!(
        conflict_start(false, true, false, true),
        ConflictStart::Done(ConflictOutcome::Resolved(SyncAction::Pull))
    );
    assert_eq!(conflict_start(false, false, true, true), ConflictStart::Done(ConflictOutcome::Skipped));
    assert_eq!(
        conflict_start(false, false, false, false),
        ConflictStart::Done(ConflictOutcome::Resolved(SyncAction::Push))
    );
    assert_eq!(conflict_start(false, false, false, true), ConflictStart::Ask);
    assert_eq!(conflict_step(ConflictChoice::Merge), ConflictStep::TryMerge);
    assert_eq!(conflict_step(ConflictChoice::UseRepo), ConflictStep::BackupThenPush);
    assert_eq!(after_merge(true), Some(ConflictOutcome::Merged));
    assert_eq!(after_merge(false), None);
}

#[test]
fn reporting_labels() {
    assert_eq!(dry_run_label(SyncAction::Settled), "ok");
    assert_eq!(dry_run_label(SyncAction::FixSymlink), "would push (repo → actual)");
    assert_eq!(hook_action(SyncAction::Pull), "pull");
    assert_eq!(hook_action(SyncAction::Settled), "unknown");
    let e = entry("a", "~/.a");
    assert_eq!(
        skip_warning(ConflictOrigin::BothModified, &e),
        "conflict (both-modified): a ↔ ~/.a — skipped (use --force or --prefer-actual to resolve)"
    );
    assert!(supports_merge(&e, true, true));
    assert!(!supports_merge(&e, true, false));
}

#[test]
fn encrypted_files_and_fingerprints() {
    let mut e = entry("ssh/config", "~/.ssh/config");
    e.encrypted = true;
    assert_eq!(enc_path(&e, "/r"), "/r/ssh/config.enc");
    assert!(matches!(fingerprint_plan(&e, "/r"), FingerprintPlan::Encrypted { enc_path } if enc_path == "/r/ssh/config.enc"));
    assert!(template_up_to_date(b"same", Some(b"same")));
    assert!(!template_up_to_date(b"same", Some(b"diff")));
    assert!(!template_up_to_date(b"same", None));
}

fn obs(exists: bool, is_symlink: bool, link: Option<&str>, identical: Option<bool>) -> TargetObservation {
    TargetObservation { exists, is_symlink, link_target: link.map(|s| s.to_string()), identical }
}

#[test]
fn deployment_states() {
    let e = entry("shell/zshrc", "~/.zshrc");
    let home = Some("/h");
    assert_eq!(target_path(&e, "/h"), "/h/.zshrc");
    assert_eq!(source_path(&e, "/r"), "/r/shell/zshrc");
    assert_eq!(check_state(&e, "/r", DeployMethod::Symlink, home, &obs(false, false, None, None)), EntryState::Missing);
    assert_eq!(
        check_state(&e, "/r", DeployMethod::Symlink, home, &obs(true, true, Some("/r/shell/zshrc"), None)),
        EntryState::Deployed
    );
    assert_eq!(
        check_state(&e, "/r", DeployMethod::Symlink, home, &obs(true, true, Some("/elsewhere"), None)),
        EntryState::Broken
    );
    assert_eq!(check_state(&e, "/r", DeployMethod::Symlink, home, &obs(true, false, None, None)), EntryState::Conflict);
    assert_eq!(
        check_state(&e, "/r", DeployMethod::Symlink, home, &obs(false, true, Some("/r/shell/zshrc"), None)),
        EntryState::Broken
    );
    let c = copy_entry("shell/zshrc", "~/.zshrc");
    assert_eq!(check_state(&c, "/r", DeployMethod::Symlink, home, &obs(true, false, None, Some(false))), EntryState::Modified);
}

#[test]
fn deployment_plans() {
    let e = entry("shell/zshrc", "~/.zshrc");
    let missing = deploy_plan(&e, "/r", DeployMethod::Symlink, "/h", false, &obs(false, false, None, None), false);
    assert_eq!(missing.unwrap_err().to_text(), "`shell/zshrc`: source `/r/shell/zshrc` does not exist in repo");
    let unmanaged = deploy_plan(&e, "/r", DeployMethod::Symlink, "/h", true, &obs(true, false, None, None), false);
    assert_eq!(
        unmanaged.unwrap_err().to_text(),
        "`shell/zshrc`: unmanaged file exists at `/h/.zshrc` — use --force to overwrite"
    );
    let forced = deploy_plan(&e, "/r", DeployMethod::Symlink, "/h", true, &obs(true, false, None, None), true).unwrap();
    assert_eq!(forced, DeployPlan::Deploy { remove_existing: true, method: DeployMethod::Symlink });
    let done = deploy_plan(&e, "/r", DeployMethod::Symlink, "/h", true, &obs(true, true, Some("/r/shell/zshrc"), None), false).unwrap();
    assert_eq!(done, DeployPlan::Nothing);
}
