use snaproll::rollback::{
    apply, is_mutating, next_action, recovery_plan, start_permitted, DiskObservation, MountVia,
    RollbackAction, RollbackConfig, RollbackState,
};

fn obs(mounted_via: MountVia, primary_exists: bool, temporary_exists: bool) -> DiskObservation {
    DiskObservation { mounted_via, primary_exists, temporary_exists }
}

#[test]
fn a_clean_rollback_renames_then_clones() {
    let disk = obs(MountVia::Primary, true, false);
    let mut state = RollbackState::Idle;

    assert_eq!(next_action(state, disk), RollbackAction::CreateSafetySnapshot);
    state = apply(state, RollbackAction::CreateSafetySnapshot, true);
    assert_eq!(state, RollbackState::SafetySnapshotted);

    assert_eq!(next_action(state, disk), RollbackAction::RenamePrimaryToTemporary);
    state = apply(state, RollbackAction::RenamePrimaryToTemporary, true);
    assert_eq!(state, RollbackState::RootDetached);

    assert_eq!(next_action(state, disk), RollbackAction::CloneTargetToPrimary);
    state = apply(state, RollbackAction::CloneTargetToPrimary, true);
    assert_eq!(state, RollbackState::RootReattached);

    assert_eq!(next_action(state, disk), RollbackAction::ConfirmReboot);
    state = apply(state, RollbackAction::ConfirmReboot, true);
    assert_eq!(state, RollbackState::Complete);
    assert_eq!(next_action(state, disk), RollbackAction::Stop);
}

#[test]
fn a_temporary_mounted_root_deletes_the_stale_primary() {
    let disk = obs(MountVia::Temporary, true, true);
    let mut state = apply(RollbackState::Idle, RollbackAction::CreateSafetySnapshot, true);

    let action = next_action(state, disk);
    assert_eq!(action, RollbackAction::DeleteStalePrimary);
    state = apply(state, action, true);
    assert_eq!(state, RollbackState::RootDetached);
    assert_eq!(next_action(state, disk), RollbackAction::CloneTargetToPrimary);
}

#[test]
fn a_stale_temporary_is_deleted_before_the_rename() {
    let mut state = apply(RollbackState::Idle, RollbackAction::CreateSafetySnapshot, true);

    let with_stale = obs(MountVia::Primary, true, true);
    let action = next_action(state, with_stale);
    assert_eq!(action, RollbackAction::DeleteStaleTemporary);
    state = apply(state, action, true);
    assert_eq!(state, RollbackState::SafetySnapshotted);

    let cleaned = obs(MountVia::Primary, true, false);
    assert_eq!(next_action(state, cleaned), RollbackAction::RenamePrimaryToTemporary);
}

#[test]
fn an_already_detached_root_needs_no_storage_work() {
    let disk = obs(MountVia::Temporary, false, true);
    let state = apply(RollbackState::Idle, RollbackAction::CreateSafetySnapshot, true);
    let action = next_action(state, disk);
    assert_eq!(action, RollbackAction::MarkDetached);
    assert!(!is_mutating(action));
    assert_eq!(apply(state, action, true), RollbackState::RootDetached);
}

#[test]
fn a_failed_safety_snapshot_aborts_before_any_change() {
    let state = apply(RollbackState::Idle, RollbackAction::CreateSafetySnapshot, false);
    assert_eq!(state, RollbackState::Aborted);
    assert_eq!(
        next_action(state, obs(MountVia::Primary, true, false)),
        RollbackAction::Stop
    );
}

#[test]
fn a_failed_clone_is_dangerous_and_never_mutates_again() {
    let disk = obs(MountVia::Primary, false, true);
    let mut state = RollbackState::RootDetached;
    state = apply(state, RollbackAction::CloneTargetToPrimary, false);
    assert_eq!(state, RollbackState::Dangerous);

    let report = next_action(state, disk);
    assert_eq!(report, RollbackAction::ReportRecovery);
    assert!(!is_mutating(report));

    for ok in [true, false] {
        assert_eq!(
            apply(state, RollbackAction::CloneTargetToPrimary, ok),
            RollbackState::Dangerous
        );
        assert_eq!(apply(state, RollbackAction::ReportRecovery, ok), RollbackState::Dangerous);
        assert_eq!(
            apply(state, RollbackAction::CreateSafetySnapshot, ok),
            RollbackState::Dangerous
        );
    }
}

#[test]
fn the_recovery_report_carries_the_exact_paths() {
    let cfg = RollbackConfig {
        subvolume_dir: "/mnt".as_bytes().to_vec(),
        primary_name: "@".as_bytes().to_vec(),
        temporary_name: "@_tmp".as_bytes().to_vec(),
        target_name: "@_arch-1-snapshot-1-20250101".as_bytes().to_vec(),
    };
    let plan = recovery_plan(&cfg);
    assert_eq!(plan.primary_path, "/mnt/@".as_bytes().to_vec());
    assert_eq!(plan.temporary_path, "/mnt/@_tmp".as_bytes().to_vec());
    assert_eq!(
        plan.target_path,
        "/mnt/@_arch-1-snapshot-1-20250101".as_bytes().to_vec()
    );
}

#[test]
fn a_missing_primary_blocks_a_new_run_unless_forced() {
    let suspicious = obs(MountVia::Temporary, false, true);
    assert!(!start_permitted(suspicious, false));
    assert!(start_permitted(suspicious, true));
    let healthy = obs(MountVia::Primary, true, false);
    assert!(start_permitted(healthy, false));
}

#[test]
fn declining_the_reboot_still_completes() {
    let state = apply(RollbackState::RootReattached, RollbackAction::ConfirmReboot, false);
    assert_eq!(state, RollbackState::Complete);
}
