//! Rollback orchestrator: the state machine that swaps the live root for a
//! chosen snapshot.
//!
//! The machine never touches storage itself. A driver asks `next_action`
//! what to do, performs the storage primitive, and reports the outcome to
//! `apply`; the mount table and directory state are re-read before every
//! decision, never cached. The run is
//!
//! ```text
//! Idle -> SafetySnapshotted -> RootDetached -> RootReattached -> Complete
//! ```
//!
//! with `Aborted` for failures before the clone and `Dangerous` for a
//! failed clone, after which the machine refuses all further mutation and
//! only reports the manual recovery moves.

use vstd::prelude::*;

use crate::text::{copy_bytes, push_all, SLASH};

verus! {

/// Which path the live root is currently mounted through.
#[derive(Clone, Copy, PartialEq, Eq, Structural, Debug)]
pub enum MountVia {
    Primary,
    Temporary,
}

/// What the live mount table and the subvolume directory show at a
/// decision point.
#[derive(Clone, Copy, PartialEq, Eq, Structural, Debug)]
pub struct DiskObservation {
    pub mounted_via: MountVia,
    pub primary_exists: bool,
    pub temporary_exists: bool,
}

/// The orchestrator's states.
#[derive(Clone, Copy, PartialEq, Eq, Structural, Debug)]
pub enum RollbackState {
    Idle,
    SafetySnapshotted,
    RootDetached,
    RootReattached,
    Complete,
    Aborted,
    Dangerous,
}

/// The storage primitives and bookkeeping steps a driver can be asked to
/// perform.
#[derive(Clone, Copy, PartialEq, Eq, Structural, Debug)]
pub enum RollbackAction {
    /// Snapshot the current root before anything is touched.
    CreateSafetySnapshot,
    /// Delete the leftover temporary-path subvolume of an earlier
    /// incomplete run; an explicit step, never a silent overwrite.
    DeleteStaleTemporary,
    /// Delete the orphaned primary-path subvolume: the live system runs
    /// from the temporary path and no longer depends on it.
    DeleteStalePrimary,
    /// Move the primary-path subvolume aside to the temporary path.
    RenamePrimaryToTemporary,
    /// No storage work: the primary path is already gone.
    MarkDetached,
    /// Clone the target snapshot into the primary path — the single
    /// highest-risk step.
    CloneTargetToPrimary,
    /// Ask the operator whether to reboot; declining is still success.
    ConfirmReboot,
    /// Print the manual recovery moves and stop; never retried
    /// automatically.
    ReportRecovery,
    /// Nothing left to do.
    Stop,
}

/// What the machine asks for in state `s` when the disk shows `d`.
pub open spec fn next_action_spec(s: RollbackState, d: DiskObservation) -> RollbackAction {
    match s {
        RollbackState::Idle => RollbackAction::CreateSafetySnapshot,
        RollbackState::SafetySnapshotted => match d.mounted_via {
            MountVia::Temporary => if d.primary_exists {
                RollbackAction::DeleteStalePrimary
            } else {
                RollbackAction::MarkDetached
            },
            MountVia::Primary => if d.temporary_exists {
                RollbackAction::DeleteStaleTemporary
            } else {
                RollbackAction::RenamePrimaryToTemporary
            },
        },
        RollbackState::RootDetached => RollbackAction::CloneTargetToPrimary,
        RollbackState::RootReattached => RollbackAction::ConfirmReboot,
        RollbackState::Complete => RollbackAction::Stop,
        RollbackState::Aborted => RollbackAction::Stop,
        RollbackState::Dangerous => RollbackAction::ReportRecovery,
    }
}

/// The state after the driver reports that action `a`, issued in state
/// `s`, succeeded (`ok`) or failed. Pairings the protocol never issues
/// leave the state unchanged.
pub open spec fn apply_spec(s: RollbackState, a: RollbackAction, ok: bool) -> RollbackState {
    match (s, a) {
        (RollbackState::Idle, RollbackAction::CreateSafetySnapshot) => if ok {
            RollbackState::SafetySnapshotted
        } else {
            RollbackState::Aborted
        },
        (RollbackState::SafetySnapshotted, RollbackAction::DeleteStaleTemporary) => if ok {
            RollbackState::SafetySnapshotted
        } else {
            RollbackState::Aborted
        },
        (RollbackState::SafetySnapshotted, RollbackAction::DeleteStalePrimary) => if ok {
            RollbackState::RootDetached
        } else {
            RollbackState::Aborted
        },
        (RollbackState::SafetySnapshotted, RollbackAction::RenamePrimaryToTemporary) => if ok {
            RollbackState::RootDetached
        } else {
            RollbackState::Aborted
        },
        (RollbackState::SafetySnapshotted, RollbackAction::MarkDetached) => RollbackState::RootDetached,
        (RollbackState::RootDetached, RollbackAction::CloneTargetToPrimary) => if ok {
            RollbackState::RootReattached
        } else {
            RollbackState::Dangerous
        },
        (RollbackState::RootReattached, RollbackAction::ConfirmReboot) => RollbackState::Complete,
        (RollbackState::Dangerous, _) => RollbackState::Dangerous,
        (s0, _) => s0,
    }
}

/// What the machine asks for in state `s` given the fresh observation `d`.
pub fn next_action(s: RollbackState, d: DiskObservation) -> (a: RollbackAction)
    ensures
        a == next_action_spec(s, d),
{
    match s {
        RollbackState::Idle => RollbackAction::CreateSafetySnapshot,
        RollbackState::SafetySnapshotted => match d.mounted_via {
            MountVia::Temporary => if d.primary_exists {
                RollbackAction::DeleteStalePrimary
            } else {
                RollbackAction::MarkDetached
            },
            MountVia::Primary => if d.temporary_exists {
                RollbackAction::DeleteStaleTemporary
            } else {
                RollbackAction::RenamePrimaryToTemporary
            },
        },
        RollbackState::RootDetached => RollbackAction::CloneTargetToPrimary,
        RollbackState::RootReattached => RollbackAction::ConfirmReboot,
        RollbackState::Complete => RollbackAction::Stop,
        RollbackState::Aborted => RollbackAction::Stop,
        RollbackState::Dangerous => RollbackAction::ReportRecovery,
    }
}

/// Advances the machine on the reported outcome of an action.
pub fn apply(s: RollbackState, a: RollbackAction, ok: bool) -> (r: RollbackState)
    ensures
        r == apply_spec(s, a, ok),
{
    match (s, a) {
        (RollbackState::Idle, RollbackAction::CreateSafetySnapshot) => if ok {
            RollbackState::SafetySnapshotted
        } else {
            RollbackState::Aborted
        },
        (RollbackState::SafetySnapshotted, RollbackAction::DeleteStaleTemporary) => if ok {
            RollbackState::SafetySnapshotted
        } else {
            RollbackState::Aborted
        },
        (RollbackState::SafetySnapshotted, RollbackAction::DeleteStalePrimary) => if ok {
            RollbackState::RootDetached
        } else {
            RollbackState::Aborted
        },
        (RollbackState::SafetySnapshotted, RollbackAction::RenamePrimaryToTemporary) => if ok {
            RollbackState::RootDetached
        } else {
            RollbackState::Aborted
        },
        (RollbackState::SafetySnapshotted, RollbackAction::MarkDetached) => RollbackState::RootDetached,
        (RollbackState::RootDetached, RollbackAction::CloneTargetToPrimary) => if ok {
            RollbackState::RootReattached
        } else {
            RollbackState::Dangerous
        },
        (RollbackState::RootReattached, RollbackAction::ConfirmReboot) => RollbackState::Complete,
        (RollbackState::Dangerous, _) => RollbackState::Dangerous,
        (s0, _) => s0,
    }
}

/// The action writes to storage at all.
pub open spec fn action_mutates(a: RollbackAction) -> bool {
    match a {
        RollbackAction::CreateSafetySnapshot => true,
        RollbackAction::DeleteStaleTemporary => true,
        RollbackAction::DeleteStalePrimary => true,
        RollbackAction::RenamePrimaryToTemporary => true,
        RollbackAction::CloneTargetToPrimary => true,
        RollbackAction::MarkDetached => false,
        RollbackAction::ConfirmReboot => false,
        RollbackAction::ReportRecovery => false,
        RollbackAction::Stop => false,
    }
}

/// The action removes or replaces existing storage state.
pub open spec fn action_destroys(a: RollbackAction) -> bool {
    match a {
        RollbackAction::DeleteStaleTemporary => true,
        RollbackAction::DeleteStalePrimary => true,
        RollbackAction::RenamePrimaryToTemporary => true,
        RollbackAction::CloneTargetToPrimary => true,
        _ => false,
    }
}

/// Whether the driver is about to write to storage; a driver consults
/// this to fence mutation behind its own checks.
pub fn is_mutating(a: RollbackAction) -> (r: bool)
    ensures
        r == action_mutates(a),
{
    match a {
        RollbackAction::CreateSafetySnapshot => true,
        RollbackAction::DeleteStaleTemporary => true,
        RollbackAction::DeleteStalePrimary => true,
        RollbackAction::RenamePrimaryToTemporary => true,
        RollbackAction::CloneTargetToPrimary => true,
        RollbackAction::MarkDetached => false,
        RollbackAction::ConfirmReboot => false,
        RollbackAction::ReportRecovery => false,
        RollbackAction::Stop => false,
    }
}

/// Once dangerous, always dangerous: from the dangerous state the machine
/// never issues a mutating action again, whatever the disk shows and
/// whatever outcomes are reported. Recovery is manual by design.
pub proof fn lemma_dangerous_is_final(d: DiskObservation, a: RollbackAction, ok: bool)
    ensures
        !action_mutates(next_action_spec(RollbackState::Dangerous, d)),
        apply_spec(RollbackState::Dangerous, a, ok) == RollbackState::Dangerous,
{
}

/// Nothing is destroyed before the safety snapshot exists: destructive
/// actions are only issued from the states behind a successful safety
/// snapshot, and the only way out of `Idle` into those states is a
/// successful `CreateSafetySnapshot`.
pub proof fn lemma_no_destruction_before_safety(s: RollbackState, d: DiskObservation)
    ensures
        action_destroys(next_action_spec(s, d)) ==> (s is SafetySnapshotted
            || s is RootDetached),
        forall|a: RollbackAction, ok: bool|
            apply_spec(RollbackState::Idle, a, ok) is SafetySnapshotted ==> (
            a is CreateSafetySnapshot && ok),
{
}

/// The intended effect of each storage primitive on what a fresh
/// observation would show; a failed primitive is modelled as leaving the
/// disk as observed.
pub open spec fn disk_after(d: DiskObservation, a: RollbackAction, ok: bool) -> DiskObservation {
    if !ok {
        d
    } else {
        match a {
            RollbackAction::DeleteStaleTemporary => DiskObservation {
                mounted_via: d.mounted_via,
                primary_exists: d.primary_exists,
                temporary_exists: false,
            },
            RollbackAction::DeleteStalePrimary => DiskObservation {
                mounted_via: d.mounted_via,
                primary_exists: false,
                temporary_exists: d.temporary_exists,
            },
            RollbackAction::RenamePrimaryToTemporary => DiskObservation {
                mounted_via: d.mounted_via,
                primary_exists: false,
                temporary_exists: true,
            },
            RollbackAction::CloneTargetToPrimary => DiskObservation {
                mounted_via: d.mounted_via,
                primary_exists: true,
                temporary_exists: d.temporary_exists,
            },
            _ => d,
        }
    }
}

/// After the detach transition the primary path no longer exists:
/// whenever one step out of `SafetySnapshotted` reaches `RootDetached`,
/// the disk that step leaves behind has no primary-path subvolume.
pub proof fn lemma_detached_means_no_primary(d: DiskObservation, ok: bool)
    ensures
        ({
            let a = next_action_spec(RollbackState::SafetySnapshotted, d);
            apply_spec(RollbackState::SafetySnapshotted, a, ok) is RootDetached ==> !disk_after(
                d,
                a,
                ok,
            ).primary_exists
        }),
{
}

/// Whether a fresh rollback invocation may begin at all. A missing
/// primary path cannot be told apart from the aftermath of a failed
/// clone, and rerunning over that state risks compounding the damage: the
/// run is blocked unless the operator overrides explicitly.
pub open spec fn start_permitted_spec(d: DiskObservation, override_danger: bool) -> bool {
    d.primary_exists || override_danger
}

/// The check a driver makes before starting a run from `Idle`.
pub fn start_permitted(d: DiskObservation, override_danger: bool) -> (r: bool)
    ensures
        r == start_permitted_spec(d, override_danger),
{
    d.primary_exists || override_danger
}

/// Everything the driver needs to name paths: the subvolume directory and
/// the names standing at the primary path, the temporary path, and the
/// rollback target.
pub struct RollbackConfig {
    pub subvolume_dir: Vec<u8>,
    pub primary_name: Vec<u8>,
    pub temporary_name: Vec<u8>,
    pub target_name: Vec<u8>,
}

/// The two manual recovery moves reported from the dangerous state:
/// restore the primary path from the rollback target, or from the
/// previous root preserved at the temporary path.
pub struct RecoveryPlan {
    pub primary_path: Vec<u8>,
    pub temporary_path: Vec<u8>,
    pub target_path: Vec<u8>,
}

pub open spec fn path_join_spec(dir: Seq<u8>, name: Seq<u8>) -> Seq<u8> {
    dir + seq![SLASH] + name
}

/// Joins a directory and an entry name with a path separator.
pub fn path_join(dir: &Vec<u8>, name: &Vec<u8>) -> (r: Vec<u8>)
    ensures
        r@ == path_join_spec(dir@, name@),
{
    let mut out = copy_bytes(dir);
    out.push(SLASH);
    push_all(&mut out, name);
    proof {
        assert(out@ =~= path_join_spec(dir@, name@));
    }
    out
}

/// The exact paths an operator needs to recover by hand, verbatim from
/// the configuration the run was started with.
pub fn recovery_plan(cfg: &RollbackConfig) -> (r: RecoveryPlan)
    ensures
        r.primary_path@ == path_join_spec(cfg.subvolume_dir@, cfg.primary_name@),
        r.temporary_path@ == path_join_spec(cfg.subvolume_dir@, cfg.temporary_name@),
        r.target_path@ == path_join_spec(cfg.subvolume_dir@, cfg.target_name@),
{
    RecoveryPlan {
        primary_path: path_join(&cfg.subvolume_dir, &cfg.primary_name),
        temporary_path: path_join(&cfg.subvolume_dir, &cfg.temporary_name),
        target_path: path_join(&cfg.subvolume_dir, &cfg.target_name),
    }
}

} // verus!
