//! The migration of older rescue directories, journaled so that it can be
//! finished or undone wherever it was interrupted.

use vstd::prelude::*;
use vstd::string::*;
use vstd::utf8::*;
use crate::digest::{hex, hex_text, sha256, sha256_bytes, sha256_once, sha256_text};
use crate::error::{fail, failure, or_else, outcome, Failure, ManagedError, ManagedResult};
use crate::layout::{
    distinct, layout_of, marker_of, path_views, record_failure, rescue_dir, rescue_directory,
    rescue_layout, rescue_marker, rescue_marker_file, rescue_marker_path,
    validate_record_semantics, DistinctPaths, RescueLayout,
};
use crate::lists::{lemma_filter_has, lemma_push_has};
use crate::order::{
    lemma_sorted_map, lemma_sorting_keeps_items, lemma_sorting_keeps_members, location_key,
    sort_located, sorted_by, SortOrder,
};
use crate::path::{
    child, file_name, join, parent, parts, path_under, same_path, strip_prefix, FsPath,
};
use crate::record::{
    outside_of, owned_key, owned_views, same_record, without_subtree, OwnedFile, OwnedFileView,
    OwnershipRecord, RecordView, OWNERSHIP_SCHEMA,
};
use crate::snapshot::{
    dir_views, exact_subset, file_views, inventory_matches, moved, moved_snapshot, opt_snapshot,
    planned_only,
    planned_stage_is_exact_subset, planned_subset, relocate_stage_snapshot, relocation,
    rescue_snapshot_inventory_matches, rescue_stage_snapshot_is_planned, same_snapshot,
    snapshot_failure, stage_is_exact_subset, validate_stage_snapshot_semantics, DirView,
    OwnedDirectory, OwnedStageFile, SnapshotView, StageFileView, StageSnapshot,
};
use crate::text::{
    all_lower_hex, bytes_eq, text_bytes, text_eq, text_join, utf8, utf8_str,
};
use crate::transaction::{
    directly_in, is_directly_in, name_after, name_starts, owned_below, token_ok, unrecovered,
};

verus! {

/// The schema of migration journals that are written.
pub const RESCUE_MIGRATION_SCHEMA: u32 = 2;

/// The schema of older migration journals that are still read.
pub const LEGACY_RESCUE_MIGRATION_SCHEMA: u32 = 1;

/// The most entries that are looked at in a directory or a tree.
pub const MAX_PURGE_ENTRIES: usize = 4096;

/// How far a migration has come, or its undoing.
#[derive(Clone, Copy, Debug, PartialEq, Eq, Structural)]
pub enum RescueMigrationPhase {
    Intent,
    Prepared,
    PriorBackingUp,
    PriorBackedUp,
    NoticePublishing,
    NoticePublished,
    RecordCommitting,
    RecordCommitted,
    BackupRetiring,
    NoticeCleaning,
    PriorRestoring,
    StageCleaning,
}

/// Which record is in place.
#[derive(Clone, Copy, Debug, PartialEq, Eq, Structural)]
pub enum RescueRecordState {
    Prior,
    New,
    Other,
}

/// What a directory of the migration holds.
#[derive(Clone, Copy, Debug, PartialEq, Eq, Structural)]
pub enum RescueTreeState {
    Absent,
    Prior,
    New,
    PriorSubset,
    NewSubset,
    PlannedSubset,
    Other,
}

/// What is in place of a migration.
#[derive(Clone, Copy, Debug, PartialEq, Eq, Structural)]
pub struct RescueMigrationLiveState {
    pub record: RescueRecordState,
    pub rescue: RescueTreeState,
    pub stage: RescueTreeState,
    pub backup: RescueTreeState,
}

/// How an interrupted migration is dealt with.
#[derive(Clone, Copy, Debug, PartialEq, Eq, Structural)]
pub enum RescueRecoveryRoute {
    Intent,
    BeforeNotice,
    NoticeRollback,
    Committed,
    NoticeCleanup,
    PriorRestore,
    StageCleanup,
}

/// The journal of a migration.
#[derive(Debug)]
pub struct RescueMigration {
    pub schema_version: u32,
    pub phase: RescueMigrationPhase,
    pub rescue: FsPath,
    pub stage: FsPath,
    pub backup: FsPath,
    pub prior_record: OwnershipRecord,
    pub new_record: OwnershipRecord,
    pub prior_snapshot: StageSnapshot,
    pub new_snapshot: StageSnapshot,
}

/// The error for a state that no interruption leads to.
pub fn inexact_rescue_migration_state() -> (r: ManagedError)
    ensures
        r@ == inexact(),
{
    ManagedError::new(
        "recovery_needed",
        "rescue migration live state is not an exact reachable state",
    )
}

/// The failure for a state that no interruption leads to.
pub open spec fn inexact() -> Failure {
    ("recovery_needed"@, "rescue migration live state is not an exact reachable state"@)
}

/// The name of a phase.
pub open spec fn phase_name(phase: RescueMigrationPhase) -> Seq<char> {
    match phase {
        RescueMigrationPhase::Intent => "intent"@,
        RescueMigrationPhase::Prepared => "prepared"@,
        RescueMigrationPhase::PriorBackingUp => "prior-backing-up"@,
        RescueMigrationPhase::PriorBackedUp => "prior-backed-up"@,
        RescueMigrationPhase::NoticePublishing => "notice-publishing"@,
        RescueMigrationPhase::NoticePublished => "notice-published"@,
        RescueMigrationPhase::RecordCommitting => "record-committing"@,
        RescueMigrationPhase::RecordCommitted => "record-committed"@,
        RescueMigrationPhase::BackupRetiring => "backup-retiring"@,
        RescueMigrationPhase::NoticeCleaning => "notice-cleaning"@,
        RescueMigrationPhase::PriorRestoring => "prior-restoring"@,
        RescueMigrationPhase::StageCleaning => "stage-cleaning"@,
    }
}

/// The name of a phase.
pub fn rescue_migration_phase_name(phase: RescueMigrationPhase) -> (r: &'static str)
    ensures
        r@ == phase_name(phase),
{
    match phase {
        RescueMigrationPhase::Intent => "intent",
        RescueMigrationPhase::Prepared => "prepared",
        RescueMigrationPhase::PriorBackingUp => "prior-backing-up",
        RescueMigrationPhase::PriorBackedUp => "prior-backed-up",
        RescueMigrationPhase::NoticePublishing => "notice-publishing",
        RescueMigrationPhase::NoticePublished => "notice-published",
        RescueMigrationPhase::RecordCommitting => "record-committing",
        RescueMigrationPhase::RecordCommitted => "record-committed",
        RescueMigrationPhase::BackupRetiring => "backup-retiring",
        RescueMigrationPhase::NoticeCleaning => "notice-cleaning",
        RescueMigrationPhase::PriorRestoring => "prior-restoring",
        RescueMigrationPhase::StageCleaning => "stage-cleaning",
    }
}

/// A phase that journals of a schema can have.
pub open spec fn phase_known(schema: u32, phase: RescueMigrationPhase) -> bool {
    schema == RESCUE_MIGRATION_SCHEMA || (schema == LEGACY_RESCUE_MIGRATION_SCHEMA && (phase
        == RescueMigrationPhase::Prepared || phase == RescueMigrationPhase::PriorBackedUp || phase
        == RescueMigrationPhase::NoticePublished || phase
        == RescueMigrationPhase::RecordCommitted))
}

/// Whether journals of a schema can have a phase.
pub fn rescue_migration_schema_phase_is_known(schema: u32, phase: RescueMigrationPhase) -> (r: bool)
    ensures
        r == phase_known(schema, phase),
{
    schema == RESCUE_MIGRATION_SCHEMA || (schema == LEGACY_RESCUE_MIGRATION_SCHEMA && match phase {
        RescueMigrationPhase::Prepared
        | RescueMigrationPhase::PriorBackedUp
        | RescueMigrationPhase::NoticePublished
        | RescueMigrationPhase::RecordCommitted => true,
        _ => false,
    })
}

/// The tree holds some or all of the new files, or is gone.
pub open spec fn new_or_less(s: RescueTreeState) -> bool {
    s == RescueTreeState::New || s == RescueTreeState::NewSubset || s == RescueTreeState::Absent
}

/// How an interrupted migration is dealt with; every other state is no state that
/// an interruption leads to.
pub open spec fn recovery_route(phase: RescueMigrationPhase, live: RescueMigrationLiveState) -> Option<
    RescueRecoveryRoute,
> {
    let prior = live.record == RescueRecordState::Prior;
    let before = prior && live.rescue == RescueTreeState::Prior && live.backup
        == RescueTreeState::Absent;
    let between = prior && live.rescue == RescueTreeState::Absent && live.backup
        == RescueTreeState::Prior;
    let published = prior && live.rescue == RescueTreeState::New && live.stage
        == RescueTreeState::Absent && live.backup == RescueTreeState::Prior;
    let committed = live.record == RescueRecordState::New && live.rescue == RescueTreeState::New
        && live.stage == RescueTreeState::Absent && (live.backup == RescueTreeState::Prior
        || live.backup == RescueTreeState::PriorSubset || live.backup == RescueTreeState::Absent);
    match phase {
        RescueMigrationPhase::Intent => if before && (live.stage == RescueTreeState::Absent
            || live.stage == RescueTreeState::PlannedSubset) {
            Some(RescueRecoveryRoute::Intent)
        } else {
            None
        },
        RescueMigrationPhase::Prepared | RescueMigrationPhase::PriorBackingUp => if live.stage
            == RescueTreeState::New && (before || between) {
            Some(RescueRecoveryRoute::BeforeNotice)
        } else {
            None
        },
        RescueMigrationPhase::PriorBackedUp | RescueMigrationPhase::NoticePublishing => if between
            && live.stage == RescueTreeState::New {
            Some(RescueRecoveryRoute::BeforeNotice)
        } else if published {
            Some(RescueRecoveryRoute::NoticeRollback)
        } else {
            None
        },
        RescueMigrationPhase::NoticePublished | RescueMigrationPhase::RecordCommitting
            => if published {
            Some(RescueRecoveryRoute::NoticeRollback)
        } else if committed {
            Some(RescueRecoveryRoute::Committed)
        } else {
            None
        },
        RescueMigrationPhase::RecordCommitted | RescueMigrationPhase::BackupRetiring
            => if committed {
            Some(RescueRecoveryRoute::Committed)
        } else {
            None
        },
        RescueMigrationPhase::NoticeCleaning => if prior && new_or_less(live.rescue) && live.stage
            == RescueTreeState::Absent && live.backup == RescueTreeState::Prior {
            Some(RescueRecoveryRoute::NoticeCleanup)
        } else {
            None
        },
        RescueMigrationPhase::PriorRestoring => if (between || before) && new_or_less(live.stage) {
            Some(RescueRecoveryRoute::PriorRestore)
        } else {
            None
        },
        RescueMigrationPhase::StageCleaning => if before && (new_or_less(live.stage) || live.stage
            == RescueTreeState::PlannedSubset) {
            Some(RescueRecoveryRoute::StageCleanup)
        } else {
            None
        },
    }
}

/// Decides how an interrupted migration is dealt with.
pub fn rescue_recovery_route(phase: RescueMigrationPhase, live: RescueMigrationLiveState) -> (r:
    ManagedResult<RescueRecoveryRoute>)
    ensures
        r is Ok == recovery_route(phase, live) is Some,
        r is Ok ==> Some(r->Ok_0) == recovery_route(phase, live),
        r is Err ==> failure(r) == Some(inexact()),
{
    let prior = live.record == RescueRecordState::Prior;
    let before = prior && live.rescue == RescueTreeState::Prior && live.backup
        == RescueTreeState::Absent;
    let between = prior && live.rescue == RescueTreeState::Absent && live.backup
        == RescueTreeState::Prior;
    let published = prior && live.rescue == RescueTreeState::New && live.stage
        == RescueTreeState::Absent && live.backup == RescueTreeState::Prior;
    let committed = live.record == RescueRecordState::New && live.rescue == RescueTreeState::New
        && live.stage == RescueTreeState::Absent && match live.backup {
        RescueTreeState::Prior | RescueTreeState::PriorSubset | RescueTreeState::Absent => true,
        _ => false,
    };
    let stage_new_or_less = match live.stage {
        RescueTreeState::New | RescueTreeState::NewSubset | RescueTreeState::Absent => true,
        _ => false,
    };
    let rescue_new_or_less = match live.rescue {
        RescueTreeState::New | RescueTreeState::NewSubset | RescueTreeState::Absent => true,
        _ => false,
    };
    match phase {
        RescueMigrationPhase::Intent => {
            if before && (live.stage == RescueTreeState::Absent || live.stage
                == RescueTreeState::PlannedSubset) {
                return Ok(RescueRecoveryRoute::Intent);
            }
        },
        RescueMigrationPhase::Prepared | RescueMigrationPhase::PriorBackingUp => {
            if live.stage == RescueTreeState::New && (before || between) {
                return Ok(RescueRecoveryRoute::BeforeNotice);
            }
        },
        RescueMigrationPhase::PriorBackedUp | RescueMigrationPhase::NoticePublishing => {
            if between && live.stage == RescueTreeState::New {
                return Ok(RescueRecoveryRoute::BeforeNotice);
            }
            if published {
                return Ok(RescueRecoveryRoute::NoticeRollback);
            }
        },
        RescueMigrationPhase::NoticePublished | RescueMigrationPhase::RecordCommitting => {
            if published {
                return Ok(RescueRecoveryRoute::NoticeRollback);
            }
            if committed {
                return Ok(RescueRecoveryRoute::Committed);
            }
        },
        RescueMigrationPhase::RecordCommitted | RescueMigrationPhase::BackupRetiring => {
            if committed {
                return Ok(RescueRecoveryRoute::Committed);
            }
        },
        RescueMigrationPhase::NoticeCleaning => {
            if prior && rescue_new_or_less && live.stage == RescueTreeState::Absent && live.backup
                == RescueTreeState::Prior {
                return Ok(RescueRecoveryRoute::NoticeCleanup);
            }
        },
        RescueMigrationPhase::PriorRestoring => {
            if (between || before) && stage_new_or_less {
                return Ok(RescueRecoveryRoute::PriorRestore);
            }
        },
        RescueMigrationPhase::StageCleaning => {
            if before && (stage_new_or_less || live.stage == RescueTreeState::PlannedSubset) {
                return Ok(RescueRecoveryRoute::StageCleanup);
            }
        },
    }
    Err(inexact_rescue_migration_state())
}

/// A journal of one phase may be about to be replaced by one of another.
pub open spec fn replaceable(published: RescueMigrationPhase, temporary: RescueMigrationPhase) -> bool {
    match published {
        RescueMigrationPhase::Intent => temporary == RescueMigrationPhase::Prepared || temporary
            == RescueMigrationPhase::StageCleaning,
        RescueMigrationPhase::Prepared => temporary == RescueMigrationPhase::PriorBackingUp
            || temporary == RescueMigrationPhase::PriorRestoring,
        RescueMigrationPhase::PriorBackingUp => temporary == RescueMigrationPhase::PriorBackedUp
            || temporary == RescueMigrationPhase::PriorRestoring,
        RescueMigrationPhase::PriorBackedUp => temporary == RescueMigrationPhase::NoticePublishing
            || temporary == RescueMigrationPhase::NoticeCleaning || temporary
            == RescueMigrationPhase::PriorRestoring,
        RescueMigrationPhase::NoticePublishing => temporary
            == RescueMigrationPhase::NoticePublished || temporary
            == RescueMigrationPhase::NoticeCleaning || temporary
            == RescueMigrationPhase::PriorRestoring,
        RescueMigrationPhase::NoticePublished => temporary
            == RescueMigrationPhase::RecordCommitting || temporary
            == RescueMigrationPhase::NoticeCleaning || temporary
            == RescueMigrationPhase::BackupRetiring,
        RescueMigrationPhase::RecordCommitting => temporary
            == RescueMigrationPhase::RecordCommitted || temporary
            == RescueMigrationPhase::NoticeCleaning || temporary
            == RescueMigrationPhase::BackupRetiring,
        RescueMigrationPhase::RecordCommitted => temporary == RescueMigrationPhase::BackupRetiring,
        RescueMigrationPhase::BackupRetiring => temporary == RescueMigrationPhase::BackupRetiring,
        RescueMigrationPhase::NoticeCleaning => temporary == RescueMigrationPhase::PriorRestoring,
        RescueMigrationPhase::PriorRestoring => temporary == RescueMigrationPhase::StageCleaning,
        RescueMigrationPhase::StageCleaning => false,
    }
}

/// Whether a journal of one phase may be about to be replaced by one of another.
pub fn rescue_migration_temp_transition_is_allowed(
    published: RescueMigrationPhase,
    temporary: RescueMigrationPhase,
) -> (r: bool)
    ensures
        r == replaceable(published, temporary),
{
    match (published, temporary) {
        (
            RescueMigrationPhase::Intent,
            RescueMigrationPhase::Prepared | RescueMigrationPhase::StageCleaning,
        ) => true,
        (
            RescueMigrationPhase::Prepared,
            RescueMigrationPhase::PriorBackingUp | RescueMigrationPhase::PriorRestoring,
        ) => true,
        (
            RescueMigrationPhase::PriorBackingUp,
            RescueMigrationPhase::PriorBackedUp | RescueMigrationPhase::PriorRestoring,
        ) => true,
        (
            RescueMigrationPhase::PriorBackedUp,
            RescueMigrationPhase::NoticePublishing
            | RescueMigrationPhase::NoticeCleaning
            | RescueMigrationPhase::PriorRestoring,
        ) => true,
        (
            RescueMigrationPhase::NoticePublishing,
            RescueMigrationPhase::NoticePublished
            | RescueMigrationPhase::NoticeCleaning
            | RescueMigrationPhase::PriorRestoring,
        ) => true,
        (
            RescueMigrationPhase::NoticePublished,
            RescueMigrationPhase::RecordCommitting
            | RescueMigrationPhase::NoticeCleaning
            | RescueMigrationPhase::BackupRetiring,
        ) => true,
        (
            RescueMigrationPhase::RecordCommitting,
            RescueMigrationPhase::RecordCommitted
            | RescueMigrationPhase::NoticeCleaning
            | RescueMigrationPhase::BackupRetiring,
        ) => true,
        (RescueMigrationPhase::RecordCommitted, RescueMigrationPhase::BackupRetiring) => true,
        (RescueMigrationPhase::BackupRetiring, RescueMigrationPhase::BackupRetiring) => true,
        (RescueMigrationPhase::NoticeCleaning, RescueMigrationPhase::PriorRestoring) => true,
        (RescueMigrationPhase::PriorRestoring, RescueMigrationPhase::StageCleaning) => true,
        _ => false,
    }
}

/// What a tree is, by what it is compared with: exact matches first.
pub open spec fn tree_state(
    current: Option<SnapshotView>,
    prior: Option<SnapshotView>,
    new: Option<SnapshotView>,
    planned: Option<SnapshotView>,
) -> RescueTreeState {
    match current {
        None => RescueTreeState::Absent,
        Some(tree) => if prior is Some && same_snapshot(prior->0, tree) {
            RescueTreeState::Prior
        } else if new is Some && same_snapshot(new->0, tree) {
            RescueTreeState::New
        } else if prior is Some && exact_subset(prior->0, tree) {
            RescueTreeState::PriorSubset
        } else if new is Some && exact_subset(new->0, tree) {
            RescueTreeState::NewSubset
        } else if planned is Some && planned_subset(planned->0, tree) {
            RescueTreeState::PlannedSubset
        } else {
            RescueTreeState::Other
        },
    }
}

/// The snapshot behind an optional reference.
pub open spec fn seen(s: Option<&StageSnapshot>) -> Option<SnapshotView> {
    match s {
        Some(s) => Some(s@),
        None => None,
    }
}

/// Tells what a tree is.
pub fn classify_rescue_tree(
    current: Option<&StageSnapshot>,
    prior: Option<&StageSnapshot>,
    new: Option<&StageSnapshot>,
    planned: Option<&StageSnapshot>,
) -> (r: RescueTreeState)
    ensures
        r == tree_state(seen(current), seen(prior), seen(new), seen(planned)),
{
    let Some(tree) = current else {
        return RescueTreeState::Absent;
    };
    if let Some(expected) = prior {
        if expected.same(tree) {
            return RescueTreeState::Prior;
        }
    }
    if let Some(expected) = new {
        if expected.same(tree) {
            return RescueTreeState::New;
        }
    }
    if let Some(expected) = prior {
        if stage_is_exact_subset(expected, tree) {
            return RescueTreeState::PriorSubset;
        }
    }
    if let Some(expected) = new {
        if stage_is_exact_subset(expected, tree) {
            return RescueTreeState::NewSubset;
        }
    }
    if let Some(expected) = planned {
        if planned_stage_is_exact_subset(expected, tree) {
            return RescueTreeState::PlannedSubset;
        }
    }
    RescueTreeState::Other
}

/// What is in place of a migration, or why its snapshots cannot be used.
pub open spec fn live_state(
    m: RescueMigration,
    current: RecordView,
    rescue: Option<SnapshotView>,
    stage: Option<SnapshotView>,
    backup: Option<SnapshotView>,
) -> Result<RescueMigrationLiveState, Failure> {
    match relocation(m.prior_snapshot@, m.rescue@, m.backup@) {
        Err(f) => Err(f),
        Ok(prior_backup) => match relocation(m.new_snapshot@, m.stage@, m.rescue@) {
            Err(f) => Err(f),
            Ok(new_live) => {
                let planned = planned_only(m.new_snapshot@);
                Ok(
                    RescueMigrationLiveState {
                        record: if same_record(current, m.prior_record@) {
                            RescueRecordState::Prior
                        } else if same_record(current, m.new_record@) {
                            RescueRecordState::New
                        } else {
                            RescueRecordState::Other
                        },
                        rescue: tree_state(
                            rescue,
                            Some(m.prior_snapshot@),
                            if planned {
                                None
                            } else {
                                Some(new_live)
                            },
                            None,
                        ),
                        stage: tree_state(
                            stage,
                            None,
                            if planned {
                                None
                            } else {
                                Some(m.new_snapshot@)
                            },
                            if planned {
                                Some(m.new_snapshot@)
                            } else {
                                None
                            },
                        ),
                        backup: tree_state(backup, Some(prior_backup), None, None),
                    },
                )
            },
        },
    }
}

/// Tells what is in place of a migration.
pub fn observe_rescue_migration_state(
    m: &RescueMigration,
    current: &OwnershipRecord,
    rescue: &Option<StageSnapshot>,
    stage: &Option<StageSnapshot>,
    backup: &Option<StageSnapshot>,
) -> (r: ManagedResult<RescueMigrationLiveState>)
    ensures
        match r {
            Ok(v) => live_state(
                *m,
                current@,
                opt_snapshot(*rescue),
                opt_snapshot(*stage),
                opt_snapshot(*backup),
            ) == Ok::<RescueMigrationLiveState, Failure>(v),
            Err(e) => live_state(
                *m,
                current@,
                opt_snapshot(*rescue),
                opt_snapshot(*stage),
                opt_snapshot(*backup),
            ) == Err::<RescueMigrationLiveState, Failure>(e@),
        },
{
    let prior_backup = relocate_stage_snapshot(&m.prior_snapshot, &m.rescue, &m.backup)?;
    let new_live = relocate_stage_snapshot(&m.new_snapshot, &m.stage, &m.rescue)?;
    let planned = rescue_stage_snapshot_is_planned(&m.new_snapshot);
    let record = if current.same(&m.prior_record) {
        RescueRecordState::Prior
    } else if current.same(&m.new_record) {
        RescueRecordState::New
    } else {
        RescueRecordState::Other
    };
    let new_at_rescue = if planned {
        None
    } else {
        Some(&new_live)
    };
    let new_at_stage = if planned {
        None
    } else {
        Some(&m.new_snapshot)
    };
    let planned_at_stage = if planned {
        Some(&m.new_snapshot)
    } else {
        None
    };
    Ok(
        RescueMigrationLiveState {
            record,
            rescue: classify_rescue_tree(
                rescue.as_ref(),
                Some(&m.prior_snapshot),
                new_at_rescue,
                None,
            ),
            stage: classify_rescue_tree(stage.as_ref(), None, new_at_stage, planned_at_stage),
            backup: classify_rescue_tree(backup.as_ref(), Some(&prior_backup), None, None),
        },
    )
}

/// One step of the recovery of a migration.
#[derive(Clone, Copy, Debug, PartialEq, Eq, Structural)]
pub enum RescueStep {
    /// The journal is written with another phase.
    Journal(RescueMigrationPhase),
    /// The new files that were published are removed, as far as they are there.
    RemovePublished,
    /// The stage is removed, as far as it is there.
    RemoveStage,
    /// The backup is removed, as far as it is there.
    RemoveBackup,
    /// The backup becomes the rescue directory again.
    RenameBackup,
    /// The journal is removed: the recovery is over.
    Clear,
}

/// The next step of the recovery of a migration. A journal that was just read is
/// written once more before a backup is retired.
pub open spec fn next_step(
    phase: RescueMigrationPhase,
    live: RescueMigrationLiveState,
    just_read: bool,
) -> Option<RescueStep> {
    match recovery_route(phase, live) {
        None => None,
        Some(RescueRecoveryRoute::Intent) => Some(
            RescueStep::Journal(RescueMigrationPhase::StageCleaning),
        ),
        Some(RescueRecoveryRoute::BeforeNotice) => Some(
            RescueStep::Journal(RescueMigrationPhase::PriorRestoring),
        ),
        Some(RescueRecoveryRoute::NoticeRollback) => Some(
            RescueStep::Journal(RescueMigrationPhase::NoticeCleaning),
        ),
        Some(RescueRecoveryRoute::NoticeCleanup) => if live.rescue == RescueTreeState::Absent {
            Some(RescueStep::Journal(RescueMigrationPhase::PriorRestoring))
        } else {
            Some(RescueStep::RemovePublished)
        },
        Some(RescueRecoveryRoute::PriorRestore) => if live.rescue == RescueTreeState::Absent {
            Some(RescueStep::RenameBackup)
        } else {
            Some(RescueStep::Journal(RescueMigrationPhase::StageCleaning))
        },
        Some(RescueRecoveryRoute::StageCleanup) => if live.stage == RescueTreeState::Absent {
            Some(RescueStep::Clear)
        } else {
            Some(RescueStep::RemoveStage)
        },
        Some(RescueRecoveryRoute::Committed) => if just_read || phase
            != RescueMigrationPhase::BackupRetiring {
            Some(RescueStep::Journal(RescueMigrationPhase::BackupRetiring))
        } else if live.backup == RescueTreeState::Absent {
            Some(RescueStep::Clear)
        } else {
            Some(RescueStep::RemoveBackup)
        },
    }
}

/// Decides the next step of the recovery of a migration.
pub fn reconcile_rescue_step(
    phase: RescueMigrationPhase,
    live: RescueMigrationLiveState,
    just_read: bool,
) -> (r: ManagedResult<RescueStep>)
    ensures
        r is Ok == next_step(phase, live, just_read) is Some,
        r is Ok ==> Some(r->Ok_0) == next_step(phase, live, just_read),
        r is Err ==> failure(r) == Some(inexact()),
{
    let route = rescue_recovery_route(phase, live)?;
    let step = match route {
        RescueRecoveryRoute::Intent => RescueStep::Journal(RescueMigrationPhase::StageCleaning),
        RescueRecoveryRoute::BeforeNotice => RescueStep::Journal(
            RescueMigrationPhase::PriorRestoring,
        ),
        RescueRecoveryRoute::NoticeRollback => RescueStep::Journal(
            RescueMigrationPhase::NoticeCleaning,
        ),
        RescueRecoveryRoute::NoticeCleanup => {
            if live.rescue == RescueTreeState::Absent {
                RescueStep::Journal(RescueMigrationPhase::PriorRestoring)
            } else {
                RescueStep::RemovePublished
            }
        },
        RescueRecoveryRoute::PriorRestore => {
            if live.rescue == RescueTreeState::Absent {
                RescueStep::RenameBackup
            } else {
                RescueStep::Journal(RescueMigrationPhase::StageCleaning)
            }
        },
        RescueRecoveryRoute::StageCleanup => {
            if live.stage == RescueTreeState::Absent {
                RescueStep::Clear
            } else {
                RescueStep::RemoveStage
            }
        },
        RescueRecoveryRoute::Committed => {
            if just_read || phase != RescueMigrationPhase::BackupRetiring {
                RescueStep::Journal(RescueMigrationPhase::BackupRetiring)
            } else if live.backup == RescueTreeState::Absent {
                RescueStep::Clear
            } else {
                RescueStep::RemoveBackup
            }
        },
    };
    Ok(step)
}

/// Where a migration or its recovery stands: the phase of its journal, if there
/// is one, and what is in place.
pub struct MigrationState {
    pub journal: Option<RescueMigrationPhase>,
    pub live: RescueMigrationLiveState,
}

/// What a completed step of the recovery leads to.
pub open spec fn after_step(s: MigrationState, step: RescueStep) -> MigrationState {
    match step {
        RescueStep::Journal(phase) => MigrationState { journal: Some(phase), ..s },
        RescueStep::RemovePublished => MigrationState {
            live: RescueMigrationLiveState { rescue: RescueTreeState::Absent, ..s.live },
            ..s
        },
        RescueStep::RemoveStage => MigrationState {
            live: RescueMigrationLiveState { stage: RescueTreeState::Absent, ..s.live },
            ..s
        },
        RescueStep::RemoveBackup => MigrationState {
            live: RescueMigrationLiveState { backup: RescueTreeState::Absent, ..s.live },
            ..s
        },
        RescueStep::RenameBackup => MigrationState {
            live: RescueMigrationLiveState {
                rescue: s.live.backup,
                backup: RescueTreeState::Absent,
                ..s.live
            },
            ..s
        },
        RescueStep::Clear => MigrationState { journal: None, ..s },
    }
}

/// What a removal that was cut short leads to: the tree has lost files.
pub open spec fn during_step(s: MigrationState, step: RescueStep) -> MigrationState {
    match step {
        RescueStep::RemovePublished => MigrationState {
            live: RescueMigrationLiveState { rescue: RescueTreeState::NewSubset, ..s.live },
            ..s
        },
        RescueStep::RemoveStage => MigrationState {
            live: RescueMigrationLiveState {
                stage: if s.live.stage == RescueTreeState::PlannedSubset {
                    RescueTreeState::PlannedSubset
                } else {
                    RescueTreeState::NewSubset
                },
                ..s.live
            },
            ..s
        },
        RescueStep::RemoveBackup => MigrationState {
            live: RescueMigrationLiveState { backup: RescueTreeState::PriorSubset, ..s.live },
            ..s
        },
        _ => s,
    }
}

/// The steps that are left of a recovery, at most.
pub open spec fn steps_left(
    phase: RescueMigrationPhase,
    live: RescueMigrationLiveState,
    just_read: bool,
) -> int {
    let stage: int = if live.stage == RescueTreeState::Absent {
        0
    } else {
        1
    };
    let away: int = if live.rescue == RescueTreeState::Absent {
        0
    } else {
        1
    };
    match recovery_route(phase, live) {
        None => 0,
        Some(RescueRecoveryRoute::StageCleanup) => 1 + stage,
        Some(RescueRecoveryRoute::Intent) => 2 + stage,
        Some(RescueRecoveryRoute::PriorRestore) => 3 + stage - away,
        Some(RescueRecoveryRoute::BeforeNotice) => 5 - away,
        Some(RescueRecoveryRoute::NoticeCleanup) => 4 + away,
        Some(RescueRecoveryRoute::NoticeRollback) => 6,
        Some(RescueRecoveryRoute::Committed) => (if live.backup == RescueTreeState::Absent {
            1int
        } else {
            2int
        }) + (if just_read || phase != RescueMigrationPhase::BackupRetiring {
            1int
        } else {
            0int
        }),
    }
}

/// The recovery of an interrupted migration comes to an end: after every step
/// that is not the last, the next one is known and fewer are left; so it is after
/// a removal that was cut short.
pub proof fn law_recovery_makes_progress(
    phase: RescueMigrationPhase,
    live: RescueMigrationLiveState,
    just_read: bool,
)
    requires
        recovery_route(phase, live) is Some,
    ensures
        next_step(phase, live, just_read) is Some,
        ({
            let s = MigrationState { journal: Some(phase), live };
            let step = next_step(phase, live, just_read)->0;
            let after = after_step(s, step);
            let cut = during_step(s, step);
            &&& recovery_route(phase, cut.live) is Some
            &&& step != RescueStep::Clear ==> after.journal is Some && recovery_route(
                after.journal->0,
                after.live,
            ) is Some && 0 <= steps_left(after.journal->0, after.live, false) < steps_left(
                phase,
                live,
                just_read,
            )
        }),
{
}

/// A recovery ends in one of two clean states: everything as before the
/// migration, or the migration complete; stage and backup are gone.
pub proof fn law_recovery_ends_clean(
    phase: RescueMigrationPhase,
    live: RescueMigrationLiveState,
    just_read: bool,
)
    requires
        next_step(phase, live, just_read) == Some(RescueStep::Clear),
    ensures
        live.stage == RescueTreeState::Absent,
        live.backup == RescueTreeState::Absent,
        (live.record == RescueRecordState::Prior && live.rescue == RescueTreeState::Prior) || (
        live.record == RescueRecordState::New && live.rescue == RescueTreeState::New),
{
}

/// No step of a recovery changes the record: which of the two clean states it
/// ends in is settled from the start.
pub proof fn law_recovery_keeps_the_record(s: MigrationState, step: RescueStep)
    ensures
        after_step(s, step).live.record == s.live.record,
{
}

/// Every journal that a recovery writes is one that may replace the journal it
/// found, so that an interruption while it is written is recognised.
pub proof fn law_recovery_journals_are_recognised(
    phase: RescueMigrationPhase,
    live: RescueMigrationLiveState,
    just_read: bool,
)
    requires
        next_step(phase, live, just_read) is Some,
        next_step(phase, live, just_read)->0 is Journal,
    ensures
        replaceable(phase, next_step(phase, live, just_read)->0->Journal_0),
{
}

/// The steps of a migration.
#[derive(Clone, Copy, Debug, PartialEq, Eq, Structural)]
pub enum MigrationStep {
    /// The journal is written with a phase.
    Journal(RescueMigrationPhase),
    /// The empty stage is made.
    CreateStage,
    /// The notice is written into the stage.
    StageNotice,
    /// The marker is written into the stage.
    StageMarker,
    /// The rescue directory becomes the backup.
    RenameRescue,
    /// The stage becomes the rescue directory.
    RenameStage,
    /// The new record is written.
    WriteRecord,
    /// The backup is removed.
    RemoveBackup,
    /// The journal is removed.
    Clear,
}

/// The steps of a migration, in order.
pub open spec fn migration_plan() -> Seq<MigrationStep> {
    seq![
        MigrationStep::Journal(RescueMigrationPhase::Intent),
        MigrationStep::CreateStage,
        MigrationStep::StageNotice,
        MigrationStep::StageMarker,
        MigrationStep::Journal(RescueMigrationPhase::Prepared),
        MigrationStep::Journal(RescueMigrationPhase::PriorBackingUp),
        MigrationStep::RenameRescue,
        MigrationStep::Journal(RescueMigrationPhase::PriorBackedUp),
        MigrationStep::Journal(RescueMigrationPhase::NoticePublishing),
        MigrationStep::RenameStage,
        MigrationStep::Journal(RescueMigrationPhase::NoticePublished),
        MigrationStep::Journal(RescueMigrationPhase::RecordCommitting),
        MigrationStep::WriteRecord,
        MigrationStep::Journal(RescueMigrationPhase::RecordCommitted),
        MigrationStep::Journal(RescueMigrationPhase::BackupRetiring),
        MigrationStep::RemoveBackup,
        MigrationStep::Clear,
    ]
}

/// The steps of a migration, in order.
pub fn migration_steps() -> (r: Vec<MigrationStep>)
    ensures
        r@ == migration_plan(),
{
    let mut steps: Vec<MigrationStep> = Vec::new();
    steps.push(MigrationStep::Journal(RescueMigrationPhase::Intent));
    steps.push(MigrationStep::CreateStage);
    steps.push(MigrationStep::StageNotice);
    steps.push(MigrationStep::StageMarker);
    steps.push(MigrationStep::Journal(RescueMigrationPhase::Prepared));
    steps.push(MigrationStep::Journal(RescueMigrationPhase::PriorBackingUp));
    steps.push(MigrationStep::RenameRescue);
    steps.push(MigrationStep::Journal(RescueMigrationPhase::PriorBackedUp));
    steps.push(MigrationStep::Journal(RescueMigrationPhase::NoticePublishing));
    steps.push(MigrationStep::RenameStage);
    steps.push(MigrationStep::Journal(RescueMigrationPhase::NoticePublished));
    steps.push(MigrationStep::Journal(RescueMigrationPhase::RecordCommitting));
    steps.push(MigrationStep::WriteRecord);
    steps.push(MigrationStep::Journal(RescueMigrationPhase::RecordCommitted));
    steps.push(MigrationStep::Journal(RescueMigrationPhase::BackupRetiring));
    steps.push(MigrationStep::RemoveBackup);
    steps.push(MigrationStep::Clear);
    assert(steps@ =~= migration_plan());
    steps
}

/// What a step of a migration leads to. Once the prepared journal is written, the
/// stage is known by its identity and no longer as planned.
pub open spec fn after_migration_step(s: MigrationState, step: MigrationStep) -> MigrationState {
    match step {
        MigrationStep::Journal(phase) => MigrationState {
            journal: Some(phase),
            live: if phase == RescueMigrationPhase::Prepared {
                RescueMigrationLiveState { stage: RescueTreeState::New, ..s.live }
            } else {
                s.live
            },
        },
        MigrationStep::CreateStage
        | MigrationStep::StageNotice
        | MigrationStep::StageMarker => MigrationState {
            live: RescueMigrationLiveState { stage: RescueTreeState::PlannedSubset, ..s.live },
            ..s
        },
        MigrationStep::RenameRescue => MigrationState {
            live: RescueMigrationLiveState {
                rescue: RescueTreeState::Absent,
                backup: s.live.rescue,
                ..s.live
            },
            ..s
        },
        MigrationStep::RenameStage => MigrationState {
            live: RescueMigrationLiveState {
                rescue: s.live.stage,
                stage: RescueTreeState::Absent,
                ..s.live
            },
            ..s
        },
        MigrationStep::WriteRecord => MigrationState {
            live: RescueMigrationLiveState { record: RescueRecordState::New, ..s.live },
            ..s
        },
        MigrationStep::RemoveBackup => MigrationState {
            live: RescueMigrationLiveState { backup: RescueTreeState::Absent, ..s.live },
            ..s
        },
        MigrationStep::Clear => MigrationState { journal: None, ..s },
    }
}

/// Where a migration stands before its first step.
pub open spec fn migration_start() -> MigrationState {
    MigrationState {
        journal: None,
        live: RescueMigrationLiveState {
            record: RescueRecordState::Prior,
            rescue: RescueTreeState::Prior,
            stage: RescueTreeState::Absent,
            backup: RescueTreeState::Absent,
        },
    }
}

/// Where a migration stands after its first `n` steps.
pub open spec fn migration_at(n: nat) -> MigrationState
    decreases n,
{
    if n == 0 {
        migration_start()
    } else {
        after_migration_step(migration_at((n - 1) as nat), migration_plan()[n - 1])
    }
}

/// Wherever a migration is interrupted, its recovery knows what to do: with a
/// journal in place there is a route, without one the migration has not begun or
/// is complete. Each journal may replace the one before it.
pub proof fn law_every_interruption_is_recoverable(n: nat)
    requires
        n <= migration_plan().len(),
    ensures
        match migration_at(n).journal {
            Some(phase) => recovery_route(phase, migration_at(n).live) is Some,
            None => n == 0 || n == migration_plan().len(),
        },
        n < migration_plan().len() && migration_plan()[n as int] is Journal && migration_at(
            n,
        ).journal is Some ==> replaceable(
            migration_at(n).journal->0,
            migration_plan()[n as int]->Journal_0,
        ),
{
    reveal_with_fuel(migration_at, 18);
    assert(migration_plan().len() == 17);
    if n == 0 {
    } else if n == 1 {
    } else if n == 2 {
    } else if n == 3 {
    } else if n == 4 {
    } else if n == 5 {
    } else if n == 6 {
    } else if n == 7 {
    } else if n == 8 {
    } else if n == 9 {
    } else if n == 10 {
    } else if n == 11 {
    } else if n == 12 {
    } else if n == 13 {
    } else if n == 14 {
    } else if n == 15 {
    } else if n == 16 {
    } else {
        assert(n == 17);
    }
}

/// An uninterrupted migration ends with the new record, the new files and nothing
/// else.
pub proof fn law_migration_completes()
    ensures
        migration_at(17).journal is None,
        migration_at(17).live == (RescueMigrationLiveState {
            record: RescueRecordState::New,
            rescue: RescueTreeState::New,
            stage: RescueTreeState::Absent,
            backup: RescueTreeState::Absent,
        }),
{
    reveal_with_fuel(migration_at, 18);
}

/// The last entry of an inventory for a path.
pub open spec fn last_owned(files: Seq<OwnedFileView>, path: Seq<u8>) -> Option<OwnedFileView>
    decreases files.len(),
{
    if files.len() == 0 {
        None
    } else if same_path(files.last().path, path) {
        Some(files.last())
    } else {
        last_owned(files.drop_last(), path)
    }
}

fn find_last_owned<'a>(files: &'a Vec<OwnedFile>, path: &FsPath) -> (r: Option<&'a OwnedFile>)
    ensures
        (match r {
            Some(f) => Some(f@),
            None => None,
        }) == last_owned(owned_views(files@), path@),
{
    let ghost views = owned_views(files@);
    let mut n: usize = files.len();
    assert(views.take(n as int) =~= views);
    while n > 0
        invariant
            n <= files.len(),
            views == owned_views(files@),
            last_owned(views, path@) == last_owned(views.take(n as int), path@),
        decreases n,
    {
        assert(views.take(n as int).last() == files@[n - 1]@);
        assert(views.take(n as int).drop_last() =~= views.take(n - 1));
        if files[n - 1].path.same(path) {
            return Some(&files[n - 1]);
        }
        n -= 1;
    }
    None
}

/// A file of a snapshot is what a record has for its path.
pub open spec fn recorded_file(record: RecordView, f: StageFileView) -> bool {
    match last_owned(record.owned_files, f.path) {
        Some(owned) => owned.mode == f.mode && owned.sha256 == f.sha256,
        None => false,
    }
}

/// What is wrong with a snapshot of the rescue directory that a record describes.
pub open spec fn rescue_snapshot_failure(
    record: RecordView,
    rescue: Seq<u8>,
    s: SnapshotView,
) -> Option<Failure> {
    or_else(
        snapshot_failure(rescue, s),
        if s.directories.len() != 1 || !same_path(s.directories[0].path, rescue) {
            unrecovered("rescue snapshot directory inventory is not exact"@)
        } else if s.files.len() != distinct(owned_below(record.owned_files, rescue)).len() || exists|
            i: int,
        |
            0 <= i < s.files.len() && !recorded_file(record, #[trigger] s.files[i]) {
            unrecovered("rescue snapshot file inventory is not exact"@)
        } else {
            None
        },
    )
}

fn count_distinct_below(files: &Vec<OwnedFile>, base: &FsPath) -> (r: usize)
    ensures
        r == distinct(owned_below(owned_views(files@), base@)).len(),
{
    let below = crate::transaction::owned_paths_below(files, base);
    let ghost all = path_views(below@);
    let mut dirs = DistinctPaths::new();
    let mut i: usize = 0;
    assert(all.take(0) =~= Seq::<Seq<u8>>::empty());
    while i < below.len()
        invariant
            i <= below.len(),
            all == path_views(below@),
            dirs.wf(),
            dirs.all@ == all.take(i as int),
        decreases below.len() - i,
    {
        dirs.add(below[i].copy());
        assert(all.take(i + 1) =~= all.take(i as int).push(all[i as int]));
        i += 1;
    }
    assert(all.take(i as int) =~= all);
    assert(path_views(dirs.kept@).len() == dirs.kept@.len());
    dirs.kept.len()
}

/// Checks a snapshot of the rescue directory that a record describes.
pub fn validate_rescue_snapshot_for_record(
    record: &OwnershipRecord,
    rescue: &FsPath,
    snapshot: &StageSnapshot,
) -> (r: ManagedResult<()>)
    ensures
        failure(r) == rescue_snapshot_failure(record@, rescue@, snapshot@),
{
    validate_stage_snapshot_semantics(rescue, snapshot)?;
    assert(snapshot@.directories.len() == snapshot.directories@.len());
    if snapshot.directories.len() != 1 {
        return fail("recovery_needed", "rescue snapshot directory inventory is not exact");
    }
    assert(snapshot@.directories[0] == snapshot.directories@[0]@);
    if !snapshot.directories[0].path.same(rescue) {
        return fail("recovery_needed", "rescue snapshot directory inventory is not exact");
    }
    assert(snapshot@.files.len() == snapshot.files@.len());
    if snapshot.files.len() != count_distinct_below(&record.owned_files, rescue) {
        return fail("recovery_needed", "rescue snapshot file inventory is not exact");
    }
    let mut i: usize = 0;
    while i < snapshot.files.len()
        invariant
            i <= snapshot.files.len(),
            snapshot@.files.len() == snapshot.files@.len(),
            snapshot_failure(rescue@, snapshot@) is None,
            snapshot@.directories.len() == 1,
            same_path(snapshot@.directories[0].path, rescue@),
            snapshot@.files.len() == distinct(owned_below(record@.owned_files, rescue@)).len(),
            forall|k: int| 0 <= k < i ==> recorded_file(record@, #[trigger] snapshot@.files[k]),
        decreases snapshot.files.len() - i,
    {
        let file = &snapshot.files[i];
        assert(snapshot@.files[i as int] == file@);
        let recorded = match find_last_owned(&record.owned_files, &file.path) {
            Some(owned) => owned.mode == file.mode && text_eq(
                owned.sha256.as_str(),
                file.sha256.as_str(),
            ),
            None => false,
        };
        if !recorded {
            assert(!recorded_file(record@, snapshot@.files[i as int]));
            return fail("recovery_needed", "rescue snapshot file inventory is not exact");
        }
        i += 1;
    }
    Ok(())
}

/// The key by which staged files are sorted.
pub open spec fn stage_file_key() -> spec_fn(StageFileView) -> Seq<u8> {
    |f: StageFileView| f.path
}

/// A rescue file as it is planned for the stage.
pub open spec fn planned_file(f: OwnedFileView, rescue: Seq<u8>, stage: Seq<u8>) -> StageFileView {
    StageFileView {
        path: moved(f.path, rescue, stage),
        device: 0,
        inode: 0,
        mode: f.mode,
        sha256: f.sha256,
    }
}

/// The stage as it is planned for a record.
pub open spec fn planned_stage(record: RecordView, rescue: Seq<u8>, stage: Seq<u8>) -> SnapshotView {
    SnapshotView {
        directories: seq![DirView { path: stage, device: 0, inode: 0, mode: 0o700 }],
        files: sorted_by(
            SortOrder::ByPath,
            record.owned_files.filter(|f: OwnedFileView| path_under(f.path, rescue)).map_values(
                |f: OwnedFileView| planned_file(f, rescue, stage),
            ),
            stage_file_key(),
        ),
    }
}

/// The stage as it is planned for a record.
pub fn planned_rescue_stage_snapshot(
    record: &OwnershipRecord,
    rescue: &FsPath,
    stage: &FsPath,
) -> (r: ManagedResult<StageSnapshot>)
    ensures
        failure(r) == snapshot_failure(stage@, planned_stage(record@, rescue@, stage@)),
        r is Ok ==> r->Ok_0@ == planned_stage(record@, rescue@, stage@),
{
    let ghost views = record@.owned_files;
    let ghost keep = |f: OwnedFileView| path_under(f.path, rescue@);
    let ghost plan = |f: OwnedFileView| planned_file(f, rescue@, stage@);
    let mut files: Vec<OwnedStageFile> = Vec::new();
    let mut i: usize = 0;
    proof {
        reveal(Seq::filter);
        assert(views.take(0).filter(keep) =~= Seq::empty());
        assert(file_views(files@) =~= views.take(0).filter(keep).map_values(plan));
    }
    while i < record.owned_files.len()
        invariant
            i <= record.owned_files.len(),
            views == record@.owned_files,
            keep == (|f: OwnedFileView| path_under(f.path, rescue@)),
            plan == (|f: OwnedFileView| planned_file(f, rescue@, stage@)),
            file_views(files@) == views.take(i as int).filter(keep).map_values(plan),
        decreases record.owned_files.len() - i,
    {
        let ghost before = files@;
        let ghost so_far = views.take(i as int).filter(keep);
        let owned = &record.owned_files[i];
        proof {
            crate::pi::lemma_filter_next(views, keep, i as int);
            assert(views[i as int] == owned@);
        }
        if let Some(relative) = strip_prefix(&owned.path, rescue) {
            let path = stage.join_bytes(relative.bytes.as_slice());
            files.push(
                OwnedStageFile {
                    path,
                    device: 0,
                    inode: 0,
                    mode: owned.mode,
                    sha256: owned.sha256.clone(),
                },
            );
            proof {
                assert(so_far.push(owned@).map_values(plan) =~= so_far.map_values(plan).push(
                    planned_file(owned@, rescue@, stage@),
                ));
                assert(file_views(files@) =~= file_views(before).push(
                    planned_file(owned@, rescue@, stage@),
                ));
            }
        }
        i += 1;
    }
    assert(views.take(i as int) =~= views);
    proof {
        lemma_sorted_map(
            SortOrder::ByPath,
            files@,
            |f: OwnedStageFile| f@,
            location_key::<OwnedStageFile>(),
            stage_file_key(),
        );
    }
    let sorted = sort_located(SortOrder::ByPath, files);
    let mut directories: Vec<OwnedDirectory> = Vec::new();
    directories.push(OwnedDirectory { path: stage.copy(), device: 0, inode: 0, mode: 0o700 });
    let snapshot = StageSnapshot { directories, files: sorted };
    assert(dir_views(snapshot.directories@) =~= planned_stage(
        record@,
        rescue@,
        stage@,
    ).directories);
    assert(snapshot@ == planned_stage(record@, rescue@, stage@));
    validate_stage_snapshot_semantics(stage, &snapshot)?;
    Ok(snapshot)
}

/// A planned stage is one of which nothing exists yet.
pub proof fn law_planned_stage_is_planned(record: RecordView, rescue: Seq<u8>, stage: Seq<u8>)
    ensures
        planned_only(planned_stage(record, rescue, stage)),
{
    let plan = record.owned_files.filter(
        |f: OwnedFileView| path_under(f.path, rescue),
    ).map_values(|f: OwnedFileView| planned_file(f, rescue, stage));
    crate::order::lemma_sorting_keeps_items(SortOrder::ByPath, plan, stage_file_key());
    let sorted = sorted_by(SortOrder::ByPath, plan, stage_file_key());
    assert forall|i: int| 0 <= i < sorted.len() implies (#[trigger] sorted[i]).device == 0
        && sorted[i].inode == 0 by {
        vstd::seq_lib::to_multiset_contains(sorted, sorted[i]);
        vstd::seq_lib::to_multiset_contains(plan, sorted[i]);
        assert(sorted.contains(sorted[i]));
        assert(plan.contains(sorted[i]));
    }
}

/// A record without what it says of the rescue directory.
pub open spec fn without_rescue(record: RecordView, rescue: Seq<u8>) -> RecordView {
    RecordView {
        owned_files: outside_of(record.owned_files, rescue),
        rescue_marker_digest: Seq::empty(),
        ..record
    }
}

/// A record without what it says of the rescue directory.
pub fn normalized_non_rescue_record(record: &OwnershipRecord, rescue: &FsPath) -> (r:
    OwnershipRecord)
    ensures
        r@ == without_rescue(record@, rescue@),
{
    let mut normalized = record.copy();
    let kept = without_subtree(&record.owned_files, rescue);
    normalized.owned_files = kept;
    normalized.rescue_marker_digest = String::new();
    assert(normalized@ == without_rescue(record@, rescue@));
    normalized
}

/// The token in the name of a migration's stage.
pub open spec fn migration_token(m: RescueMigration) -> Option<Seq<u8>> {
    if name_starts(m.stage@, ".rescue-migration-stage-"@) && valid_utf8(file_name(m.stage@)->0) {
        Some(file_name(m.stage@)->0.skip(utf8(".rescue-migration-stage-"@).len() as int))
    } else {
        None
    }
}

/// The places that the journal of a migration names are where they must be.
pub open spec fn migration_places_ok(m: RescueMigration, stable: Seq<u8>, token: Seq<u8>) -> bool {
    &&& phase_known(m.schema_version, m.phase)
    &&& same_path(m.rescue@, rescue_dir(stable))
    &&& directly_in(m.stage@, stable)
    &&& directly_in(m.backup@, stable)
    &&& file_name(m.backup@) == Some(utf8(".rescue-migration-backup-"@) + token)
    &&& token_ok(token)
}

/// The two records of a migration differ in the rescue directory alone.
pub open spec fn migration_records_failure(m: RescueMigration, stable: Seq<u8>) -> Option<Failure> {
    let refused = unrecovered("rescue migration ownership transition is not exact"@);
    match layout_of(m.prior_record@, stable) {
        Err(f) => Some(f),
        Ok(RescueLayout::SourceNotice) => refused,
        Ok(_) => match layout_of(m.new_record@, stable) {
            Err(f) => Some(f),
            Ok(layout) => if layout != RescueLayout::SourceNotice || !same_path(
                m.prior_record.plugin_root@,
                m.new_record.plugin_root@,
            ) || !same_record(
                without_rescue(m.prior_record@, rescue_dir(stable)),
                without_rescue(m.new_record@, rescue_dir(stable)),
            ) {
                refused
            } else {
                None
            },
        },
    }
}

/// What is wrong with the snapshots in the journal of a migration.
pub open spec fn migration_snapshots_failure(m: RescueMigration, stable: Seq<u8>) -> Option<
    Failure,
> {
    let rescue = rescue_dir(stable);
    or_else(
        rescue_snapshot_failure(m.prior_record@, rescue, m.prior_snapshot@),
        or_else(
            snapshot_failure(m.stage@, m.new_snapshot@),
            match relocation(m.new_snapshot@, m.stage@, rescue) {
                Err(f) => Some(f),
                Ok(published) => or_else(
                    rescue_snapshot_failure(m.new_record@, rescue, published),
                    if (m.phase == RescueMigrationPhase::Intent && !planned_only(m.new_snapshot@))
                        || (m.phase != RescueMigrationPhase::Intent && m.phase
                        != RescueMigrationPhase::StageCleaning && planned_only(m.new_snapshot@)) {
                        unrecovered(
                            "rescue migration stage identity does not match its phase"@,
                        )
                    } else {
                        None
                    },
                ),
            },
        ),
    )
}

/// What is wrong with the journal of a migration.
pub open spec fn migration_failure(
    m: RescueMigration,
    stable: Seq<u8>,
    settings: Result<Seq<u8>, Failure>,
) -> Option<Failure> {
    match migration_token(m) {
        None => unrecovered("rescue migration stage name is invalid"@),
        Some(token) => if !migration_places_ok(m, stable, token) {
            unrecovered("rescue migration journal relationships are invalid"@)
        } else {
            or_else(
                record_failure(m.prior_record@, stable, m.prior_record.plugin_root@, settings),
                or_else(
                    record_failure(m.new_record@, stable, m.new_record.plugin_root@, settings),
                    or_else(
                        migration_records_failure(m, stable),
                        migration_snapshots_failure(m, stable),
                    ),
                ),
            )
        },
    }
}

fn find_migration_token(m: &RescueMigration) -> (r: Option<Vec<u8>>)
    ensures
        (match r {
            Some(t) => Some(t@),
            None => None,
        }) == migration_token(*m),
{
    match m.stage.file_name() {
        Some(name) => {
            if utf8_str(name.as_slice()).is_none() {
                return None;
            }
            name_after(&m.stage, ".rescue-migration-stage-")
        },
        None => None,
    }
}

fn migration_places_are_ok(m: &RescueMigration, stable_root: &FsPath, token: &Vec<u8>) -> (r: bool)
    ensures
        r == migration_places_ok(*m, stable_root@, token@),
{
    let mut wanted = text_bytes(".rescue-migration-backup-");
    let ghost head = wanted@;
    let mut i: usize = 0;
    while i < token.len()
        invariant
            i <= token.len(),
            wanted@ == head + token@.take(i as int),
        decreases token.len() - i,
    {
        wanted.push(token[i]);
        i += 1;
        assert(wanted@ =~= head + token@.take(i as int));
    }
    assert(token@.take(i as int) =~= token@);
    let named = match m.backup.file_name() {
        Some(name) => bytes_eq(name.as_slice(), wanted.as_slice()),
        None => false,
    };
    rescue_migration_schema_phase_is_known(m.schema_version, m.phase) && m.rescue.same(
        &rescue_directory(stable_root),
    ) && is_directly_in(&m.stage, stable_root) && is_directly_in(&m.backup, stable_root) && named
        && token.len() == 32 && all_lower_hex(token.as_slice())
}

fn check_migration_records(m: &RescueMigration, stable_root: &FsPath) -> (r: ManagedResult<()>)
    ensures
        failure(r) == migration_records_failure(*m, stable_root@),
{
    let prior = rescue_layout(&m.prior_record, stable_root)?;
    if prior == RescueLayout::SourceNotice {
        return fail("recovery_needed", "rescue migration ownership transition is not exact");
    }
    let new = rescue_layout(&m.new_record, stable_root)?;
    let rescue = rescue_directory(stable_root);
    let before = normalized_non_rescue_record(&m.prior_record, &rescue);
    let after = normalized_non_rescue_record(&m.new_record, &rescue);
    if new != RescueLayout::SourceNotice || !m.prior_record.plugin_root.same(
        &m.new_record.plugin_root,
    ) || !before.same(&after) {
        return fail("recovery_needed", "rescue migration ownership transition is not exact");
    }
    Ok(())
}

/// Checks the journal of a migration.
pub fn validate_rescue_migration(
    stable_root: &FsPath,
    m: &RescueMigration,
    pi_settings: &ManagedResult<FsPath>,
) -> (r: ManagedResult<()>)
    ensures
        failure(r) == migration_failure(*m, stable_root@, outcome(*pi_settings)),
{
    let Some(token) = find_migration_token(m) else {
        return fail("recovery_needed", "rescue migration stage name is invalid");
    };
    if !migration_places_are_ok(m, stable_root, &token) {
        return fail("recovery_needed", "rescue migration journal relationships are invalid");
    }
    validate_record_semantics(
        &m.prior_record,
        stable_root,
        &m.prior_record.plugin_root,
        pi_settings,
    )?;
    validate_record_semantics(
        &m.new_record,
        stable_root,
        &m.new_record.plugin_root,
        pi_settings,
    )?;
    check_migration_records(m, stable_root)?;
    let rescue = rescue_directory(stable_root);
    validate_rescue_snapshot_for_record(&m.prior_record, &rescue, &m.prior_snapshot)?;
    validate_stage_snapshot_semantics(&m.stage, &m.new_snapshot)?;
    let published = relocate_stage_snapshot(&m.new_snapshot, &m.stage, &rescue)?;
    validate_rescue_snapshot_for_record(&m.new_record, &rescue, &published)?;
    let planned = rescue_stage_snapshot_is_planned(&m.new_snapshot);
    if (m.phase == RescueMigrationPhase::Intent && !planned) || (m.phase
        != RescueMigrationPhase::Intent && m.phase != RescueMigrationPhase::StageCleaning
        && planned) {
        return fail("recovery_needed", "rescue migration stage identity does not match its phase");
    }
    Ok(())
}

/// The second journal is one that may be about to replace the first.
pub open spec fn temp_matches(published: RescueMigration, temporary: RescueMigration) -> bool {
    &&& published.schema_version == temporary.schema_version
    &&& same_path(published.rescue@, temporary.rescue@)
    &&& same_path(published.stage@, temporary.stage@)
    &&& same_path(published.backup@, temporary.backup@)
    &&& same_record(published.prior_record@, temporary.prior_record@)
    &&& same_record(published.new_record@, temporary.new_record@)
    &&& same_snapshot(published.prior_snapshot@, temporary.prior_snapshot@)
    &&& inventory_matches(published.new_snapshot@, temporary.new_snapshot@)
    &&& replaceable(published.phase, temporary.phase)
}

/// Whether the second journal is one that may be about to replace the first.
pub fn rescue_migration_temp_matches_published(
    published: &RescueMigration,
    temporary: &RescueMigration,
) -> (r: bool)
    ensures
        r == temp_matches(*published, *temporary),
{
    published.schema_version == temporary.schema_version && published.rescue.same(
        &temporary.rescue,
    ) && published.stage.same(&temporary.stage) && published.backup.same(&temporary.backup)
        && published.prior_record.same(&temporary.prior_record) && published.new_record.same(
        &temporary.new_record,
    ) && published.prior_snapshot.same(&temporary.prior_snapshot)
        && rescue_snapshot_inventory_matches(&published.new_snapshot, &temporary.new_snapshot)
        && rescue_migration_temp_transition_is_allowed(published.phase, temporary.phase)
}

/// A half-written journal beside a published one, or alone, is one that an
/// interruption leaves.
pub open spec fn temp_authentic(
    published: Option<RescueMigration>,
    temporary: RescueMigration,
    current: RecordView,
    live: RescueMigrationLiveState,
) -> bool {
    match published {
        Some(published) => temp_matches(published, temporary) && recovery_route(
            temporary.phase,
            live,
        ) is Some,
        None => temporary.phase == RescueMigrationPhase::Intent && same_record(
            temporary.prior_record@,
            current,
        ) && recovery_route(temporary.phase, live) == Some(RescueRecoveryRoute::Intent),
    }
}

/// Checks that a half-written journal is one that an interruption leaves.
pub fn reconcile_rescue_migration_temp(
    published: Option<&RescueMigration>,
    temporary: &RescueMigration,
    current: &OwnershipRecord,
    live: RescueMigrationLiveState,
) -> (r: ManagedResult<()>)
    ensures
        failure(r) == if temp_authentic(
            match published {
                Some(p) => Some(*p),
                None => None,
            },
            *temporary,
            current@,
            live,
        ) {
            None
        } else {
            Some(inexact())
        },
{
    let authentic = match published {
        Some(published) => rescue_migration_temp_matches_published(published, temporary)
            && rescue_recovery_route(temporary.phase, live).is_ok(),
        None => temporary.phase == RescueMigrationPhase::Intent && temporary.prior_record.same(
            current,
        ) && match rescue_recovery_route(temporary.phase, live) {
            Ok(RescueRecoveryRoute::Intent) => true,
            _ => false,
        },
    };
    if !authentic {
        return Err(inexact_rescue_migration_state());
    }
    Ok(())
}

/// Where the journal of a migration is written before it is published: the name
/// holds the digest of the encoded record without its rescue part.
pub open spec fn migration_temp_path(stable: Seq<u8>, encoded: Seq<u8>) -> Seq<u8> {
    child(
        stable,
        ".rescue-migration-journal-"@ + hex_text(sha256(encoded).take(16)),
    )
}

/// Where the journal of a migration is written before it is published.
pub fn rescue_migration_temporary_path(stable_root: &FsPath, encoded: &[u8]) -> (r: FsPath)
    ensures
        r@ == migration_temp_path(stable_root@, encoded@),
{
    let digest = sha256_once(encoded);
    let short = vstd::slice::slice_subrange(digest.as_slice(), 0, 16);
    assert(short@ =~= sha256(encoded@).take(16));
    let mut name = ".rescue-migration-journal-".to_owned();
    name.append(hex(short).as_str());
    stable_root.join(name.as_str())
}

/// A name that the files of a migration have: one of three fixed starts and a
/// token.
pub open spec fn artifact_name(name: Seq<u8>) -> bool {
    starts_then_token(name, ".rescue-migration-stage-"@) || starts_then_token(
        name,
        ".rescue-migration-backup-"@,
    ) || starts_then_token(name, ".rescue-migration-journal-"@)
}

/// A name that is a fixed start and a token.
pub open spec fn starts_then_token(name: Seq<u8>, prefix: Seq<char>) -> bool {
    utf8(prefix).is_prefix_of(name) && token_ok(name.skip(utf8(prefix).len() as int))
}

fn is_start_then_token(name: &[u8], prefix: &str) -> (r: bool)
    ensures
        r == starts_then_token(name@, prefix@),
{
    let start = prefix.as_bytes();
    if start.len() > name.len() {
        return false;
    }
    let head = vstd::slice::slice_subrange(name, 0, start.len());
    let rest = vstd::slice::slice_subrange(name, start.len(), name.len());
    assert(rest@ =~= name@.skip(start@.len() as int));
    let same = bytes_eq(head, start);
    assert(utf8(prefix@).is_prefix_of(name@) == (head@ == start@)) by {
        assert(head@ =~= name@.subrange(0, start@.len() as int));
    }
    same && rest.len() == 32 && all_lower_hex(rest)
}

/// Whether a name is one that the files of a migration have.
pub fn is_rescue_migration_artifact_name(name: &[u8]) -> (r: bool)
    ensures
        r == artifact_name(name@),
{
    is_start_then_token(name, ".rescue-migration-stage-") || is_start_then_token(
        name,
        ".rescue-migration-backup-",
    ) || is_start_then_token(name, ".rescue-migration-journal-")
}

/// What is wrong with the names in the managed root when no journal accounts for
/// a migration, looking at the first `n`.
pub open spec fn artifacts_failure(names: Seq<Seq<u8>>, n: int) -> Option<Failure>
    decreases n,
{
    if n <= 0 {
        None
    } else {
        or_else(
            artifacts_failure(names, n - 1),
            if n - 1 >= MAX_PURGE_ENTRIES {
                unrecovered("the managed root exceeds its rescue migration inspection limit"@)
            } else if artifact_name(names[n - 1]) {
                unrecovered(
                    "an unjournaled rescue migration artifact requires manual recovery"@,
                )
            } else {
                None
            },
        )
    }
}

proof fn lemma_artifacts_failure_stays(names: Seq<Seq<u8>>, n: int, m: int)
    requires
        0 <= n <= m,
        artifacts_failure(names, n) is Some,
    ensures
        artifacts_failure(names, m) == artifacts_failure(names, n),
    decreases m - n,
{
    if n < m {
        lemma_artifacts_failure_stays(names, n, m - 1);
    }
}

/// The byte strings that some values stand for.
pub open spec fn byte_views(names: Seq<Vec<u8>>) -> Seq<Seq<u8>> {
    names.map_values(|n: Vec<u8>| n@)
}

/// Refuses files of a migration that no journal accounts for.
pub fn reject_unowned_rescue_migration_artifacts(names: &Vec<Vec<u8>>) -> (r: ManagedResult<()>)
    ensures
        failure(r) == artifacts_failure(byte_views(names@), names@.len() as int),
{
    let ghost views = byte_views(names@);
    let mut i: usize = 0;
    while i < names.len()
        invariant
            i <= names.len(),
            views == byte_views(names@),
            artifacts_failure(views, i as int) is None,
        decreases names.len() - i,
    {
        proof {
            assert(views[i as int] == names@[i as int]@);
            if artifacts_failure(views, i + 1) is Some {
                lemma_artifacts_failure_stays(views, i + 1, views.len() as int);
            }
        }
        if i >= MAX_PURGE_ENTRIES {
            return fail(
                "recovery_needed",
                "the managed root exceeds its rescue migration inspection limit",
            );
        }
        if is_rescue_migration_artifact_name(names[i].as_slice()) {
            return fail(
                "recovery_needed",
                "an unjournaled rescue migration artifact requires manual recovery",
            );
        }
        i += 1;
    }
    assert(views.len() == names@.len());
    Ok(())
}

/// The record that a migration leads to: the old rescue entries are replaced by
/// the new notice.
pub open spec fn migrated_base(prior: RecordView, stable: Seq<u8>, notice: Seq<u8>) -> RecordView {
    RecordView {
        owned_files: sorted_by(
            SortOrder::ByPath,
            outside_of(prior.owned_files, rescue_dir(stable)).push(
                OwnedFileView {
                    path: prior.rescue_path,
                    sha256: sha256_text(notice),
                    mode: 0o600,
                },
            ),
            owned_key(),
        ),
        ..prior
    }
}

/// The record that a migration leads to, with the entry of its new marker.
pub open spec fn migrated_record(
    prior: RecordView,
    stable: Seq<u8>,
    notice: Seq<u8>,
    marker: Seq<char>,
) -> RecordView {
    let base = migrated_base(prior, stable, notice);
    let digest = sha256_text(utf8(marker));
    RecordView {
        rescue_marker_digest: if prior.schema_version == OWNERSHIP_SCHEMA {
            digest
        } else {
            prior.rescue_marker_digest
        },
        owned_files: sorted_by(
            SortOrder::ByPath,
            base.owned_files.push(
                OwnedFileView {
                    path: rescue_marker_file(stable),
                    sha256: digest,
                    mode: 0o600,
                },
            ),
            owned_key(),
        ),
        ..base
    }
}

/// Where the stage of a migration is.
pub open spec fn migration_stage(stable: Seq<u8>, token: Seq<char>) -> Seq<u8> {
    child(stable, ".rescue-migration-stage-"@ + token)
}

/// Where a migration keeps the rescue directory of before.
pub open spec fn migration_backup(stable: Seq<u8>, token: Seq<char>) -> Seq<u8> {
    child(stable, ".rescue-migration-backup-"@ + token)
}

/// What stands in the way of a migration of a rescue directory that was found as the
/// record of before lists it or not.
pub open spec fn beginning_failure(
    prior: RecordView,
    stable: Seq<u8>,
    plugin_root: Seq<u8>,
    token: Seq<char>,
    found: SnapshotView,
    notice: ManagedResult<Vec<u8>>,
    settings: Result<Seq<u8>, Failure>,
) -> Option<Failure> {
    or_else(
        rescue_snapshot_failure(prior, rescue_dir(stable), found),
        match notice {
            Err(e) => Some(e@),
            Ok(notice) => match marker_of(migrated_base(prior, stable, notice@), stable) {
                Err(f) => Some(f),
                Ok(marker) => {
                    let record = migrated_record(prior, stable, notice@, marker);
                    or_else(
                        record_failure(record, stable, plugin_root, settings),
                        snapshot_failure(
                            migration_stage(stable, token),
                            planned_stage(
                                record,
                                rescue_dir(stable),
                                migration_stage(stable, token),
                            ),
                        ),
                    )
                },
            },
        },
    )
}

/// The journal that a migration begins with, and its marker.
pub open spec fn begun_migration(
    m: RescueMigration,
    marker: Seq<char>,
    prior: RecordView,
    stable: Seq<u8>,
    token: Seq<char>,
    found: SnapshotView,
    bytes: Seq<u8>,
) -> bool {
    {
        &&& marker_of(migrated_base(prior, stable, bytes), stable) == Ok::<
            Seq<char>,
            Failure,
        >(marker)
        &&& m.schema_version == RESCUE_MIGRATION_SCHEMA
        &&& m.phase == RescueMigrationPhase::Intent
        &&& m.rescue@ == rescue_dir(stable)
        &&& m.stage@ == migration_stage(stable, token)
        &&& m.backup@ == migration_backup(stable, token)
        &&& m.prior_record@ == prior
        &&& m.new_record@ == migrated_record(prior, stable, bytes, marker)
        &&& m.prior_snapshot@ == found
        &&& m.new_snapshot@ == planned_stage(m.new_record@, m.rescue@, m.stage@)
    }
}

/// Begins a migration of an older rescue directory: its journal, and the text of the
/// new marker.
pub fn begin_migration(
    prior: &OwnershipRecord,
    stable_root: &FsPath,
    plugin_root: &FsPath,
    token: &str,
    found: StageSnapshot,
    notice: &ManagedResult<Vec<u8>>,
    pi_settings: &ManagedResult<FsPath>,
) -> (r: ManagedResult<(RescueMigration, String)>)
    ensures
        failure(r) == beginning_failure(
            prior@,
            stable_root@,
            plugin_root@,
            token@,
            found@,
            *notice,
            outcome(*pi_settings),
        ),
        r is Ok ==> begun_migration((r->Ok_0).0, (r->Ok_0).1@, prior@, stable_root@, token@, found@, notice->Ok_0@),
{
    let rescue = rescue_directory(stable_root);
    validate_rescue_snapshot_for_record(prior, &rescue, &found)?;
    let notice = match notice {
        Ok(notice) => notice,
        Err(e) => {
            return Err(e.copy());
        },
    };
    let (new_record, marker) = migrate_record(
        prior,
        stable_root,
        plugin_root,
        notice.as_slice(),
        pi_settings,
    )?;
    let stage = stable_root.join(text_join(".rescue-migration-stage-", token).as_str());
    let backup = stable_root.join(text_join(".rescue-migration-backup-", token).as_str());
    let new_snapshot = planned_rescue_stage_snapshot(&new_record, &rescue, &stage)?;
    let migration = RescueMigration {
        schema_version: RESCUE_MIGRATION_SCHEMA,
        phase: RescueMigrationPhase::Intent,
        rescue,
        stage,
        backup,
        prior_record: prior.copy(),
        new_record,
        prior_snapshot: found,
        new_snapshot,
    };
    Ok((migration, marker))
}

/// Sorts the entries of an inventory by their paths.
pub fn sort_owned(files: Vec<OwnedFile>) -> (r: Vec<OwnedFile>)
    ensures
        owned_views(r@) == sorted_by(SortOrder::ByPath, owned_views(files@), owned_key()),
{
    proof {
        lemma_sorted_map(
            SortOrder::ByPath,
            files@,
            |f: OwnedFile| f@,
            location_key::<OwnedFile>(),
            owned_key(),
        );
    }
    sort_located(SortOrder::ByPath, files)
}

/// An inventory with one more entry, sorted by paths.
pub fn add_owned(files: Vec<OwnedFile>, added: OwnedFile) -> (r: Vec<OwnedFile>)
    ensures
        owned_views(r@) == sorted_by(
            SortOrder::ByPath,
            owned_views(files@).push(added@),
            owned_key(),
        ),
{
    let ghost before = owned_views(files@);
    let ghost entry = added@;
    let mut files = files;
    files.push(added);
    assert(owned_views(files@) =~= before.push(entry));
    sort_owned(files)
}

/// Makes the record that a migration leads to, and the text of its marker.
pub fn migrate_record(
    prior: &OwnershipRecord,
    stable_root: &FsPath,
    plugin_root: &FsPath,
    notice: &[u8],
    pi_settings: &ManagedResult<FsPath>,
) -> (r: ManagedResult<(OwnershipRecord, String)>)
    ensures
        failure(r) == match marker_of(
            migrated_base(prior@, stable_root@, notice@),
            stable_root@,
        ) {
            Err(f) => Some(f),
            Ok(marker) => record_failure(
                migrated_record(prior@, stable_root@, notice@, marker),
                stable_root@,
                plugin_root@,
                outcome(*pi_settings),
            ),
        },
        r is Ok ==> marker_of(migrated_base(prior@, stable_root@, notice@), stable_root@) == Ok::<
            Seq<char>,
            Failure,
        >(r->Ok_0.1@) && r->Ok_0.0@ == migrated_record(
            prior@,
            stable_root@,
            notice@,
            r->Ok_0.1@,
        ),
{
    let rescue = rescue_directory(stable_root);
    let mut record = prior.copy();
    let kept = without_subtree(&prior.owned_files, &rescue);
    record.owned_files = add_owned(
        kept,
        OwnedFile {
            path: prior.rescue_path.copy(),
            sha256: sha256_bytes(notice),
            mode: 0o600,
        },
    );
    assert(record@ == migrated_base(prior@, stable_root@, notice@));
    let marker = rescue_marker(&record, stable_root)?;
    let digest = sha256_bytes(marker.as_str().as_bytes());
    if record.schema_version == OWNERSHIP_SCHEMA {
        record.rescue_marker_digest = digest.clone();
    }
    let files = record.owned_files;
    record.owned_files = add_owned(
        files,
        OwnedFile { path: rescue_marker_path(stable_root), sha256: digest, mode: 0o600 },
    );
    assert(record@ == migrated_record(prior@, stable_root@, notice@, marker@));
    validate_record_semantics(&record, stable_root, plugin_root, pi_settings)?;
    Ok((record, marker))
}

/// A recovery is undertaken only where nothing is lost by it: with the record of before
/// in place, the rescue directory of before is whole, in its place or as the backup; with
/// the new record in place, the new rescue directory is, and only then is the migration
/// taken for committed.
pub proof fn law_recoveries_lose_nothing(
    phase: RescueMigrationPhase,
    live: RescueMigrationLiveState,
)
    requires
        recovery_route(phase, live) is Some,
    ensures
        live.record is Prior || live.record is New,
        live.record is Prior ==> ((live.rescue is Prior && live.backup is Absent) || (live.backup
            is Prior && !(live.rescue is Prior))),
        live.record is New ==> live.rescue is New && live.stage is Absent,
        recovery_route(phase, live) == Some(RescueRecoveryRoute::Committed) <==> live.record is New,
        live.record is New ==> phase is NoticePublished || phase is RecordCommitting || phase
            is RecordCommitted || phase is BackupRetiring,
{
}

/// The route of a recovery is told by its phase and by what is in place: up to the
/// backup the stage is cleaned or the backup put back, with the new files in place they
/// are taken away first, and a phase of an undoing goes on with it.
pub proof fn law_routes_undo_what_was_done(
    phase: RescueMigrationPhase,
    live: RescueMigrationLiveState,
)
    requires
        recovery_route(phase, live) is Some,
    ensures
        recovery_route(phase, live) == Some(RescueRecoveryRoute::Intent) <==> phase is Intent,
        recovery_route(phase, live) == Some(RescueRecoveryRoute::NoticeCleanup) <==> phase
            is NoticeCleaning,
        recovery_route(phase, live) == Some(RescueRecoveryRoute::PriorRestore) <==> phase
            is PriorRestoring,
        recovery_route(phase, live) == Some(RescueRecoveryRoute::StageCleanup) <==> phase
            is StageCleaning,
        recovery_route(phase, live) == Some(RescueRecoveryRoute::NoticeRollback) <==> (live.record
            is Prior && live.rescue is New && !(phase is NoticeCleaning)),
        recovery_route(phase, live) == Some(RescueRecoveryRoute::BeforeNotice) ==> live.stage is New,
        phase is Prepared || phase is PriorBackingUp ==> recovery_route(phase, live) == Some(
            RescueRecoveryRoute::BeforeNotice,
        ),
{
}

/// A journal is only ever about to be replaced by one of a later phase, or by one that
/// retires the backup again; undoing never turns into going on, nor the other way round
/// once the backup is retired.
pub proof fn law_journals_only_go_on(
    published: RescueMigrationPhase,
    temporary: RescueMigrationPhase,
)
    requires
        replaceable(published, temporary),
    ensures
        ({
            let rank = |p: RescueMigrationPhase| -> int
                {
                    match p {
                        RescueMigrationPhase::Intent => 0,
                        RescueMigrationPhase::Prepared => 1,
                        RescueMigrationPhase::PriorBackingUp => 2,
                        RescueMigrationPhase::PriorBackedUp => 3,
                        RescueMigrationPhase::NoticePublishing => 4,
                        RescueMigrationPhase::NoticePublished => 5,
                        RescueMigrationPhase::RecordCommitting => 6,
                        RescueMigrationPhase::RecordCommitted => 7,
                        RescueMigrationPhase::BackupRetiring => 8,
                        RescueMigrationPhase::NoticeCleaning => 9,
                        RescueMigrationPhase::PriorRestoring => 10,
                        RescueMigrationPhase::StageCleaning => 11,
                    }
                };
            &&& rank(published) < rank(temporary) || (published is BackupRetiring && temporary
                is BackupRetiring)
            &&& rank(temporary) <= 7 ==> rank(temporary) == rank(published) + 1
            &&& published is RecordCommitted || published is BackupRetiring ==> temporary
                is BackupRetiring
            &&& temporary is BackupRetiring ==> rank(published) >= 5
            &&& temporary is StageCleaning ==> published is Intent || published is PriorRestoring
        }),
{
}

/// Journals of the older schema have only the phases that end a change; those of the
/// current one have all.
pub proof fn law_older_journals_have_fewer_phases(schema: u32, phase: RescueMigrationPhase)
    ensures
        schema == 2 ==> phase_known(schema, phase),
        schema == 1 ==> (phase_known(schema, phase) <==> (phase is Prepared || phase
            is PriorBackedUp || phase is NoticePublished || phase is RecordCommitted)),
        schema != 1 && schema != 2 ==> !phase_known(schema, phase),
{
}

/// A tree is taken for what it is compared with only where it has the same entries, and
/// for a part only where it has no other entries; a tree that is like the one of before
/// is never taken for the new one.
pub proof fn law_trees_are_told_by_their_entries(
    current: Option<SnapshotView>,
    prior: Option<SnapshotView>,
    new: Option<SnapshotView>,
    planned: Option<SnapshotView>,
)
    ensures
        ({
            let state = tree_state(current, prior, new, planned);
            &&& state is Absent <==> current is None
            &&& current is Some ==> {
                &&& state is Prior <==> prior is Some && same_snapshot(prior->0, current->0)
                &&& state is New <==> new is Some && same_snapshot(new->0, current->0) && !(
                prior is Some && same_snapshot(prior->0, current->0))
                &&& state is PriorSubset ==> prior is Some && exact_subset(prior->0, current->0)
                &&& state is NewSubset ==> new is Some && exact_subset(new->0, current->0)
                &&& state is PlannedSubset ==> planned is Some && planned_subset(
                    planned->0,
                    current->0,
                )
                &&& state is Other <==> {
                    &&& !(prior is Some && (same_snapshot(prior->0, current->0) || exact_subset(
                        prior->0,
                        current->0,
                    )))
                    &&& !(new is Some && (same_snapshot(new->0, current->0) || exact_subset(
                        new->0,
                        current->0,
                    )))
                    &&& !(planned is Some && planned_subset(planned->0, current->0))
                }
            }
        }),
{
}

/// What is in place is told by the journal: the record by comparing it with both, the
/// rescue directory with both snapshots, the backup with the one of before alone and the
/// stage with the new one alone. A stage of which no file has an identity yet is
/// compared with the plan, and nothing is then taken for the new files.
pub proof fn law_live_states_are_told_by_the_journal(
    m: RescueMigration,
    current: RecordView,
    rescue: Option<SnapshotView>,
    stage: Option<SnapshotView>,
    backup: Option<SnapshotView>,
)
    requires
        live_state(m, current, rescue, stage, backup) is Ok,
    ensures
        ({
            let live = live_state(m, current, rescue, stage, backup)->Ok_0;
            let planned = planned_only(m.new_snapshot@);
            let kept = moved_snapshot(m.prior_snapshot@, m.rescue@, m.backup@);
            let published = moved_snapshot(m.new_snapshot@, m.stage@, m.rescue@);
            &&& live.record is Prior <==> same_record(current, m.prior_record@)
            &&& live.record is New <==> same_record(current, m.new_record@) && !same_record(
                current,
                m.prior_record@,
            )
            &&& live.rescue is Absent <==> rescue is None
            &&& live.stage is Absent <==> stage is None
            &&& live.backup is Absent <==> backup is None
            &&& rescue is Some ==> (live.rescue is Prior <==> same_snapshot(
                m.prior_snapshot@,
                rescue->0,
            ))
            &&& live.rescue is New ==> !planned && same_snapshot(published, rescue->0)
            &&& live.rescue is NewSubset ==> !planned && exact_subset(published, rescue->0)
            &&& backup is Some ==> (live.backup is Prior <==> same_snapshot(kept, backup->0))
            &&& live.backup is PriorSubset ==> exact_subset(kept, backup->0)
            &&& !(live.backup is New) && !(live.backup is NewSubset)
            &&& stage is Some && !planned ==> (live.stage is New <==> same_snapshot(
                m.new_snapshot@,
                stage->0,
            ))
            &&& live.stage is PlannedSubset ==> planned && planned_subset(
                m.new_snapshot@,
                stage->0,
            )
            &&& !(live.stage is Prior) && !(live.stage is PriorSubset)
            &&& planned ==> !(live.stage is New) && !(live.stage is NewSubset)
        }),
{
}

/// A step of a recovery that removes or renames does so only where it is safe: the new
/// files go only with the backup whole, the backup goes only once the new record and the
/// new files are in place, and it comes back only where nothing is in its place.
pub proof fn law_recovery_steps_are_safe(
    phase: RescueMigrationPhase,
    live: RescueMigrationLiveState,
    just_read: bool,
)
    ensures
        next_step(phase, live, just_read) is Some <==> recovery_route(phase, live) is Some,
        next_step(phase, live, just_read) == Some(RescueStep::RemovePublished) ==> live.record
            is Prior && live.backup is Prior && !(live.rescue is Prior) && !(live.rescue is Absent),
        next_step(phase, live, just_read) == Some(RescueStep::RemoveBackup) ==> live.record is New
            && live.rescue is New && !just_read && !(live.backup is Absent),
        next_step(phase, live, just_read) == Some(RescueStep::RenameBackup) ==> live.record is Prior
            && live.rescue is Absent && live.backup is Prior,
        next_step(phase, live, just_read) == Some(RescueStep::RemoveStage) ==> live.record is Prior
            && live.rescue is Prior && !(live.stage is Absent),
        next_step(phase, live, just_read) == Some(RescueStep::Clear) && live.record is New
            ==> !just_read && phase is BackupRetiring,
{
}

/// A rescue directory that a record describes is one directory, with as many files as the
/// record has paths in it, each with the mode and the digest of the record.
pub proof fn law_described_rescue_directories_hold_recorded_files(
    record: RecordView,
    rescue: Seq<u8>,
    s: SnapshotView,
)
    ensures
        rescue_snapshot_failure(record, rescue, s) is None <==> {
            &&& snapshot_failure(rescue, s) is None
            &&& s.directories.len() == 1
            &&& parts(s.directories[0].path) == parts(rescue)
            &&& s.files.len() == distinct(owned_below(record.owned_files, rescue)).len()
            &&& forall|i: int|
                0 <= i < s.files.len() ==> recorded_file(record, #[trigger] s.files[i])
        },
        forall|f: StageFileView| #[trigger]
            recorded_file(record, f) ==> exists|k: int|
                0 <= k < record.owned_files.len() && parts(
                    (#[trigger] record.owned_files[k]).path,
                ) == parts(f.path) && record.owned_files[k].mode == f.mode
                    && record.owned_files[k].sha256 == f.sha256,
{
    assert forall|f: StageFileView| #[trigger] recorded_file(record, f) implies exists|k: int|
        0 <= k < record.owned_files.len() && parts((#[trigger] record.owned_files[k]).path)
            == parts(f.path) && record.owned_files[k].mode == f.mode
            && record.owned_files[k].sha256 == f.sha256 by {
        lemma_last_owned_is_there(record.owned_files, f.path);
    }
}

proof fn lemma_last_owned_is_there(files: Seq<OwnedFileView>, path: Seq<u8>)
    requires
        last_owned(files, path) is Some,
    ensures
        exists|k: int|
            0 <= k < files.len() && parts((#[trigger] files[k]).path) == parts(path) && files[k]
                == last_owned(files, path)->0,
    decreases files.len(),
{
    if same_path(files.last().path, path) {
        assert(files[files.len() - 1] == files.last());
    } else {
        lemma_last_owned_is_there(files.drop_last(), path);
        let k = choose|k: int|
            0 <= k < files.len() - 1 && parts((#[trigger] files.drop_last()[k]).path) == parts(path)
                && files.drop_last()[k] == last_owned(files, path)->0;
        assert(files[k] == files.drop_last()[k]);
    }
}

/// The stage of a migration is planned with a file for each entry that the record has in
/// the rescue directory, at the same place in the stage, with its mode and its digest.
pub proof fn law_planned_stages_hold_the_rescue_files(
    record: RecordView,
    rescue: Seq<u8>,
    stage: Seq<u8>,
    f: OwnedFileView,
)
    requires
        record.owned_files.contains(f),
        path_under(f.path, rescue),
    ensures
        planned_stage(record, rescue, stage).directories.len() == 1,
        planned_stage(record, rescue, stage).directories[0].path == stage,
        planned_stage(record, rescue, stage).directories[0].mode == 0o700,
        planned_stage(record, rescue, stage).files.contains(
            (StageFileView {
                path: moved(f.path, rescue, stage),
                device: 0,
                inode: 0,
                mode: f.mode,
                sha256: f.sha256,
            }),
        ),
        planned_stage(record, rescue, stage).files.len() == owned_below(
            record.owned_files,
            rescue,
        ).len(),
{
    let inside = |f: OwnedFileView| path_under(f.path, rescue);
    let kept = record.owned_files.filter(inside);
    let files = kept.map_values(|f: OwnedFileView| planned_file(f, rescue, stage));
    lemma_filter_has(record.owned_files, inside, f);
    let k = kept.index_of(f);
    assert(files[k] == planned_file(f, rescue, stage));
    assert(files.contains(files[k]));
    lemma_sorting_keeps_members(SortOrder::ByPath, files, stage_file_key());
    lemma_sorting_keeps_items(SortOrder::ByPath, files, stage_file_key());
}

/// The journal of a migration that is accepted names the rescue directory, and a stage
/// and a backup directly beside it that share a token of 32 hexadecimal digits.
pub proof fn law_accepted_migrations_name_their_places(
    m: RescueMigration,
    stable: Seq<u8>,
    settings: Result<Seq<u8>, Failure>,
)
    requires
        migration_failure(m, stable, settings) is None,
    ensures
        phase_known(m.schema_version, m.phase),
        parts(m.rescue@) == parts(rescue_dir(stable)),
        parent(m.stage@) is Some && parts(parent(m.stage@)->0) == parts(stable),
        parent(m.backup@) is Some && parts(parent(m.backup@)->0) == parts(stable),
        exists|token: Seq<u8>|
            token.len() == 32 && #[trigger] crate::text::lower_hex(token) && file_name(m.stage@) == Some(
                utf8(".rescue-migration-stage-"@) + token,
            ) && file_name(m.backup@) == Some(utf8(".rescue-migration-backup-"@) + token),
{
    lemma_accepted_places(m, stable, migration_token(m)->0);
}

proof fn lemma_accepted_places(m: RescueMigration, stable: Seq<u8>, token: Seq<u8>)
    requires
        migration_token(m) == Some(token),
        migration_places_ok(m, stable, token),
    ensures
        parent(m.stage@) is Some && parts(parent(m.stage@)->0) == parts(stable),
        parent(m.backup@) is Some && parts(parent(m.backup@)->0) == parts(stable),
        token.len() == 32,
        crate::text::lower_hex(token),
        file_name(m.stage@) == Some(utf8(".rescue-migration-stage-"@) + token),
        file_name(m.backup@) == Some(utf8(".rescue-migration-backup-"@) + token),
{
    let prefix = utf8(".rescue-migration-stage-"@);
    let name = file_name(m.stage@)->0;
    assert(prefix.is_prefix_of(name));
    assert(name =~= prefix + token);
}

/// An accepted migration leads from an older layout to the current one and changes
/// nothing but the rescue directory; both of its records, and the snapshots by which it
/// tells the two directories, are sound.
pub proof fn law_accepted_migrations_change_the_rescue_directory_alone(
    m: RescueMigration,
    stable: Seq<u8>,
    settings: Result<Seq<u8>, Failure>,
)
    requires
        migration_failure(m, stable, settings) is None,
    ensures
        record_failure(m.prior_record@, stable, m.prior_record.plugin_root@, settings) is None,
        record_failure(m.new_record@, stable, m.new_record.plugin_root@, settings) is None,
        layout_of(m.prior_record@, stable) is Ok,
        layout_of(m.prior_record@, stable)->Ok_0 != RescueLayout::SourceNotice,
        layout_of(m.new_record@, stable) == Ok::<RescueLayout, Failure>(RescueLayout::SourceNotice),
        same_record(
            without_rescue(m.prior_record@, rescue_dir(stable)),
            without_rescue(m.new_record@, rescue_dir(stable)),
        ),
        rescue_snapshot_failure(m.prior_record@, rescue_dir(stable), m.prior_snapshot@) is None,
        snapshot_failure(m.stage@, m.new_snapshot@) is None,
        rescue_snapshot_failure(
            m.new_record@,
            rescue_dir(stable),
            moved_snapshot(m.new_snapshot@, m.stage@, rescue_dir(stable)),
        ) is None,
        m.phase is Intent ==> planned_only(m.new_snapshot@),
        planned_only(m.new_snapshot@) ==> m.phase is Intent || m.phase is StageCleaning,
{
    assert(migration_records_failure(m, stable) is None);
    assert(migration_snapshots_failure(m, stable) is None);
}

/// A record without its rescue directory keeps all entries elsewhere and everything else
/// but the digest of the marker.
pub proof fn law_leaving_the_rescue_directory_out_keeps_the_rest(
    record: RecordView,
    rescue: Seq<u8>,
    f: OwnedFileView,
)
    ensures
        without_rescue(record, rescue).owned_files.contains(f) <==> record.owned_files.contains(f)
            && !path_under(f.path, rescue),
        (RecordView {
            owned_files: record.owned_files,
            rescue_marker_digest: record.rescue_marker_digest,
            ..without_rescue(record, rescue)
        }) == record,
        without_rescue(record, rescue).rescue_marker_digest.len() == 0,
{
    lemma_filter_has(record.owned_files, |f: OwnedFileView| !path_under(f.path, rescue), f);
}

/// A half-written journal counts only as the one that was about to replace the published
/// one, with the same schema, places, records and files; and alone only as the first one
/// of a migration that has changed nothing yet.
pub proof fn law_half_written_journals_belong_to_the_published(
    published: Option<RescueMigration>,
    temporary: RescueMigration,
    current: RecordView,
    live: RescueMigrationLiveState,
)
    requires
        temp_authentic(published, temporary, current, live),
    ensures
        recovery_route(temporary.phase, live) is Some,
        published is None ==> temporary.phase is Intent && same_record(
            temporary.prior_record@,
            current,
        ) && live.record is Prior && live.rescue is Prior && live.backup is Absent,
        published is Some ==> {
            &&& replaceable(published->0.phase, temporary.phase)
            &&& published->0.schema_version == temporary.schema_version
            &&& parts(published->0.rescue@) == parts(temporary.rescue@)
            &&& parts(published->0.stage@) == parts(temporary.stage@)
            &&& parts(published->0.backup@) == parts(temporary.backup@)
            &&& same_record(published->0.prior_record@, temporary.prior_record@)
            &&& same_record(published->0.new_record@, temporary.new_record@)
            &&& same_snapshot(published->0.prior_snapshot@, temporary.prior_snapshot@)
            &&& inventory_matches(published->0.new_snapshot@, temporary.new_snapshot@)
        },
{
}

/// Without a journal, nothing of a migration may be left in the managed root: no name
/// that is one of the three fixed starts with a token behind it. All names are looked at,
/// and there are at most 4096.
pub proof fn law_no_artifact_is_overlooked(names: Seq<Seq<u8>>, n: int)
    requires
        0 <= n <= names.len(),
    ensures
        artifacts_failure(names, n) is None <==> (n <= 4096 && forall|i: int|
            0 <= i < n ==> !artifact_name(#[trigger] names[i])),
    decreases n,
{
    if n > 0 {
        law_no_artifact_is_overlooked(names, n - 1);
    }
}

/// The names of the files of a migration are their fixed start and 32 hexadecimal digits.
pub proof fn law_artifacts_are_told_by_name(token: Seq<u8>)
    requires
        token.len() == 32,
        crate::text::lower_hex(token),
    ensures
        artifact_name(utf8(".rescue-migration-stage-"@) + token),
        artifact_name(utf8(".rescue-migration-backup-"@) + token),
        artifact_name(utf8(".rescue-migration-journal-"@) + token),
{
    let (a, b, c) = (
        utf8(".rescue-migration-stage-"@),
        utf8(".rescue-migration-backup-"@),
        utf8(".rescue-migration-journal-"@),
    );
    assert((a + token).skip(a.len() as int) =~= token);
    assert((b + token).skip(b.len() as int) =~= token);
    assert((c + token).skip(c.len() as int) =~= token);
    assert(a.is_prefix_of(a + token) && b.is_prefix_of(b + token) && c.is_prefix_of(c + token));
}

/// A migrated record owns the notice with the digest of its bytes, the marker with that
/// of its text, and every entry of before outside of the rescue directory; only a record
/// of the current schema repeats the digest of the marker.
pub proof fn law_migrated_records_own_the_new_rescue_files(
    prior: RecordView,
    stable: Seq<u8>,
    notice: Seq<u8>,
    marker: Seq<char>,
    f: OwnedFileView,
)
    ensures
        ({
            let after = migrated_record(prior, stable, notice, marker);
            &&& after.owned_files.contains(f) <==> {
                ||| f.path == prior.rescue_path && f.sha256 == sha256_text(notice) && f.mode
                    == 0o600
                ||| f.path == rescue_marker_file(stable) && f.sha256 == sha256_text(utf8(marker))
                    && f.mode == 0o600
                ||| prior.owned_files.contains(f) && !path_under(f.path, rescue_dir(stable))
            }
            &&& after.rescue_marker_digest == (if prior.schema_version == 3 {
                sha256_text(utf8(marker))
            } else {
                prior.rescue_marker_digest
            })
            &&& (RecordView {
                owned_files: prior.owned_files,
                rescue_marker_digest: prior.rescue_marker_digest,
                ..after
            }) == prior
        }),
{
    let base = migrated_base(prior, stable, notice);
    let after = migrated_record(prior, stable, notice, marker);
    let outside = outside_of(prior.owned_files, rescue_dir(stable));
    let n = OwnedFileView { path: prior.rescue_path, sha256: sha256_text(notice), mode: 0o600 };
    let m = OwnedFileView {
        path: rescue_marker_file(stable),
        sha256: sha256_text(utf8(marker)),
        mode: 0o600,
    };
    lemma_filter_has(
        prior.owned_files,
        |f: OwnedFileView| !path_under(f.path, rescue_dir(stable)),
        f,
    );
    lemma_sorting_keeps_members(SortOrder::ByPath, outside.push(n), owned_key());
    lemma_sorting_keeps_members(SortOrder::ByPath, base.owned_files.push(m), owned_key());
    lemma_push_has(outside, n, f);
    lemma_push_has(base.owned_files, m, f);
    assert(base.owned_files.contains(f) == outside.push(n).contains(f));
    assert(after.owned_files.contains(f) == base.owned_files.push(m).contains(f));
}

/// A migration begins just when the rescue directory is as the record of before lists it,
/// there is a notice, and the record and the stage that it leads to are sound.
pub proof fn law_migrations_begin_from_a_sound_state(
    prior: RecordView,
    stable: Seq<u8>,
    plugin_root: Seq<u8>,
    token: Seq<char>,
    found: SnapshotView,
    notice: ManagedResult<Vec<u8>>,
    settings: Result<Seq<u8>, Failure>,
)
    ensures
        beginning_failure(prior, stable, plugin_root, token, found, notice, settings) is None
            ==> ({
            let base = migrated_base(prior, stable, notice->Ok_0@);
            let record = migrated_record(
                prior,
                stable,
                notice->Ok_0@,
                marker_of(base, stable)->Ok_0,
            );
            let stage = child(stable, ".rescue-migration-stage-"@ + token);
            &&& rescue_snapshot_failure(prior, rescue_dir(stable), found) is None
            &&& notice is Ok
            &&& marker_of(base, stable) is Ok
            &&& record_failure(record, stable, plugin_root, settings) is None
            &&& snapshot_failure(stage, planned_stage(record, rescue_dir(stable), stage)) is None
        }),
        migration_backup(stable, token) == child(stable, ".rescue-migration-backup-"@ + token),
{
}

/// A journal is written under a name of its own first, by the digest of what it is of: 32
/// hexadecimal digits behind the fixed start.
pub proof fn law_journals_are_written_aside(stable: Seq<u8>, encoded: Seq<u8>)
    ensures
        migration_temp_path(stable, encoded) == child(
            stable,
            ".rescue-migration-journal-"@ + hex_text(sha256(encoded).subrange(0, 16)),
        ),
{
    assert(sha256(encoded).take(16) == sha256(encoded).subrange(0, 16));
}

/// A migration begins with a journal that names the rescue directory as it was found and the
/// stage as it is planned, and the records of before and after; nothing has happened yet.
pub proof fn law_migrations_begin_with_a_plan(
    m: RescueMigration,
    marker: Seq<char>,
    prior: RecordView,
    stable: Seq<u8>,
    token: Seq<char>,
    found: SnapshotView,
    bytes: Seq<u8>,
)
    requires
        begun_migration(m, marker, prior, stable, token, found, bytes),
    ensures
        m.schema_version == 2,
        m.phase is Intent,
        m.rescue@ == rescue_dir(stable),
        m.stage@ == child(stable, ".rescue-migration-stage-"@ + token),
        m.backup@ == child(stable, ".rescue-migration-backup-"@ + token),
        m.prior_record@ == prior,
        m.prior_snapshot@ == found,
        m.new_record@.plugin_root == prior.plugin_root,
        m.new_record@ == migrated_record(prior, stable, bytes, marker),
        planned_only(m.new_snapshot@),
        m.new_snapshot@.directories.len() == 1 && m.new_snapshot@.directories[0].path == m.stage@,
{
    law_planned_stage_is_planned(m.new_record@, m.rescue@, m.stage@);
}

/// The journal of a migration is accepted if it names its places by one token, both of its
/// records are, they differ in the rescue directory alone, leading from an older layout to
/// the current one, and its snapshots are of the two directories; the new one is planned
/// first, and known by identity afterwards.
pub proof fn law_sound_migrations_are_accepted(
    m: RescueMigration,
    stable: Seq<u8>,
    settings: Result<Seq<u8>, Failure>,
    token: Seq<u8>,
)
    requires
        m.schema_version == 2 || (m.schema_version == 1 && (m.phase is Prepared || m.phase
            is PriorBackedUp || m.phase is NoticePublished || m.phase is RecordCommitted)),
        parts(m.rescue@) == parts(rescue_dir(stable)),
        parent(m.stage@) is Some && parts(parent(m.stage@)->0) == parts(stable),
        parent(m.backup@) is Some && parts(parent(m.backup@)->0) == parts(stable),
        token.len() == 32,
        crate::text::lower_hex(token),
        file_name(m.stage@) == Some(utf8(".rescue-migration-stage-"@) + token),
        valid_utf8(file_name(m.stage@)->0),
        file_name(m.backup@) == Some(utf8(".rescue-migration-backup-"@) + token),
        record_failure(m.prior_record@, stable, m.prior_record.plugin_root@, settings) is None,
        record_failure(m.new_record@, stable, m.new_record.plugin_root@, settings) is None,
        layout_of(m.prior_record@, stable) is Ok,
        layout_of(m.prior_record@, stable)->Ok_0 != RescueLayout::SourceNotice,
        layout_of(m.new_record@, stable) == Ok::<RescueLayout, Failure>(RescueLayout::SourceNotice),
        same_record(
            without_rescue(m.prior_record@, rescue_dir(stable)),
            without_rescue(m.new_record@, rescue_dir(stable)),
        ),
        rescue_snapshot_failure(m.prior_record@, rescue_dir(stable), m.prior_snapshot@) is None,
        snapshot_failure(m.stage@, m.new_snapshot@) is None,
        relocation(m.new_snapshot@, m.stage@, rescue_dir(stable)) is Ok,
        rescue_snapshot_failure(
            m.new_record@,
            rescue_dir(stable),
            moved_snapshot(m.new_snapshot@, m.stage@, rescue_dir(stable)),
        ) is None,
        m.phase is Intent ==> planned_only(m.new_snapshot@),
        planned_only(m.new_snapshot@) ==> m.phase is Intent || m.phase is StageCleaning,
    ensures
        migration_failure(m, stable, settings) is None,
{
    lemma_token_read(m, token);
    lemma_places_accepted(m, stable, token);
    assert(migration_records_failure(m, stable) is None);
    assert(migration_snapshots_failure(m, stable) is None);
}

proof fn lemma_token_read(m: RescueMigration, token: Seq<u8>)
    requires
        file_name(m.stage@) == Some(utf8(".rescue-migration-stage-"@) + token),
        valid_utf8(file_name(m.stage@)->0),
    ensures
        migration_token(m) == Some(token),
{
    let prefix = utf8(".rescue-migration-stage-"@);
    assert((prefix + token).skip(prefix.len() as int) =~= token);
    assert(prefix.is_prefix_of(prefix + token));
}

proof fn lemma_places_accepted(m: RescueMigration, stable: Seq<u8>, token: Seq<u8>)
    requires
        m.schema_version == 2 || (m.schema_version == 1 && (m.phase is Prepared || m.phase
            is PriorBackedUp || m.phase is NoticePublished || m.phase is RecordCommitted)),
        parts(m.rescue@) == parts(rescue_dir(stable)),
        parent(m.stage@) is Some && parts(parent(m.stage@)->0) == parts(stable),
        parent(m.backup@) is Some && parts(parent(m.backup@)->0) == parts(stable),
        token.len() == 32,
        crate::text::lower_hex(token),
        file_name(m.backup@) == Some(utf8(".rescue-migration-backup-"@) + token),
    ensures
        migration_places_ok(m, stable, token),
{
}

/// Of several entries for a path the last one says what a file of the rescue directory must
/// be: its mode and its digest.
pub proof fn law_the_last_entry_says_what_a_rescue_file_is(
    record: RecordView,
    f: StageFileView,
    k: int,
)
    requires
        0 <= k < record.owned_files.len(),
        parts(record.owned_files[k].path) == parts(f.path),
        forall|i: int|
            k < i < record.owned_files.len() ==> parts((#[trigger] record.owned_files[i]).path)
                != parts(f.path),
    ensures
        recorded_file(record, f) <==> (record.owned_files[k].mode == f.mode
            && record.owned_files[k].sha256 == f.sha256),
{
    lemma_last_owned_found(record.owned_files, f.path, k);
}

proof fn lemma_last_owned_found(files: Seq<OwnedFileView>, path: Seq<u8>, k: int)
    requires
        0 <= k < files.len(),
        parts(files[k].path) == parts(path),
        forall|i: int| k < i < files.len() ==> parts((#[trigger] files[i]).path) != parts(path),
    ensures
        last_owned(files, path) == Some(files[k]),
    decreases files.len(),
{
    if k < files.len() - 1 {
        assert(parts(files[files.len() - 1].path) != parts(path));
        let front = files.drop_last();
        assert forall|i: int| k < i < front.len() implies parts((#[trigger] front[i]).path)
            != parts(path) by {
            assert(front[i] == files[i]);
        }
        lemma_last_owned_found(front, path, k);
    }
}

} // verus!
