use herdr_a2a_cli::assets::{validate_record, RecordAssets};
use herdr_a2a_cli::cleanup::{
    remove_remaining_exact_stage, remove_remaining_planned_stage, remove_remaining_stage,
};
use herdr_a2a_cli::digest::sha256_bytes;
use herdr_a2a_cli::error::{ManagedError, ManagedResult};
use herdr_a2a_cli::inspect::{
    inspect_read_only, AssetFound, InspectionFound, PiProgramFound, ReadOnlyManagedIssue,
};
use herdr_a2a_cli::install::{
    begin_journal, build_record, check_copied_package, check_existing_generation,
    check_old_root_absent, check_prior_for_install, check_repairable, check_restored_backup,
    check_settings_path, check_update_stopped, check_written_record, clean_stale_stages,
    cleanup_plugin_stages, configured_record, failed_record, generation_plan, install_failure, keeps_plugin_assets,
    migrate_accepted_v2_record, plan_forward_publication, plan_install_steps, plan_repair_pi,
    pointer_content, predecessor_prior, prepare_rescue_assets, prior_owned_entry,
    reconcile_interrupted_file, reconcile_relocated_managed_plugin_root,
    reject_unowned_plugin_assets, repaired_with_pi, repaired_without_pi, replaces_generation,
    rollback_transaction_error, status_json, status_line, status_report, stored_authority,
    swapped_files, BackupEntry, ForwardInputs, InstallStep, InterruptedFile, JournalInputs,
    OnFailure, RecordInputs, RepairPi, StatusReport,
};
use herdr_a2a_cli::json::{encode_json, Json};
use herdr_a2a_cli::layout::{
    expected_pointer_digest, removal_directories, rescue_layout, rescue_marker,
    validate_record_semantics, RescueLayout,
};
use herdr_a2a_cli::path::FsPath;
use herdr_a2a_cli::pi::{managed_pi_entry, PiSettings};
use herdr_a2a_cli::record::{InstallState, OwnedFile, OwnershipRecord};
use herdr_a2a_cli::removal::{
    begin_purge, check_directory_removed, check_pi_entry_removed, check_stopped, check_unregistered,
    decode_exact_plugin_registration, enter_removal, next_unregister_step, plan_directory_removals,
    plan_purge, plan_purge_work, plan_removal_steps, plan_unlinks, reconcile_unregistering,
    remove_exact_pi_entry, removal_result, removed_asset_check, removed_registry_check,
    removed_rescue_check, unregister_retained_paths,
    validate_removal_executable, validate_removal_inventory, validate_removed_record_for_reinstall,
    DirectoryRemoval, HerdrPluginListResponse, HerdrPluginRegistration, PiEntryRemoval,
    PluginRegistrationState, PurgePlan, PurgeRootFound, PurgeWork, RemovalEntry, RemovalStep,
    RemovalTransaction, RemovalTransactionPhase, RemovedFound, UnregisterStep,
};
use herdr_a2a_cli::rescue::{
    begin_migration, migrate_record, migration_steps, reconcile_rescue_step, rescue_migration_phase_name,
    rescue_migration_temp_transition_is_allowed, MigrationStep, RescueMigrationLiveState,
    RescueMigrationPhase, RescueRecordState, RescueStep, RescueTreeState,
    validate_rescue_migration,
};
use herdr_a2a_cli::restore::{
    authenticate_live_prior_rescue_assets, authenticate_published_rescue_assets,
    capture_prior_rescue_assets, classify_legacy_pi_mutated_rescue_state,
    cleanup_transaction_artifacts, leftover_generation_stage, plan_file_restore,
    plan_forward_record, plan_pi_rollback, prove_prior_state, reconcile_route, rollback_steps,
    FileDigest, FileRestore, LegacyPiMutatedRescueState, PiRollback, ReconcileRoute, RescueFound,
    RollbackStep,
};
use herdr_a2a_cli::rollback::{
    normalize_legacy_pi_transaction, read_transaction, validate_live_pi_state,
    validate_live_plugin_state, validate_live_record_state, ObservedFile, PluginFound,
};
use herdr_a2a_cli::snapshot::{
    plan_stage_removal, relocate_stage_snapshot, stage_is_exact_subset, OwnedDirectory,
    OwnedStageFile, StageSnapshot,
};
use herdr_a2a_cli::transaction::{InstallTransaction, TransactionPhase};
use herdr_a2a_cli::version::{AdapterContract, ProcessOutput};

fn path(text: &str) -> FsPath {
    FsPath::from_text(text)
}

fn text_of(path: &FsPath) -> String {
    String::from_utf8(path.bytes.clone()).unwrap()
}

fn stable() -> FsPath {
    path("/home/u/.local/share/herdr-a2a")
}

fn plugin() -> FsPath {
    path("/home/u/plugins/herdr")
}

fn settings_path() -> FsPath {
    path("/home/u/.pi/agent/settings.json")
}

fn settings_found() -> ManagedResult<FsPath> {
    Ok(settings_path())
}

fn broker() -> String {
    "a".repeat(64)
}

fn package() -> String {
    "b".repeat(64)
}

const NOTICE: &[u8] = b"#!/bin/sh\necho restore\n";

fn generation() -> FsPath {
    generation_plan(&stable(), &vec![path("package.json")], &broker(), &package()).0
}

fn owned_assets(generation: &FsPath) -> Vec<OwnedFile> {
    let binary = generation.join("bin/herdr-a2a");
    vec![
        OwnedFile { path: binary.copy(), sha256: broker(), mode: 0o700 },
        OwnedFile {
            path: generation.join("pi").join("package.json"),
            sha256: "c".repeat(64),
            mode: 0o600,
        },
        OwnedFile {
            path: plugin().join("libexec/herdr-a2a-dispatch"),
            sha256: broker(),
            mode: 0o700,
        },
        OwnedFile {
            path: plugin().join("stable-bin-path"),
            sha256: expected_pointer_digest(&binary).unwrap(),
            mode: 0o600,
        },
    ]
}

fn record_inputs() -> RecordInputs {
    let generation = generation();
    RecordInputs {
        owned: Ok(owned_assets(&generation)),
        state_root: Ok(path("/home/u/.local/state/herdr/plugins/herdr.a2a")),
        plugin_version: Ok("0.1.0".to_owned()),
        pi_settings: settings_found(),
        binary: generation.join("bin/herdr-a2a"),
        package: generation.join("pi"),
        broker_digest: broker(),
        pi_package_digest: package(),
        state: InstallState::Ready,
        install_kind: "managed".to_owned(),
    }
}

fn installed() -> OwnershipRecord {
    let record = build_record(&stable(), &plugin(), &None, record_inputs()).unwrap();
    prepare_rescue_assets(&stable(), record, NOTICE.to_vec()).unwrap().0
}

fn broken<T>() -> ManagedResult<T> {
    Err(ManagedError::new("broken", "seen by the caller"))
}

#[test]
fn an_installed_record_means_what_it_says() {
    let record = installed();
    assert!(validate_record_semantics(&record, &stable(), &plugin(), &settings_found()).is_ok());
    assert_eq!(rescue_layout(&record, &stable()).unwrap(), RescueLayout::SourceNotice);
    assert_eq!(record.owned_files.len(), 6);
    let paths: Vec<String> = record.owned_files.iter().map(|file| text_of(&file.path)).collect();
    let mut sorted = paths.clone();
    sorted.sort();
    assert_eq!(paths, sorted);
    assert_eq!(
        text_of(&record.rescue_path),
        "/home/u/.local/share/herdr-a2a/rescue/uninstall.sh"
    );
    let mut unrelated = record.copy();
    unrelated.owned_files.push(OwnedFile {
        path: path("/home/u/other"),
        sha256: "d".repeat(64),
        mode: 0o600,
    });
    assert_eq!(
        validate_record_semantics(&unrelated, &stable(), &plugin(), &settings_found())
            .unwrap_err()
            .code,
        "recovery_needed"
    );
    assert_eq!(
        validate_record_semantics(&record, &stable(), &plugin(), &broken()).unwrap_err().code,
        "broken"
    );
}

#[test]
fn a_first_install_takes_authority_and_a_later_one_keeps_what_it_had() {
    let first = build_record(&stable(), &plugin(), &None, record_inputs()).unwrap();
    assert!(first.purge_authority);
    let mut without = first.copy();
    without.purge_authority = false;
    without.plugin_state_root = FsPath::empty();
    let again = build_record(&stable(), &plugin(), &Some(without), record_inputs()).unwrap();
    assert!(!again.purge_authority);
    assert!(again.plugin_state_root.is_empty());
    let mut inputs = record_inputs();
    inputs.state_root = broken();
    assert_eq!(
        build_record(&stable(), &plugin(), &Some(first), inputs).unwrap_err().code,
        "broken"
    );
}

#[test]
fn the_marker_lists_what_is_owned() {
    let record = installed();
    let mut before = record.copy();
    before.owned_files.retain(|file| !file.path.file_name_is("owner-v1"));
    let marker = rescue_marker(&before, &stable()).unwrap();
    assert_eq!(sha256_bytes(marker.as_bytes()), record.rescue_marker_digest);
    assert!(marker.contains("uninstall.sh"));
    assert!(marker.contains("state_root=/home/u/.local/state/herdr/plugins/herdr.a2a\n"));
}

#[test]
fn prior_records_decide_how_an_install_goes() {
    let record = installed();
    assert!(!check_prior_for_install(&record, &plugin()).unwrap());
    assert_eq!(
        check_prior_for_install(&record, &path("/elsewhere")).unwrap_err().code,
        "ownership_conflict"
    );
    let mut removing = record.copy();
    removing.state = InstallState::Unregistering;
    assert_eq!(
        check_prior_for_install(&removing, &plugin()).unwrap_err().code,
        "removal_incomplete"
    );
    removing.state = InstallState::Removed;
    assert!(check_prior_for_install(&removing, &plugin()).unwrap());

    let binary = generation().join("bin/herdr-a2a");
    let source = generation().join("pi");
    assert!(!replaces_generation(&Some(record.copy()), &broker(), &package()));
    assert!(replaces_generation(&Some(record.copy()), &broker(), &"f".repeat(64)));
    assert!(!replaces_generation(&Some(removing.copy()), "x", "y"));
    assert!(!replaces_generation(&None, "x", "y"));
    assert!(keeps_plugin_assets(&Some(record.copy()), &broker(), &package(), &binary, &source));
    assert!(!keeps_plugin_assets(&None, &broker(), &package(), &binary, &source));
    assert!(!keeps_plugin_assets(&Some(record), &broker(), &package(), &source, &source));
}

#[test]
fn unaccounted_things_stand_in_the_way() {
    assert!(reject_unowned_plugin_assets(false, false).is_ok());
    assert!(reject_unowned_plugin_assets(false, true).is_err());
    assert!(clean_stale_stages(&vec![b"0123".to_vec(), b".stag".to_vec()]).is_ok());
    assert_eq!(
        clean_stale_stages(&vec![b".stage-1".to_vec()]).unwrap_err().message,
        "an unauthenticated generation stage was found"
    );
    assert!(cleanup_plugin_stages(&vec![b".stage-1".to_vec()]).is_ok());
    assert!(cleanup_plugin_stages(&vec![b".managed-stage-1".to_vec()]).is_err());
}

#[test]
fn generations_are_named_by_their_digests() {
    let (directory, files) = generation_plan(
        &path("/s"),
        &vec![path("src/index.ts"), path("package.json")],
        &broker(),
        &package(),
    );
    let combined = sha256_bytes(format!("{}\0{}", broker(), package()).as_bytes());
    assert_eq!(text_of(&directory), format!("/s/generations/{}", &combined[..32]));
    let names: Vec<String> = files.iter().map(text_of).collect();
    let base = text_of(&directory);
    assert_eq!(
        names,
        [
            format!("{base}/bin/herdr-a2a"),
            format!("{base}/pi/package.json"),
            format!("{base}/pi/src/index.ts"),
        ]
    );
}

fn settings(entries: Vec<Json>) -> PiSettings {
    PiSettings { path: settings_path(), entries }
}

fn tree(root: &FsPath) -> StageSnapshot {
    let dir = |path: FsPath, inode: u64| OwnedDirectory { path, device: 1, inode, mode: 0o700 };
    StageSnapshot {
        directories: vec![
            dir(root.copy(), 1),
            dir(root.join("bin"), 2),
            dir(root.join("pi"), 3),
        ],
        files: vec![
            OwnedStageFile {
                path: root.join("bin/herdr-a2a"),
                device: 1,
                inode: 4,
                mode: 0o700,
                sha256: broker(),
            },
            OwnedStageFile {
                path: root.join("pi/package.json"),
                device: 1,
                inode: 5,
                mode: 0o600,
                sha256: "c".repeat(64),
            },
        ],
    }
}

fn first_journal() -> InstallTransaction {
    let (generation, generation_files) =
        generation_plan(&stable(), &vec![path("package.json")], &broker(), &package());
    begin_journal(
        &stable(),
        &plugin(),
        &"0123456789abcdef".repeat(2),
        JournalInputs {
            prior: None,
            broker_digest: broker(),
            pi_package_digest: package(),
            generation,
            generation_files,
            generation_created: true,
            prior_generation_snapshot: None,
            prior_helper_snapshot: None,
            prior_pointer_snapshot: None,
            pi_settings: settings(Vec::new()),
            prior_owned_pi_entry: None,
        },
    )
    .unwrap()
}

fn read_back(journal: InstallTransaction) -> ManagedResult<InstallTransaction> {
    read_transaction(&stable(), journal, &Ok(plugin()), &Ok(()), &settings_found())
}

#[test]
fn a_journal_that_is_begun_can_be_read() {
    let journal = read_back(first_journal()).unwrap();
    assert_eq!(journal.phase, TransactionPhase::Intent);
    assert_eq!(
        text_of(&journal.helper_backup),
        "/home/u/plugins/herdr/libexec/.herdr-a2a-backup-0123456789abcdef0123456789abcdef"
    );
    assert!(
        journal
            .new_pi_entry
            .same(&managed_pi_entry(&settings_path(), &generation().join("pi")).unwrap())
    );
    let mut schema = first_journal();
    schema.schema_version = 9;
    assert_eq!(
        read_back(schema).unwrap_err().message,
        "unsupported install transaction schema"
    );
    let mut token = first_journal();
    token.pointer_backup = plugin().join(".stable-bin-backup-other");
    assert_eq!(read_back(token).unwrap_err().code, "recovery_needed");
    let mut early = first_journal();
    early.phase = TransactionPhase::RecordCommitting;
    assert!(read_back(early).is_err());
    assert_eq!(
        read_transaction(&stable(), first_journal(), &broken(), &Ok(()), &settings_found())
            .unwrap_err()
            .code,
        "broken"
    );
}

#[test]
fn journals_are_finished_or_undone_by_their_phase() {
    let journal = first_journal();
    assert_eq!(
        reconcile_route(&journal, LegacyPiMutatedRescueState::LivePrior),
        ReconcileRoute::RollBack
    );
    assert_eq!(
        rollback_steps(&journal),
        [
            RollbackStep::RestoreRecord,
            RollbackStep::RestorePi,
            RollbackStep::RestorePlugin,
            RollbackStep::RestoreRescue,
            RollbackStep::RemoveGeneration,
            RollbackStep::ProvePrior,
            RollbackStep::ClearJournal,
        ]
    );
    let mut committed = first_journal();
    committed.phase = TransactionPhase::RecordCommitted;
    committed.new_record = Some(installed());
    assert_eq!(
        reconcile_route(&committed, LegacyPiMutatedRescueState::LivePrior),
        ReconcileRoute::FinishCommitted
    );
    assert!(validate_live_record_state(&committed, &Some(installed())).is_ok());
    assert!(validate_live_record_state(&committed, &None).is_err());
    assert!(validate_live_record_state(&journal, &None).is_ok());
    assert_eq!(
        classify_legacy_pi_mutated_rescue_state(true, false).unwrap(),
        LegacyPiMutatedRescueState::PublishedNew
    );
    assert!(classify_legacy_pi_mutated_rescue_state(true, true).is_err());
    assert!(classify_legacy_pi_mutated_rescue_state(false, false).is_err());
}

#[test]
fn rollbacks_look_at_what_is_left() {
    let journal = first_journal();
    assert_eq!(plan_file_restore(true, true, true).unwrap(), FileRestore::RestoreBackup);
    assert_eq!(plan_file_restore(false, false, true).unwrap(), FileRestore::RemoveTarget);
    assert_eq!(plan_file_restore(false, true, true).unwrap(), FileRestore::Keep);
    assert!(plan_file_restore(false, true, false).is_err());
    assert!(leftover_generation_stage(&journal, false).unwrap().is_none());
    assert!(leftover_generation_stage(&journal, true).is_err());
    assert!(cleanup_transaction_artifacts(&journal, false).unwrap().is_none());
    assert!(cleanup_transaction_artifacts(&journal, true).is_err());
    assert_eq!(
        plan_pi_rollback(&journal, &settings(Vec::new()), true).unwrap(),
        PiRollback::Unchanged
    );
    assert!(validate_live_pi_state(&journal, &settings(Vec::new())).is_ok());
    assert!(validate_live_pi_state(&journal, &settings(vec![Json::Text("/x".to_owned())])).is_err());
    assert!(prove_prior_state(&journal, &Ok(()), &Ok(()), false, false, false).is_ok());
    assert!(prove_prior_state(&journal, &Ok(()), &Ok(()), true, false, false).is_err());
}

#[test]
fn an_entry_of_an_older_journal_is_made_relative() {
    let mut legacy = first_journal();
    legacy.new_pi_entry = Json::Text(text_of(&generation().join("pi")));
    legacy.phase = TransactionPhase::PiMutating;
    let entry = normalize_legacy_pi_transaction(&legacy).unwrap();
    assert_eq!(
        entry.as_text().unwrap(),
        &format!(
            "../../.local/share/herdr-a2a/generations/{}/pi",
            generation().file_name().map(|name| String::from_utf8(name).unwrap()).unwrap()
        )
    );
    legacy.phase = TransactionPhase::Intent;
    assert!(normalize_legacy_pi_transaction(&legacy).is_err());
}

#[test]
fn every_change_of_an_install_is_journaled_first() {
    let steps = plan_install_steps(false, true, true);
    let at = |step: InstallStep| steps.iter().position(|found| *found == step).unwrap();
    assert!(
        at(InstallStep::Journal(TransactionPhase::RecordRenaming)) < at(InstallStep::WriteRecord)
    );
    assert!(
        at(InstallStep::Journal(TransactionPhase::PluginPublishingHelper))
            < at(InstallStep::PublishHelper)
    );
    assert_eq!(steps[0], InstallStep::Journal(TransactionPhase::Intent));
    assert_eq!(steps.last(), Some(&InstallStep::ClearJournal));
    assert_eq!(steps.len(), 30);
    assert_eq!(plan_install_steps(true, false, false).len(), 16);
    assert_eq!(install_failure(InstallStep::WriteRecord), OnFailure::RollBack);
    assert_eq!(install_failure(InstallStep::DropBackups), OnFailure::Warn);
    assert_eq!(install_failure(InstallStep::RemoveSuperseded), OnFailure::Return);
    assert_eq!(
        install_failure(InstallStep::Journal(TransactionPhase::Intent)),
        OnFailure::Return
    );
}

#[test]
fn a_failed_rollback_is_told_with_the_first_error() {
    let first = || ManagedError::new("generation_failed", "no space");
    assert_eq!(rollback_transaction_error(first(), &Ok(())).code, "generation_failed");
    let both = rollback_transaction_error(first(), &broken());
    assert_eq!(both.code, "recovery_needed");
    assert_eq!(
        both.message,
        "generation_failed: no space; rollback remains incomplete: broken: seen by the caller"
    );
}

#[test]
fn updates_wait_for_what_they_replace() {
    let record = || Some(installed());
    assert!(check_update_stopped(&record(), &record(), 0, 0).is_ok());
    assert!(check_update_stopped(&record(), &record(), 1, 0).is_err());
    assert!(check_update_stopped(&None, &record(), 0, 0).is_err());
    assert!(check_settings_path(&settings_path(), &settings_path(), "moved").is_ok());
    assert_eq!(
        check_settings_path(&settings_path(), &path("/x"), "moved").unwrap_err().message,
        "moved"
    );
    assert!(check_existing_generation(&Ok(broker()), &Ok(package()), &broker(), &package()).is_ok());
    assert_eq!(
        check_existing_generation(&Ok("x".to_owned()), &broken(), &broker(), &package())
            .unwrap_err()
            .code,
        "ownership_conflict"
    );
    assert_eq!(
        check_existing_generation(&Ok(broker()), &broken(), &broker(), &package())
            .unwrap_err()
            .code,
        "broken"
    );
    assert!(check_copied_package("x", "x").is_ok());
    assert!(check_copied_package("x", "y").is_err());
    assert_eq!(pointer_content(&path("/b")).unwrap(), b"/b\n");
    assert!(pointer_content(&path("/b\n")).is_err());
}

#[test]
fn older_records_are_brought_up_to_date() {
    let mut older = installed();
    older.schema_version = 2;
    assert_eq!(stored_authority(&older), None);
    let (record, changed) = migrate_accepted_v2_record(older.copy());
    assert!(changed);
    assert_eq!(record.schema_version, 3);
    assert_eq!(stored_authority(&record), Some(true));
    older.purge_authority = false;
    assert!(!migrate_accepted_v2_record(older).1);
    assert!(!migrate_accepted_v2_record(record).1);
}

#[test]
fn repairs_do_what_is_left_to_do() {
    assert!(check_repairable(InstallState::Failed).is_ok());
    assert_eq!(check_repairable(InstallState::Removed).unwrap_err().code, "already_removed");
    assert_eq!(check_repairable(InstallState::Removing).unwrap_err().code, "removal_incomplete");
    let record = installed();
    assert_eq!(plan_repair_pi(&record, None).unwrap(), RepairPi::Absent);
    assert_eq!(
        plan_repair_pi(&record, Some(&settings(Vec::new()))).unwrap(),
        RepairPi::Install
    );
    assert_eq!(
        plan_repair_pi(&record, Some(&settings(vec![record.pi_package_entry.copy()]))).unwrap(),
        RepairPi::Present
    );
    let other = Json::Text(text_of(&record.pi_package_source));
    assert_eq!(
        plan_repair_pi(&record, Some(&settings(vec![other]))).unwrap_err().code,
        "ownership_conflict"
    );
    assert!(repaired_with_pi(&record, &None).is_none());
    let failed = failed_record(&record, &ManagedError::new("c", "m"));
    assert_eq!(failed.state, InstallState::Failed);
    assert_eq!(failed.last_error.as_deref(), Some("c: m"));
    let repaired = repaired_with_pi(&failed, &None).unwrap();
    assert_eq!(repaired.state, InstallState::Ready);
    assert!(repaired.last_error.is_none());
    let pending = repaired_without_pi(&record).unwrap();
    assert_eq!(pending.state, InstallState::PiAdapterPending);
    assert!(repaired_without_pi(&pending).is_none());
    assert!(prior_owned_entry(&Some(record.copy()), None).unwrap().same(&record.pi_package_entry));
    assert!(prior_owned_entry(&None, Some(Json::Null)).is_some());
}

#[test]
fn a_plugin_root_that_moved_takes_its_record_along() {
    let record = installed();
    let moved = path("/home/u/new/herdr");
    let relocated =
        reconcile_relocated_managed_plugin_root(&record, &moved, &Ok(())).unwrap();
    assert!(relocated.plugin_root.same(&moved));
    assert!(
        relocated
            .owned_files
            .iter()
            .any(|file| file.path.same(&moved.join("libexec/herdr-a2a-dispatch")))
    );
    assert!(reconcile_relocated_managed_plugin_root(&record, &plugin(), &broken()).is_ok());
    assert_eq!(
        reconcile_relocated_managed_plugin_root(
            &record,
            &moved,
            &check_old_root_absent(true, None)
        )
        .unwrap_err()
        .message,
        "the recorded plugin root still exists during relocation"
    );
    assert_eq!(
        check_old_root_absent(false, Some("denied")).unwrap_err().message,
        "cannot inspect the recorded plugin root during relocation: denied"
    );
    let mut linked = record.copy();
    linked.install_kind = "linked-dev".to_owned();
    assert!(reconcile_relocated_managed_plugin_root(&linked, &moved, &Ok(())).is_err());
    let mut extra = record.copy();
    extra.owned_files.push(OwnedFile {
        path: plugin().join("notes"),
        sha256: broker(),
        mode: 0o600,
    });
    assert_eq!(
        reconcile_relocated_managed_plugin_root(&extra, &moved, &Ok(())).unwrap_err().message,
        "the recorded plugin root contains an unexpected owned path"
    );
    let mut short = record;
    short.owned_files.retain(|file| !file.path.file_name_is("stable-bin-path"));
    assert_eq!(
        reconcile_relocated_managed_plugin_root(&short, &moved, &Ok(())).unwrap_err().message,
        "the recorded plugin root does not own exactly one helper and pointer"
    );
}

#[test]
fn interrupted_replacements_are_told_by_their_backups() {
    let entry = |name: &str, is_recorded: bool| BackupEntry {
        name: name.as_bytes().to_vec(),
        is_recorded,
    };
    let plan = |entries: Vec<BackupEntry>, in_place: bool| {
        reconcile_interrupted_file(&entries, ".backup-", in_place)
    };
    assert_eq!(plan(vec![entry("other", false)], true).unwrap(), InterruptedFile::Intact);
    assert_eq!(
        plan(vec![entry("other", false), entry(".backup-1", true)], true).unwrap(),
        InterruptedFile::DropBackup(1)
    );
    assert_eq!(
        plan(vec![entry(".backup-1", true)], false).unwrap(),
        InterruptedFile::RestoreBackup(0)
    );
    assert_eq!(plan(Vec::new(), false).unwrap_err().code, "owned_asset_modified");
    assert_eq!(plan(vec![entry(".backup-1", false)], true).unwrap_err().code, "ownership_conflict");
    assert!(plan(vec![entry(".backup-1", true), entry(".backup-2", true)], true).is_err());
    assert!(check_restored_backup(true).is_ok());
    assert!(check_restored_backup(false).is_err());
    let record = installed();
    let (helper, pointer) = swapped_files(&record).unwrap();
    assert_eq!(helper.mode, 0o700);
    assert_eq!(pointer.mode, 0o600);
}

#[test]
fn status_reports_say_one_thing() {
    let ready = status_report(&Some(installed()), &Ok(())).unwrap();
    assert_eq!(status_line(&ready), "ready");
    assert!(status_json(&ready).is_none());
    let failing = status_report(&Some(installed()), &broken()).unwrap();
    assert_eq!(status_line(&failing), "failed: broken: seen by the caller");
    assert_eq!(
        encode_json(&status_json(&failing).unwrap()),
        br#"{"last_error":"broken: seen by the caller","schema_version":3,"state":"Failed"}"#
    );
    let missing = status_report(&None, &Ok(())).unwrap();
    assert!(matches!(missing, StatusReport::NotInstalled));
    assert_eq!(status_line(&missing), "failed: not installed");
    let mut removed = installed();
    removed.state = InstallState::Removed;
    assert_eq!(status_report(&Some(removed), &Ok(())).unwrap_err().code, "already_removed");
}

#[test]
fn written_records_are_held_to_what_their_state_asks() {
    let mut record = installed();
    assert_eq!(check_written_record(&record, false, &Ok(()), &broken()).unwrap_err().code, "broken");
    assert!(check_written_record(&record, true, &Ok(()), &broken()).is_ok());
    record.state = InstallState::Removing;
    let refused = check_written_record(&record, false, &broken(), &Ok(())).unwrap_err();
    assert_eq!(refused.code, "ownership_commit_failed");
    assert_eq!(refused.message, "broken: seen by the caller");
}

#[test]
fn an_interrupted_install_can_be_finished_from_its_journal() {
    let mut journal = first_journal();
    journal.prior_record = Some(installed());
    let prior = predecessor_prior(&journal).unwrap();
    let (record, rescue) = plan_forward_publication(
        &journal,
        prior,
        &stable(),
        &plugin(),
        ForwardInputs {
            owned: Ok(owned_assets(&generation())),
            state_root: Ok(path("/unused")),
            plugin_version: Ok("0.1.0".to_owned()),
            pi_settings: settings_found(),
            notice: Ok(NOTICE.to_vec()),
        },
    )
    .unwrap();
    assert!(record.same(&installed()));
    assert_eq!(rescue.notice, NOTICE);
    let found = RescueFound {
        files: Ok(vec![rescue.marker.copy(), rescue.rescue.copy()]),
        notice: Some(FileDigest { mode: 0o600, sha256: sha256_bytes(NOTICE) }),
        marker: Some(FileDigest { mode: 0o600, sha256: record.rescue_marker_digest.clone() }),
    };
    assert!(authenticate_published_rescue_assets(&record, &rescue, &found).is_ok());
    let notice: ManagedResult<Vec<u8>> = Ok(NOTICE.to_vec());
    let marker: ManagedResult<Vec<u8>> = Ok(rescue.marker_bytes.clone());
    let kept = capture_prior_rescue_assets(&stable(), &Some(installed()), &notice, &marker)
        .unwrap()
        .unwrap();
    assert_eq!(kept.0, NOTICE);
    assert!(
        authenticate_live_prior_rescue_assets(&stable(), &record, &found.files, &notice, &marker)
            .is_ok()
    );
    assert!(
        authenticate_live_prior_rescue_assets(
            &stable(),
            &record,
            &Ok(Vec::new()),
            &notice,
            &marker
        )
        .is_err()
    );
    journal.new_record = Some(record.copy());
    assert!(plan_forward_record(&journal, &Some(record)).is_ok());
    journal.prior_record = None;
    assert_eq!(
        predecessor_prior(&journal).unwrap_err().message,
        "predecessor Pi transaction has no prior ownership"
    );
}

fn live_assets(record: &OwnershipRecord) -> RecordAssets {
    let generation = generation();
    RecordAssets {
        plugin_root: Ok(()),
        libexec: Ok(()),
        generation: Ok(()),
        state_root: Ok(()),
        binary_digest: Ok(broker()),
        package_digest: Ok(package()),
        package_files: Ok(vec![generation.join("pi/package.json")]),
        owned: record.owned_files.iter().map(|_| Ok(())).collect(),
        generation_files: Ok(vec![
            generation.join("bin/herdr-a2a"),
            generation.join("pi/package.json"),
        ]),
        helper_digest: Ok(broker()),
        pointer: Ok(format!("{}\n", text_of(&generation.join("bin/herdr-a2a")))),
    }
}

#[test]
fn a_record_holds_of_what_is_on_disk() {
    let record = installed();
    let check = |assets: &RecordAssets| {
        validate_record(&record, &stable(), &settings_found(), assets)
    };
    assert_eq!(check(&live_assets(&record)).map_err(|error| error.text()), Ok(()));
    let mut changed = live_assets(&record);
    changed.binary_digest = Ok("f".repeat(64));
    assert_eq!(check(&changed).unwrap_err().code, "owned_asset_modified");
    let mut extra = live_assets(&record);
    extra.package_files =
        Ok(vec![generation().join("pi/package.json"), generation().join("pi/z.ts")]);
    assert!(check(&extra).is_err());
    let mut pointer = live_assets(&record);
    pointer.pointer = Ok("/elsewhere\n".to_owned());
    assert!(check(&pointer).is_err());
    let mut unsafe_root = live_assets(&record);
    unsafe_root.plugin_root = broken();
    assert_eq!(check(&unsafe_root).unwrap_err().code, "broken");
}

fn inspection() -> InspectionFound {
    InspectionFound {
        record_check: Ok(()),
        binary: Some(FileDigest { mode: 0o700, sha256: broker() }),
        helper: Some(FileDigest { mode: 0o700, sha256: broker() }),
        package_files: Ok(vec![AssetFound {
            path: generation().join("pi/package.json"),
            file: Some(FileDigest { mode: 0o600, sha256: "c".repeat(64) }),
        }]),
        package_digest: Ok(package()),
        plugin_version: Ok("0.1.0".to_owned()),
        adapter: Ok(AdapterContract {
            name: "@herdr/a2a-pi".to_owned(),
            version: "0.1.0".to_owned(),
            pi_peer: ">=0.84.2".to_owned(),
            typebox_peer: ">=1.3.7 <1.4.0".to_owned(),
        }),
        ready_pi: Ok(()),
        pi: PiProgramFound::Present(Ok(ProcessOutput {
            success: true,
            stdout: b"0.84.2\n".to_vec(),
        })),
    }
}

#[test]
fn inspections_tell_every_issue() {
    let issues = |record: ManagedResult<OwnershipRecord>, found: &InspectionFound| {
        inspect_read_only(&Ok(()), &record, "0.1.0", found)
    };
    assert!(issues(Ok(installed()), &inspection()).is_empty());
    assert_eq!(
        inspect_read_only(&broken(), &Ok(installed()), "0.1.0", &inspection()),
        [ReadOnlyManagedIssue::OwnershipInvalid]
    );
    let mut older = installed();
    older.schema_version = 2;
    assert_eq!(
        issues(Ok(older), &inspection()),
        [ReadOnlyManagedIssue::OwnershipVersionIncompatible]
    );
    let mut found = inspection();
    found.record_check = broken();
    assert_eq!(issues(Ok(installed()), &found), [ReadOnlyManagedIssue::OwnershipInvalid]);
    found.package_digest = Ok("0".repeat(64));
    assert_eq!(issues(Ok(installed()), &found), [ReadOnlyManagedIssue::AdapterModified]);
    found.helper = None;
    assert_eq!(issues(Ok(installed()), &found), [ReadOnlyManagedIssue::BinaryModified]);

    let mut many = inspection();
    many.plugin_version = Ok("0.2.0".to_owned());
    many.adapter = broken();
    many.ready_pi = broken();
    many.pi = PiProgramFound::Unusable;
    assert_eq!(
        inspect_read_only(&Ok(()), &Ok(installed()), "0.3.0", &many),
        [
            ReadOnlyManagedIssue::PluginVersionIncompatible,
            ReadOnlyManagedIssue::BinaryVersionIncompatible,
            ReadOnlyManagedIssue::AdapterMetadataIncompatible,
            ReadOnlyManagedIssue::PiEntryModified,
            ReadOnlyManagedIssue::PiVersionIncompatible,
        ]
    );
    let mut pending = installed();
    pending.state = InstallState::PiAdapterPending;
    let mut absent = inspection();
    absent.pi = PiProgramFound::Absent;
    absent.adapter = Ok(AdapterContract {
        name: "@herdr/a2a-pi".to_owned(),
        version: "0.0.9".to_owned(),
        pi_peer: ">=0.84.2".to_owned(),
        typebox_peer: ">=1.3.7 <1.4.0".to_owned(),
    });
    assert_eq!(
        issues(Ok(pending), &absent),
        [
            ReadOnlyManagedIssue::AdapterVersionIncompatible,
            ReadOnlyManagedIssue::PiAdapterPending,
        ]
    );
}

#[test]
fn removals_stop_before_they_unlink() {
    let steps = plan_removal_steps(InstallState::Ready, PurgeWork::Begin, false);
    assert_eq!(
        steps,
        [
            RemovalStep::JournalPurge(RemovalTransactionPhase::Intent),
            RemovalStep::CheckExecutable,
            RemovalStep::Mark(InstallState::Removing),
            RemovalStep::StopProcesses,
            RemovalStep::RemovePiEntry,
            RemovalStep::UnlinkUnneeded,
            RemovalStep::DropRegistries,
            RemovalStep::JournalPurge(RemovalTransactionPhase::Deleting),
            RemovalStep::DeletePurgeRoot,
            RemovalStep::JournalPurge(RemovalTransactionPhase::Deleted),
            RemovalStep::Mark(InstallState::UnregisterPending),
            RemovalStep::Mark(InstallState::Unregistering),
            RemovalStep::AskHost,
            RemovalStep::ObserveHost,
            RemovalStep::UnlinkAll,
            RemovalStep::Mark(InstallState::Removed),
            RemovalStep::ClearPurgeJournal,
        ]
    );
    assert_eq!(
        plan_removal_steps(InstallState::FinalizingRemoval, PurgeWork::Skip, false),
        [
            RemovalStep::CheckExecutable,
            RemovalStep::StopProcesses,
            RemovalStep::RemovePiEntry,
            RemovalStep::UnlinkUnneeded,
            RemovalStep::DropRegistries,
            RemovalStep::UnlinkAll,
            RemovalStep::Mark(InstallState::Removed),
        ]
    );
    assert!(removal_result(false).retained_data);
    assert_eq!(removal_result(true).state, "removed");
}

#[test]
fn removals_unlink_owned_files_deepest_first() {
    let record = installed();
    let retained = unregister_retained_paths(&record).unwrap();
    let all = plan_unlinks(&record, &Vec::new());
    assert_eq!(all.len(), record.owned_files.len());
    assert!(all.windows(2).all(|pair| pair[0].path.depth() >= pair[1].path.depth()));
    let some = plan_unlinks(&record, &retained);
    assert!(some.len() < all.len());
    assert!(some.iter().all(|file| !retained.iter().any(|kept| kept.same(&file.path))));
    let directories = plan_directory_removals(&record, &stable(), &Vec::new()).unwrap();
    assert!(directories.windows(2).all(|pair| pair[0].depth() >= pair[1].depth()));
    assert_eq!(directories.len(), removal_directories(&record, &stable()).unwrap().len());
    assert!(check_directory_removed(&DirectoryRemoval::Absent).is_ok());
    assert_eq!(
        check_directory_removed(&DirectoryRemoval::NotEmpty).unwrap_err().code,
        "ownership_conflict"
    );
    assert_eq!(
        check_directory_removed(&DirectoryRemoval::Failed("busy".to_owned())).unwrap_err().message,
        "cannot remove expected-empty owned directory: busy"
    );
}

#[test]
fn removals_enter_by_the_state_of_the_record() {
    assert_eq!(enter_removal(&Some(installed())).unwrap(), RemovalEntry::Begin);
    let mut removing = installed();
    removing.state = InstallState::Removing;
    assert_eq!(enter_removal(&Some(removing.copy())).unwrap(), RemovalEntry::Resume);
    removing.state = InstallState::Removed;
    assert_eq!(enter_removal(&Some(removing)).unwrap_err().code, "already_removed");
    assert_eq!(enter_removal(&None).unwrap_err().code, "ownership_record_missing");
    assert!(validate_removal_executable(&broker(), &installed()).is_ok());
    assert!(validate_removal_executable("x", &installed()).is_err());
    assert!(check_stopped(&installed(), &installed(), 0, 0).is_ok());
    assert!(check_stopped(&installed(), &installed(), 0, 1).is_err());
    assert_eq!(
        next_unregister_step(InstallState::UnregisterPending).unwrap(),
        (UnregisterStep::Ask, InstallState::Unregistering)
    );
    assert!(next_unregister_step(InstallState::Ready).is_err());
    assert_eq!(
        reconcile_unregistering(PluginRegistrationState::Absent),
        InstallState::FinalizingRemoval
    );
    assert!(check_unregistered(PluginRegistrationState::Absent, true, None).is_ok());
    assert_eq!(
        check_unregistered(PluginRegistrationState::Present, false, None).unwrap_err().message,
        "Herdr plugin unregister remains pending"
    );
    let record = installed();
    let checks: Vec<ManagedResult<()>> = record.owned_files.iter().map(|_| Ok(())).collect();
    assert!(validate_removal_inventory(&record, &stable(), &settings_found(), &checks).is_ok());
}

#[test]
fn pi_entries_are_removed_exactly() {
    let record = installed();
    let present = settings(vec![Json::Text("npm:x".to_owned()), record.pi_package_entry.copy()]);
    assert_eq!(
        remove_exact_pi_entry(&record, &present, true).unwrap(),
        PiEntryRemoval::Remove
    );
    assert!(remove_exact_pi_entry(&record, &present, false).is_err());
    assert_eq!(
        remove_exact_pi_entry(&record, &settings(Vec::new()), false).unwrap(),
        PiEntryRemoval::Nothing
    );
    assert!(check_pi_entry_removed(&record, &present).is_err());
    assert!(check_pi_entry_removed(&record, &settings(Vec::new())).is_ok());
}

#[test]
fn registrations_are_told_exactly() {
    let response = |plugins: Vec<HerdrPluginRegistration>| {
        Some(HerdrPluginListResponse {
            id: "cli:plugin".to_owned(),
            result_type: "plugin_list".to_owned(),
            plugins,
        })
    };
    let record = installed();
    assert_eq!(
        decode_exact_plugin_registration(&response(Vec::new()), &record).unwrap(),
        PluginRegistrationState::Absent
    );
    let registration = |plugin_root: FsPath| HerdrPluginRegistration {
        plugin_id: "herdr.a2a".to_owned(),
        enabled: true,
        plugin_root,
    };
    assert_eq!(
        decode_exact_plugin_registration(&response(vec![registration(plugin())]), &record).unwrap(),
        PluginRegistrationState::Present
    );
    assert!(
        decode_exact_plugin_registration(&response(vec![registration(path("/x"))]), &record)
            .is_err()
    );
    assert!(decode_exact_plugin_registration(&None, &record).is_err());
}

fn purge_journal(phase: RemovalTransactionPhase) -> RemovalTransaction {
    let root = path("/home/u/.local/state/herdr/plugins/herdr.a2a");
    RemovalTransaction {
        schema_version: 1,
        phase,
        purge_snapshot: StageSnapshot {
            directories: vec![OwnedDirectory { path: root.copy(), device: 1, inode: 9, mode: 0o700 }],
            files: Vec::new(),
        },
        purge_root: root,
        skip_herdr_unregister: false,
    }
}

#[test]
fn purges_are_begun_or_resumed_with_authority() {
    let record = installed();
    let root = || Ok(record.plugin_state_root.copy());
    let journal = |phase| purge_journal(phase);
    let tree = |phase| Ok(journal(phase).purge_snapshot);
    let plan = |purge: bool,
                existing: Option<RemovalTransaction>,
                found: PurgeRootFound| {
        plan_purge(
            purge,
            &existing,
            &record,
            false,
            &found,
            &root(),
            &tree(RemovalTransactionPhase::Intent),
        )
    };
    assert!(matches!(plan(false, None, PurgeRootFound::Absent), Ok(PurgePlan::Skip)));
    let begin = plan(true, None, PurgeRootFound::Absent).unwrap();
    assert!(matches!(begin, PurgePlan::Begin { .. }));
    assert_eq!(plan_purge_work(&begin, RemovalTransactionPhase::Intent), PurgeWork::Begin);
    assert_eq!(
        plan(false, Some(journal(RemovalTransactionPhase::Intent)), PurgeRootFound::Absent)
            .unwrap_err()
            .message,
        "an authenticated purge must be resumed with --purge"
    );
    let present = PurgeRootFound::Present(tree(RemovalTransactionPhase::Deleting));
    let resumed =
        plan(true, Some(journal(RemovalTransactionPhase::Deleting)), present).unwrap();
    assert!(matches!(resumed, PurgePlan::Resume { present: true }));
    assert_eq!(plan_purge_work(&resumed, RemovalTransactionPhase::Deleting), PurgeWork::Delete);
    assert_eq!(
        plan(true, Some(journal(RemovalTransactionPhase::Intent)), PurgeRootFound::Absent)
            .unwrap_err()
            .message,
        "the purge root disappeared before deletion was authorized"
    );
    assert!(
        plan(
            true,
            Some(journal(RemovalTransactionPhase::Deleted)),
            PurgeRootFound::Present(tree(RemovalTransactionPhase::Deleted))
        )
        .is_err()
    );
    let gone =
        plan(true, Some(journal(RemovalTransactionPhase::Deleting)), PurgeRootFound::Absent)
            .unwrap();
    assert_eq!(plan_purge_work(&gone, RemovalTransactionPhase::Deleting), PurgeWork::Confirm);
    assert_eq!(plan_purge_work(&gone, RemovalTransactionPhase::Deleted), PurgeWork::Done);
    let unknown = plan(
        true,
        Some(journal(RemovalTransactionPhase::Deleting)),
        PurgeRootFound::Unknown("denied".to_owned()),
    );
    assert_eq!(unknown.unwrap_err().code, "unsafe_owned_state");
}

#[test]
fn reinstalls_need_a_clean_removal() {
    let mut record = installed();
    record.state = InstallState::Removed;
    let found = |rescue: ManagedResult<()>| RemovedFound {
        owned: record.owned_files.iter().map(|_| Ok(())).collect(),
        rescue,
        registry: Ok(()),
    };
    let check = |found: &RemovedFound, settings: &PiSettings| {
        validate_removed_record_for_reinstall(
            &record,
            &stable(),
            &settings_found(),
            found,
            settings,
        )
    };
    assert!(check(&found(Ok(())), &settings(Vec::new())).is_ok());
    assert!(check(&found(removed_asset_check(true, None)), &settings(Vec::new())).is_err());
    assert!(check(&found(Ok(())), &settings(vec![record.pi_package_entry.copy()])).is_err());
    assert!(removed_asset_check(false, None).is_ok());
}

#[test]
fn a_removed_installation_leaves_nothing_behind() {
    let none = Ok(Vec::new());
    assert!(removed_rescue_check(false, None, &broken(), &broken()).is_ok());
    assert!(removed_rescue_check(true, None, &Ok(()), &none).is_ok());
    assert_eq!(removed_rescue_check(true, None, &broken(), &none).unwrap_err().code, "broken");
    assert_eq!(removed_rescue_check(true, None, &Ok(()), &broken()).unwrap_err().code, "broken");
    assert_eq!(
        removed_rescue_check(true, None, &Ok(()), &Ok(vec![path("/x")])).unwrap_err().text(),
        "ownership_conflict: a removed installation has unowned rescue residue"
    );
    assert_eq!(
        removed_rescue_check(false, Some("denied"), &Ok(()), &none).unwrap_err().message,
        "cannot inspect the removed rescue directory: denied"
    );
    assert!(removed_registry_check(false, None).is_ok());
    assert_eq!(
        removed_registry_check(true, None).unwrap_err().text(),
        "owned_process_mismatch: a removed installation still has a process registry"
    );
    assert_eq!(
        removed_registry_check(false, Some("denied")).unwrap_err().message,
        "cannot inspect the removed process registry: denied"
    );
}

#[test]
fn the_host_is_asked_last() {
    let steps = plan_removal_steps(InstallState::Ready, PurgeWork::Begin, false);
    let asked = steps.iter().position(|step| *step == RemovalStep::AskHost).unwrap();
    for earlier in [
        RemovalStep::StopProcesses,
        RemovalStep::RemovePiEntry,
        RemovalStep::UnlinkUnneeded,
        RemovalStep::DropRegistries,
        RemovalStep::DeletePurgeRoot,
    ] {
        assert!(steps[..asked].contains(&earlier));
    }
    assert_eq!(
        &steps[asked + 1..],
        [
            RemovalStep::ObserveHost,
            RemovalStep::UnlinkAll,
            RemovalStep::Mark(InstallState::Removed),
            RemovalStep::ClearPurgeJournal,
        ]
    );
}

#[test]
fn a_journal_that_only_moves_on_can_be_read() {
    let mut journal = first_journal();
    journal.phase = TransactionPhase::GenerationPublishing;
    assert!(read_back(journal).is_ok());
    let mut published = first_journal();
    published.phase = TransactionPhase::GenerationPublished;
    assert_eq!(
        read_back(published).is_ok(),
        !first_journal().generation_created,
    );
}

#[test]
fn trees_are_taken_down_from_the_leaves() {
    let root = path("/s/generations/g");
    let (found, files, directories) = plan_stage_removal(tree(&root)).unwrap();
    assert!(found.same(&root));
    assert_eq!(files.len(), 2);
    assert!(directories.last().unwrap().path.same(&root));
    let mut less = tree(&root);
    less.files.pop();
    assert!(stage_is_exact_subset(&tree(&root), &less));
    assert!(!stage_is_exact_subset(&less, &tree(&root)));
    let moved = relocate_stage_snapshot(&tree(&root), &root, &path("/t")).unwrap();
    assert!(moved.files[0].path.same(&path("/t/bin/herdr-a2a")));
    let empty = StageSnapshot { directories: Vec::new(), files: Vec::new() };
    assert_eq!(plan_stage_removal(empty).unwrap_err().message, "stage snapshot is empty");
}

#[test]
fn rescue_migrations_go_step_by_step() {
    let steps = migration_steps();
    assert_eq!(steps[0], MigrationStep::Journal(RescueMigrationPhase::Intent));
    assert_eq!(steps.last(), Some(&MigrationStep::Clear));
    assert_eq!(rescue_migration_phase_name(RescueMigrationPhase::PriorBackedUp), "prior-backed-up");
    assert!(rescue_migration_temp_transition_is_allowed(
        RescueMigrationPhase::Intent,
        RescueMigrationPhase::Prepared
    ));
    assert!(!rescue_migration_temp_transition_is_allowed(
        RescueMigrationPhase::Prepared,
        RescueMigrationPhase::Intent
    ));
    let live = RescueMigrationLiveState {
        record: RescueRecordState::Prior,
        rescue: RescueTreeState::Prior,
        stage: RescueTreeState::Absent,
        backup: RescueTreeState::Absent,
    };
    assert!(matches!(
        reconcile_rescue_step(RescueMigrationPhase::StageCleaning, live, true),
        Ok(RescueStep::Clear | RescueStep::RemoveStage | RescueStep::Journal(_))
    ));
    let other = RescueMigrationLiveState { record: RescueRecordState::Other, ..live };
    assert!(reconcile_rescue_step(RescueMigrationPhase::Intent, other, true).is_err());
}

#[test]
fn an_older_rescue_layout_is_migrated() {
    let mut prior = installed();
    for file in &mut prior.owned_files {
        if file.path.file_name_is("uninstall.sh") {
            file.mode = 0o700;
        }
    }
    assert_eq!(rescue_layout(&prior, &stable()).unwrap(), RescueLayout::LegacyExecutable);
    let migrated =
        migrate_record(&prior, &stable(), &plugin(), NOTICE, &settings_found()).unwrap();
    assert_eq!(rescue_layout(&migrated.0, &stable()).unwrap(), RescueLayout::SourceNotice);
    assert!(
        validate_record_semantics(&migrated.0, &stable(), &plugin(), &settings_found()).is_ok()
    );
}

fn legacy_rescue() -> (OwnershipRecord, StageSnapshot) {
    let mut prior = installed();
    for file in &mut prior.owned_files {
        if file.path.file_name_is("uninstall.sh") {
            file.mode = 0o700;
        }
    }
    let rescue = stable().join("rescue");
    let files = prior
        .owned_files
        .iter()
        .filter(|file| file.path.starts_with(&rescue))
        .enumerate()
        .map(|(index, file)| OwnedStageFile {
            path: file.path.copy(),
            device: 1,
            inode: 20 + index as u64,
            mode: file.mode,
            sha256: file.sha256.clone(),
        })
        .collect();
    let directories = vec![OwnedDirectory { path: rescue, device: 1, inode: 19, mode: 0o700 }];
    (prior, StageSnapshot { directories, files })
}

#[test]
fn a_migration_that_begins_can_be_read() {
    let token = "0123456789abcdef".repeat(2);
    let begin = |found: StageSnapshot, notice: ManagedResult<Vec<u8>>| {
        begin_migration(
            &legacy_rescue().0,
            &stable(),
            &plugin(),
            &token,
            found,
            &notice,
            &settings_found(),
        )
    };
    let (prior, found) = legacy_rescue();
    let (migration, marker) = begin(found.copy(), Ok(NOTICE.to_vec())).unwrap();
    assert!(validate_rescue_migration(&stable(), &migration, &settings_found()).is_ok());
    assert_eq!(migration.phase, RescueMigrationPhase::Intent);
    assert!(migration.prior_record.same(&prior));
    assert!(migration.backup.file_name_is(&format!(".rescue-migration-backup-{token}")));
    assert_eq!(migration.new_snapshot.files.len(), 2);
    assert!(migration.new_snapshot.files.iter().all(|file| file.inode == 0));
    assert_eq!(migration.new_record.rescue_marker_digest, sha256_bytes(marker.as_bytes()));
    assert_eq!(begin(found.copy(), broken()).unwrap_err().code, "broken");
    let mut short = found.copy();
    short.files.pop();
    assert_eq!(
        begin(short, Ok(NOTICE.to_vec())).unwrap_err().message,
        "rescue snapshot file inventory is not exact"
    );
}

#[test]
fn a_configured_record_is_ready() {
    let mut pending = installed();
    pending.state = InstallState::PiAdapterPending;
    let entry = Json::Text("/somewhere".to_owned());
    let configured = configured_record(pending.copy(), &entry);
    assert_eq!(configured.state, InstallState::Ready);
    assert!(configured.pi_package_entry.same(&entry));
    pending.state = InstallState::Ready;
    pending.pi_package_entry = entry;
    assert!(configured.same(&pending));
}

#[test]
fn a_purge_that_begins_can_be_resumed() {
    let journal = purge_journal(RemovalTransactionPhase::Intent);
    let begun = begin_purge(journal.purge_root.copy(), journal.purge_snapshot.copy(), false);
    assert_eq!((begun.schema_version, begun.phase), (1, RemovalTransactionPhase::Intent));
    let mut record = installed();
    record.state = InstallState::Removing;
    record.plugin_state_root = journal.purge_root.copy();
    let tree = begun.purge_snapshot.copy();
    assert!(matches!(
        plan_purge(
            true,
            &Some(begun),
            &record,
            false,
            &PurgeRootFound::Present(Ok(tree)),
            &broken(),
            &broken(),
        ),
        Ok(PurgePlan::Resume { present: true })
    ));
}

fn staged(path: FsPath, inode: u64, mode: u32, sha256: String) -> OwnedStageFile {
    OwnedStageFile { path, device: 1, inode, mode, sha256 }
}

fn plugin_stage(journal: &InstallTransaction) -> StageSnapshot {
    let stage = &journal.plugin_stage;
    let binary = journal.generation.join("bin/herdr-a2a");
    StageSnapshot {
        directories: vec![
            OwnedDirectory { path: stage.copy(), device: 1, inode: 10, mode: 0o700 },
            OwnedDirectory { path: stage.join("libexec"), device: 1, inode: 11, mode: 0o700 },
        ],
        files: vec![
            staged(stage.join("libexec/herdr-a2a-dispatch"), 12, 0o700, broker()),
            staged(
                stage.join("stable-bin-path"),
                13,
                0o600,
                expected_pointer_digest(&binary).unwrap(),
            ),
        ],
    }
}

#[test]
fn what_a_first_install_leaves_in_the_plugin_root_is_recognised() {
    let mut journal = first_journal();
    let nothing = |stage_exists: bool, stage_tree: ManagedResult<StageSnapshot>| PluginFound {
        helper: ObservedFile::Absent,
        pointer: ObservedFile::Absent,
        helper_backup: ObservedFile::Absent,
        pointer_backup: ObservedFile::Absent,
        helper_backup_exists: false,
        pointer_backup_exists: false,
        stage_exists,
        stage_tree,
    };
    for phase in [
        TransactionPhase::Intent,
        TransactionPhase::GenerationPublishing,
        TransactionPhase::GenerationPublished,
        TransactionPhase::PluginPublishing,
    ] {
        journal.phase = phase;
        assert!(validate_live_plugin_state(&journal, &nothing(false, broken())).is_ok());
        assert!(validate_live_plugin_state(&journal, &nothing(true, broken())).is_err());
    }
    let stage = plugin_stage(&journal);
    journal.plugin_stage_snapshot = Some(stage.copy());
    for phase in [
        TransactionPhase::PluginPublishing,
        TransactionPhase::PluginBackingUpHelper,
        TransactionPhase::PluginBackingUpPointer,
        TransactionPhase::PluginPublishingHelper,
    ] {
        journal.phase = phase;
        assert!(validate_live_plugin_state(&journal, &nothing(true, Ok(stage.copy()))).is_ok());
    }
    let helper = staged(journal.helper.copy(), 12, 0o700, broker());
    let mut half = stage.copy();
    half.files.remove(0);
    let mut found = nothing(true, Ok(half));
    found.helper = ObservedFile::Present(helper);
    assert!(validate_live_plugin_state(&journal, &found).is_ok());
    journal.phase = TransactionPhase::PluginPublishingPointer;
    assert!(validate_live_plugin_state(&journal, &found).is_ok());
    journal.phase = TransactionPhase::PluginBackingUpPointer;
    assert_eq!(
        validate_live_plugin_state(&journal, &found).unwrap_err().message,
        "live plugin assets are not an exact state allowed by the transaction phase"
    );
}

fn cleanup_fixture(root: &FsPath, file_count: usize) -> StageSnapshot {
    let file = |index: usize| OwnedStageFile {
        path: root.join(&format!("asset-{index}")),
        device: 1,
        inode: 10 + index as u64,
        mode: 0o600,
        sha256: sha256_bytes(format!("owned-{index}\n").as_bytes()),
    };
    StageSnapshot {
        directories: vec![OwnedDirectory { path: root.copy(), device: 1, inode: 1, mode: 0o700 }],
        files: (0..file_count).map(file).collect(),
    }
}

fn planned_fixture(root: &FsPath, file_count: usize) -> StageSnapshot {
    let mut planned = cleanup_fixture(root, file_count);
    for directory in &mut planned.directories {
        directory.device = 0;
        directory.inode = 0;
    }
    for file in &mut planned.files {
        file.device = 0;
        file.inode = 0;
    }
    planned
}

fn user_extra(root: &FsPath) -> OwnedStageFile {
    OwnedStageFile {
        path: root.join("user-extra"),
        device: 1,
        inode: 99,
        mode: 0o600,
        sha256: sha256_bytes(b"unowned\n"),
    }
}

#[test]
fn rescue_migration_recovery_cleanup_resumes_each_subset_and_preserves_unowned_entries() {
    for removed in 0..=3 {
        let root = path(&format!("/base/exact-subset-{removed}"));
        let expected = cleanup_fixture(&root, 3);
        let mut current = cleanup_fixture(&root, 3);
        current.files.drain(..removed);
        let left = remove_remaining_exact_stage(&expected, Some(current)).unwrap().unwrap();
        assert_eq!(left.files.len(), 3 - removed, "exact cleanup stopped after {removed} files");
        let (removed_root, files, directories) = plan_stage_removal(left).unwrap();
        assert!(removed_root.same(&root));
        assert_eq!(files.len(), 3 - removed);
        assert_eq!(directories.len(), 1);
        assert!(remove_remaining_exact_stage(&expected, None).unwrap().is_none());
    }

    let absent = cleanup_fixture(&path("/base/already-absent"), 1);
    assert!(remove_remaining_exact_stage(&absent, None).unwrap().is_none());

    let planned_root = path("/base/planned-subset");
    let planned = planned_fixture(&planned_root, 2);
    let mut current = cleanup_fixture(&planned_root, 1);
    current.files[0].sha256 = sha256_bytes(b"partial");
    assert!(remove_remaining_exact_stage(&planned, Some(current.copy())).is_err());
    let left = remove_remaining_planned_stage(&planned, Some(current.copy())).unwrap().unwrap();
    assert!(left.same(&current));
    assert!(remove_remaining_stage(&planned, Some(current)).unwrap().is_some());

    let exact_unowned_root = path("/base/exact-unowned");
    let exact_unowned = cleanup_fixture(&exact_unowned_root, 2);
    let mut current = exact_unowned.copy();
    current.files.push(user_extra(&exact_unowned_root));
    assert!(remove_remaining_exact_stage(&exact_unowned, Some(current.copy())).is_err());
    assert!(remove_remaining_stage(&exact_unowned, Some(current)).is_err());

    let planned_unowned_root = path("/base/planned-unowned");
    let planned_unowned = planned_fixture(&planned_unowned_root, 1);
    let mut current = cleanup_fixture(&planned_unowned_root, 1);
    current.files.push(user_extra(&planned_unowned_root));
    assert!(remove_remaining_planned_stage(&planned_unowned, Some(current)).is_err());

    let empty = StageSnapshot { directories: Vec::new(), files: Vec::new() };
    assert_eq!(
        remove_remaining_exact_stage(&empty, None).unwrap_err().message,
        "stage snapshot is empty"
    );
}

#[test]
fn cleanup_removes_files_first_and_the_root_last() {
    let root = path("/base/tree");
    let (_, files, directories) = plan_stage_removal(tree(&root)).unwrap();
    assert_eq!(files.len(), 2);
    assert!(directories.last().unwrap().path.same(&root));
    assert_eq!(directories.len(), 3);
}

#[test]
fn a_snapshot_moves_there_and_back() {
    let before = tree(&path("/base/stage"));
    let there =
        relocate_stage_snapshot(&before, &path("/base/stage"), &path("/other/live")).unwrap();
    assert_eq!(text_of(&there.files[1].path), "/other/live/pi/package.json");
    assert!(!there.same(&before));
    let back =
        relocate_stage_snapshot(&there, &path("/other/live"), &path("/base/stage")).unwrap();
    assert!(back.same(&before));
    let lost = relocate_stage_snapshot(&before, &path(""), &path("/other")).unwrap();
    assert!(relocate_stage_snapshot(&lost, &path("/other"), &path("")).is_err());
}
