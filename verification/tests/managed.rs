use herdr_a2a_cli::bounded::{
    digest_bounded_reader, digest_bounded_stage_file, parse_bounded_opened_json,
    read_bounded_opened_utf8, ByteSource,
};
use herdr_a2a_cli::digest::sha256_bytes;
use herdr_a2a_cli::json::Json;
use herdr_a2a_cli::path::FsPath;
use herdr_a2a_cli::record::{
    authoritative_v2_transaction_endpoints_are_exact_migration, decode_compatible_record,
    decode_journal_record, exact_schema_v2_to_v3_migration_adjacency, CompatibleOwnershipRecord,
    InstallState, OwnedFile, OwnershipRecord, OWNERSHIP_SCHEMA,
};
use herdr_a2a_cli::registry::{
    bounded_stop_deadline, ensure_drain_deadline, PROCESS_DRAIN_TIMEOUT_MS,
};
use herdr_a2a_cli::rescue::{
    is_rescue_migration_artifact_name, reject_unowned_rescue_migration_artifacts,
    rescue_migration_schema_phase_is_known, rescue_recovery_route, RescueMigrationLiveState,
    RescueRecordState, RescueRecoveryRoute, RescueTreeState,
    LEGACY_RESCUE_MIGRATION_SCHEMA, RESCUE_MIGRATION_SCHEMA,
};
use herdr_a2a_cli::rescue::RescueMigrationPhase::{
    BackupRetiring, Intent, NoticeCleaning, NoticePublished, NoticePublishing, Prepared,
    PriorBackedUp, PriorBackingUp, PriorRestoring, RecordCommitted, RecordCommitting,
    StageCleaning,
};
use herdr_a2a_cli::rescue::RescueRecordState::{
    New as NewRecord, Other as OtherRecord, Prior as PriorRecord,
};
use herdr_a2a_cli::rescue::RescueRecoveryRoute::{
    BeforeNotice, Committed, NoticeCleanup, NoticeRollback, PriorRestore, StageCleanup,
};
use herdr_a2a_cli::rescue::RescueTreeState::{
    Absent, New, NewSubset, Other, PlannedSubset, Prior, PriorSubset,
};
use herdr_a2a_cli::transaction::prior_rescue_marker_is_authenticated;
use herdr_a2a_cli::version::{parse_pi_version, pi_version_supported};

fn path(text: &str) -> FsPath {
    FsPath::from_text(text)
}

#[test]
fn interface_version_parser_rejects_arbitrary_or_prerelease_suffixes() {
    assert_eq!(parse_pi_version(b"0.84.2\n"), Some((0, 84, 2)));
    for malformed in [
        b"garbage 0.84.2".as_slice(),
        b"pi 0.84.2".as_slice(),
        b"pi 0.84.2garbage".as_slice(),
        b"pi 0.84.2-beta".as_slice(),
        b"pi 0.84".as_slice(),
        b"pi 0.84.2.1".as_slice(),
    ] {
        assert_eq!(parse_pi_version(malformed), None, "{malformed:?}");
    }
}

#[test]
fn pi_compatibility_has_a_minimum_without_an_upper_ceiling() {
    assert!(!pi_version_supported((0, 84, 1)));
    assert!(pi_version_supported((0, 84, 2)));
    assert!(pi_version_supported((1, 0, 0)));
}

#[test]
fn shared_deadline_prevents_multiple_entries_from_summing_retirement_windows() {
    let now = 1_000_000_u64;
    let shared = now + 10;
    let first_entry = bounded_stop_deadline(now, shared, PROCESS_DRAIN_TIMEOUT_MS).unwrap();
    let second_entry = bounded_stop_deadline(now, shared, PROCESS_DRAIN_TIMEOUT_MS).unwrap();
    assert!(
        first_entry <= shared && second_entry <= shared,
        "multiple retirement entries received fresh per-entry drain windows"
    );
    assert_eq!(first_entry, shared);
    assert_eq!(second_entry, shared);
}

#[test]
fn expired_shared_deadline_rejects_empty_registry_after_work_began() {
    let now = 1_000_000_u64;
    let expired = now - 1;
    assert!(ensure_drain_deadline(now, expired, true).is_err());
}

fn predecessor_record(schema_version: u32) -> CompatibleOwnershipRecord {
    let current = schema_version == OWNERSHIP_SCHEMA;
    CompatibleOwnershipRecord {
        schema_version,
        state: InstallState::Ready,
        plugin_version: "1.0.0".to_owned(),
        broker_digest: "a".repeat(64),
        pi_package_digest: "b".repeat(64),
        pi_package_source: path("/stable/generations/one/pi"),
        pi_config_path: path("/home/.pi/agent/settings.json"),
        pi_package_entry: Json::Text("/stable/generations/one/pi".to_owned()),
        purge_authority: None,
        plugin_state_root: if current { Some(path("/plugin-state")) } else { None },
        rescue_path: path("/stable/rescue/uninstall.sh"),
        rescue_marker_digest: if current { Some("c".repeat(64)) } else { None },
        install_kind: "managed".to_owned(),
        plugin_root: path("/plugin"),
        stable_binary: path("/stable/generations/one/bin/herdr-a2a"),
        ownership_path: path("/stable/ownership.json"),
        owned_files: Vec::new(),
        last_error: None,
    }
}

#[test]
fn embedded_schema_v2_record_without_purge_fields_decodes_without_authority() {
    let record = decode_journal_record(predecessor_record(2)).expect("schema v2 must decode");
    assert!(!record.purge_authority);
    assert!(record.plugin_state_root.is_empty());
}

#[test]
fn embedded_schema_v2_record_with_internal_false_authority_decodes_safely() {
    let mut value = predecessor_record(2);
    value.purge_authority = Some(false);
    let record = decode_journal_record(value).expect("embedded schema v2 false must decode");
    assert!(!record.purge_authority);
    assert!(record.plugin_state_root.is_empty());
}

#[test]
fn prior_rescue_marker_proof_preserves_only_the_legacy_no_authority_exception() {
    let marker_bytes = b"authenticated legacy marker\n";
    let marker = OwnedFile {
        path: path("/stable/rescue/owner-v1"),
        sha256: sha256_bytes(marker_bytes),
        mode: 0o600,
    };
    let legacy = decode_journal_record(predecessor_record(2)).unwrap();
    assert!(prior_rescue_marker_is_authenticated(&legacy, &marker, marker_bytes));
    assert!(!prior_rescue_marker_is_authenticated(
        &legacy,
        &marker,
        b"changed marker\n"
    ));

    let mut authoritative_v2 = legacy.copy();
    authoritative_v2.purge_authority = true;
    authoritative_v2.plugin_state_root = path("/plugin-state");
    assert!(!prior_rescue_marker_is_authenticated(
        &authoritative_v2,
        &marker,
        marker_bytes
    ));
    authoritative_v2.rescue_marker_digest = marker.sha256.clone();
    assert!(prior_rescue_marker_is_authenticated(
        &authoritative_v2,
        &marker,
        marker_bytes
    ));

    let mut current = decode_journal_record(predecessor_record(OWNERSHIP_SCHEMA)).unwrap();
    assert!(!prior_rescue_marker_is_authenticated(&current, &marker, marker_bytes));
    current.rescue_marker_digest = marker.sha256.clone();
    assert!(prior_rescue_marker_is_authenticated(&current, &marker, marker_bytes));
}

#[test]
fn embedded_legacy_schema_v3_record_derives_its_recorded_purge_authority() {
    let record = decode_journal_record(predecessor_record(OWNERSHIP_SCHEMA))
        .expect("legacy schema v3 must decode");
    assert!(record.purge_authority);
    assert!(record.plugin_state_root.same(&path("/plugin-state")));
}

#[test]
fn embedded_legacy_schema_v3_record_rejects_incomplete_authority_shapes() {
    let mut missing_root = predecessor_record(OWNERSHIP_SCHEMA);
    missing_root.plugin_state_root = None;

    let mut empty_root = predecessor_record(OWNERSHIP_SCHEMA);
    empty_root.plugin_state_root = Some(path(""));

    let mut invalid_marker = predecessor_record(OWNERSHIP_SCHEMA);
    invalid_marker.rescue_marker_digest = Some("not-a-digest".to_owned());

    for incompatible in [missing_root, empty_root, invalid_marker] {
        assert!(decode_journal_record(incompatible).is_err());
    }
}

struct EndlessReader;

impl ByteSource for EndlessReader {
    fn read(&mut self, max: usize) -> Result<Vec<u8>, String> {
        Ok(vec![b'x'; max])
    }
}

#[test]
fn actual_tree_reads_stop_at_the_shared_byte_budget_without_eof() {
    let mut total = 0_u64;
    let error = digest_bounded_reader(&mut EndlessReader, 16, &mut total, 24).unwrap_err();
    assert_eq!(error.code, "bundle_invalid");
    assert!(total <= 24);
}

#[test]
fn actual_stage_reads_stop_at_the_shared_byte_budget_without_eof() {
    let mut total = 0_u64;
    let error = digest_bounded_stage_file(&mut EndlessReader, 16, &mut total, 24, "bounded_stage")
        .unwrap_err();
    assert_eq!(error.code, "bounded_stage");
    assert!(total <= 24);
}

#[test]
fn bounded_text_reads_fail_closed_when_the_source_grows_past_fstat_length() {
    let error = read_bounded_opened_utf8(&mut EndlessReader, 1, 16, "bounded_text")
        .expect_err("a growing text file must not be accepted");
    assert_eq!(error.code, "bounded_text");
}

#[test]
fn bounded_json_reads_fail_closed_when_the_source_grows_past_fstat_length() {
    let error = parse_bounded_opened_json(&mut EndlessReader, 1, 16, "bounded_json")
        .expect_err("a growing JSON file must not be accepted");
    assert_eq!(error.code, "bounded_json");
}

fn live(
    record: RescueRecordState,
    rescue: RescueTreeState,
    stage: RescueTreeState,
    backup: RescueTreeState,
) -> RescueMigrationLiveState {
    RescueMigrationLiveState { record, rescue, stage, backup }
}

#[test]
fn rescue_migration_recovery_phase_table_covers_every_adjacent_crash_state() {
    let cases = [
        (Intent, live(PriorRecord, Prior, Absent, Absent), RescueRecoveryRoute::Intent),
        (Intent, live(PriorRecord, Prior, PlannedSubset, Absent), RescueRecoveryRoute::Intent),
        (Prepared, live(PriorRecord, Prior, New, Absent), BeforeNotice),
        (Prepared, live(PriorRecord, Absent, New, Prior), BeforeNotice),
        (PriorBackingUp, live(PriorRecord, Prior, New, Absent), BeforeNotice),
        (PriorBackingUp, live(PriorRecord, Absent, New, Prior), BeforeNotice),
        (PriorBackedUp, live(PriorRecord, Absent, New, Prior), BeforeNotice),
        (PriorBackedUp, live(PriorRecord, New, Absent, Prior), NoticeRollback),
        (NoticePublishing, live(PriorRecord, Absent, New, Prior), BeforeNotice),
        (NoticePublishing, live(PriorRecord, New, Absent, Prior), NoticeRollback),
        (NoticePublished, live(PriorRecord, New, Absent, Prior), NoticeRollback),
        (NoticePublished, live(NewRecord, New, Absent, Prior), Committed),
        (RecordCommitting, live(PriorRecord, New, Absent, Prior), NoticeRollback),
        (RecordCommitting, live(NewRecord, New, Absent, Prior), Committed),
        (RecordCommitted, live(NewRecord, New, Absent, Prior), Committed),
        (RecordCommitted, live(NewRecord, New, Absent, PriorSubset), Committed),
        (RecordCommitted, live(NewRecord, New, Absent, Absent), Committed),
        (BackupRetiring, live(NewRecord, New, Absent, Prior), Committed),
        (BackupRetiring, live(NewRecord, New, Absent, PriorSubset), Committed),
        (BackupRetiring, live(NewRecord, New, Absent, Absent), Committed),
        (NoticeCleaning, live(PriorRecord, New, Absent, Prior), NoticeCleanup),
        (NoticeCleaning, live(PriorRecord, NewSubset, Absent, Prior), NoticeCleanup),
        (NoticeCleaning, live(PriorRecord, Absent, Absent, Prior), NoticeCleanup),
        (PriorRestoring, live(PriorRecord, Absent, New, Prior), PriorRestore),
        (PriorRestoring, live(PriorRecord, Absent, NewSubset, Prior), PriorRestore),
        (PriorRestoring, live(PriorRecord, Absent, Absent, Prior), PriorRestore),
        (PriorRestoring, live(PriorRecord, Prior, New, Absent), PriorRestore),
        (PriorRestoring, live(PriorRecord, Prior, NewSubset, Absent), PriorRestore),
        (PriorRestoring, live(PriorRecord, Prior, Absent, Absent), PriorRestore),
        (StageCleaning, live(PriorRecord, Prior, New, Absent), StageCleanup),
        (StageCleaning, live(PriorRecord, Prior, NewSubset, Absent), StageCleanup),
        (StageCleaning, live(PriorRecord, Prior, PlannedSubset, Absent), StageCleanup),
        (StageCleaning, live(PriorRecord, Prior, Absent, Absent), StageCleanup),
    ];
    for (phase, state, expected) in cases {
        assert_eq!(rescue_recovery_route(phase, state).unwrap(), expected);
    }

    for phase in [
        Intent,
        Prepared,
        PriorBackingUp,
        PriorBackedUp,
        NoticePublishing,
        NoticePublished,
        RecordCommitting,
        RecordCommitted,
        BackupRetiring,
        NoticeCleaning,
        PriorRestoring,
        StageCleaning,
    ] {
        assert!(cases.iter().any(|case| case.0 == phase));
        assert!(rescue_migration_schema_phase_is_known(RESCUE_MIGRATION_SCHEMA, phase));
        assert_eq!(
            rescue_migration_schema_phase_is_known(LEGACY_RESCUE_MIGRATION_SCHEMA, phase),
            matches!(
                phase,
                Prepared | PriorBackedUp | NoticePublished | RecordCommitted
            )
        );
        assert!(
            rescue_recovery_route(phase, live(PriorRecord, Prior, Other, Absent)).is_err(),
            "phase {phase:?} accepted an unowned stage entry"
        );
    }
    assert!(!rescue_migration_schema_phase_is_known(RESCUE_MIGRATION_SCHEMA + 1, Intent));
    assert!(rescue_recovery_route(BackupRetiring, live(NewRecord, New, Absent, Other)).is_err());
    assert!(
        rescue_recovery_route(NoticeCleaning, live(PriorRecord, Other, Absent, Prior)).is_err()
    );
    assert!(
        rescue_recovery_route(RecordCommitted, live(OtherRecord, New, Absent, Prior)).is_err()
    );
}

#[test]
fn unjournaled_rescue_artifacts_are_refused() {
    let orphan = format!(".rescue-migration-stage-{}", "a".repeat(32)).into_bytes();
    assert!(is_rescue_migration_artifact_name(&orphan));
    let error = reject_unowned_rescue_migration_artifacts(&vec![b"ownership.json".to_vec(), orphan])
        .unwrap_err();
    assert_eq!(error.code, "recovery_needed");
    assert!(
        reject_unowned_rescue_migration_artifacts(&vec![b"ownership.json".to_vec()]).is_ok()
    );
}

fn authoritative_v2_record() -> OwnershipRecord {
    decode_compatible_record(CompatibleOwnershipRecord {
        schema_version: 2,
        state: InstallState::Ready,
        plugin_version: "1.0.0".to_owned(),
        broker_digest: "a".repeat(64),
        pi_package_digest: "b".repeat(64),
        pi_package_source: path("/stable/generations/one/pi"),
        pi_config_path: path("/pi/settings.json"),
        pi_package_entry: Json::Text("/stable/generations/one/pi".to_owned()),
        purge_authority: Some(true),
        plugin_state_root: Some(path("/plugin-state")),
        rescue_path: path("/stable/rescue/uninstall.sh"),
        rescue_marker_digest: Some("c".repeat(64)),
        install_kind: "managed".to_owned(),
        plugin_root: path("/plugin"),
        stable_binary: path("/stable/generations/one/bin/herdr-a2a"),
        ownership_path: path("/stable/ownership.json"),
        owned_files: vec![OwnedFile {
            path: path("/stable/generations/one/bin/herdr-a2a"),
            sha256: "a".repeat(64),
            mode: 0o700,
        }],
        last_error: None,
    })
    .unwrap()
}

#[test]
fn authoritative_v2_transaction_neighbor_must_be_the_exact_v3_representation() {
    let prior = authoritative_v2_record();
    let mut current = prior.copy();
    current.schema_version = OWNERSHIP_SCHEMA;
    assert!(exact_schema_v2_to_v3_migration_adjacency(&prior, &current));

    let mut mutations: Vec<OwnershipRecord> = Vec::new();
    let mut record = current.copy();
    record.state = InstallState::Failed;
    mutations.push(record);
    let mut record = current.copy();
    record.plugin_version = "1.0.1".to_owned();
    mutations.push(record);
    let mut record = current.copy();
    record.broker_digest = "d".repeat(64);
    mutations.push(record);
    let mut record = current.copy();
    record.pi_package_digest = "e".repeat(64);
    mutations.push(record);
    let mut record = current.copy();
    record.pi_package_source = path("/other/pi");
    mutations.push(record);
    let mut record = current.copy();
    record.pi_config_path = path("/other/settings.json");
    mutations.push(record);
    let mut record = current.copy();
    record.pi_package_entry = Json::Text("/other/pi".to_owned());
    mutations.push(record);
    let mut record = current.copy();
    record.purge_authority = false;
    record.plugin_state_root = FsPath::empty();
    mutations.push(record);
    let mut record = current.copy();
    record.plugin_state_root = path("/other-state");
    mutations.push(record);
    let mut record = current.copy();
    record.rescue_path = path("/other/rescue.sh");
    mutations.push(record);
    let mut record = current.copy();
    record.rescue_marker_digest = "f".repeat(64);
    mutations.push(record);
    let mut record = current.copy();
    record.install_kind = "linked-dev".to_owned();
    mutations.push(record);
    let mut record = current.copy();
    record.plugin_root = path("/other-plugin");
    mutations.push(record);
    let mut record = current.copy();
    record.stable_binary = path("/other/herdr-a2a");
    mutations.push(record);
    let mut record = current.copy();
    record.ownership_path = path("/other/ownership.json");
    mutations.push(record);
    let mut record = current.copy();
    record.owned_files.push(OwnedFile {
        path: path("/stable/generations/one/pi/package.json"),
        sha256: "b".repeat(64),
        mode: 0o600,
    });
    mutations.push(record);
    let mut record = current.copy();
    record.last_error = Some("interrupted".to_owned());
    mutations.push(record);

    for mutation in mutations {
        assert!(
            !exact_schema_v2_to_v3_migration_adjacency(&prior, &mutation),
            "non-schema migration neighbor mutation was accepted: {mutation:?}"
        );
    }
}

#[test]
fn authoritative_v2_transaction_endpoints_are_ordered_and_complete() {
    let prior = authoritative_v2_record();
    let mut current = prior.copy();
    current.schema_version = OWNERSHIP_SCHEMA;
    assert!(authoritative_v2_transaction_endpoints_are_exact_migration(
        Some(&prior),
        Some(&current)
    ));
    assert!(!authoritative_v2_transaction_endpoints_are_exact_migration(
        Some(&current),
        Some(&prior)
    ));
    assert!(!authoritative_v2_transaction_endpoints_are_exact_migration(
        Some(&prior),
        Some(&prior)
    ));
    assert!(!authoritative_v2_transaction_endpoints_are_exact_migration(Some(&prior), None));
    assert!(!authoritative_v2_transaction_endpoints_are_exact_migration(None, Some(&prior)));
}
