//! The journal of an installation, and what it must say in each of its phases.

use vstd::prelude::*;
use vstd::string::*;
use vstd::utf8::*;
use crate::digest::{digest_ok, sha256_bytes, sha256_text, valid_digest};
use crate::error::{fail, failure, or_else, outcome, Failure, ManagedResult};
use crate::json::{
    json_views, law_texts_are_equal_to_themselves_alone, opt_same_json, same_json, Json, JsonView,
};
use crate::layout::{
    expected_pointer_digest, helper_path, path_views, pointer_digest, pointer_path, record_failure,
    rescue_marker_file, rescue_marker_path, rescue_notice, rescue_notice_path,
    validate_record_semantics,
};
use crate::lists::{lemma_filter_has, lemma_filter_sole, lemma_one_is_sole, sole};
use crate::path::{
    check_stored_path, child, file_name, join, parent, parts, path_text, path_text_failure,
    path_under, relative_to, same_path, stored_path_failure, strip_prefix, FsPath, PathPart,
};
use crate::pathset::{
    all_parts, collect_paths, law_path_sets_hold_their_paths, lemma_path_set_push, locations, path_set, tree_dirs, tree_directories,
    PathSet,
};
use crate::pi::{
    check_sources, entry_allowed, entry_source, is_allowed_managed_pi_entry, legacy_package,
    legacy_source, opt_json, pi_entry_source, sources_failure,
};
use crate::record::{
    authoritative_v2_transaction_endpoints_are_exact_migration, exact_v2_to_v3, opt_record,
    owned_for, record_owned_file, InstallState, OwnedFile, OwnedFileView, OwnershipRecord,
    RecordView,
};
use crate::snapshot::{
    dir_parts, moved, opt_file, opt_snapshot, owned_snapshot_failure, snapshot_failure,
    validate_owned_snapshot_semantics, validate_stage_snapshot_semantics, OwnedStageFile,
    SnapshotView, StageFileView, StageSnapshot,
};
use crate::text::{bytes_eq, text_eq, utf8};

verus! {

/// The schema of journals that are written.
pub const TRANSACTION_SCHEMA: u32 = 3;

/// The schema of older journals that are still read.
pub const LEGACY_TRANSACTION_SCHEMA: u32 = 2;

/// The most bytes of a rescue file, an event or a plugin manifest.
pub const MAX_EVENT_BYTES: usize = 65536;

/// How far an installation has come.
#[derive(Clone, Copy, Debug, PartialEq, Eq, Structural)]
pub enum TransactionPhase {
    Intent,
    GenerationPublishing,
    GenerationPublished,
    PluginPublishing,
    PluginBackingUpHelper,
    PluginBackingUpPointer,
    PluginPublishingHelper,
    PluginPublishingPointer,
    PluginPublished,
    PiMutating,
    PiMutated,
    RescuePublishing,
    RecordCommitting,
    RecordRenaming,
    RecordCommitted,
}

/// The journal of an installation.
#[derive(Debug)]
pub struct InstallTransaction {
    pub schema_version: u32,
    pub phase: TransactionPhase,
    pub prior_record: Option<OwnershipRecord>,
    pub new_record: Option<OwnershipRecord>,
    pub prior_rescue_notice: Option<Vec<u8>>,
    pub prior_rescue_marker: Option<Vec<u8>>,
    pub broker_digest: String,
    pub pi_package_digest: String,
    pub generation: FsPath,
    pub generation_stage: FsPath,
    pub generation_stage_snapshot: Option<StageSnapshot>,
    pub generation_files: Vec<FsPath>,
    pub generation_created: bool,
    pub prior_generation_snapshot: Option<StageSnapshot>,
    pub plugin_stage: FsPath,
    pub plugin_stage_snapshot: Option<StageSnapshot>,
    pub helper: FsPath,
    pub pointer: FsPath,
    pub helper_backup: FsPath,
    pub pointer_backup: FsPath,
    pub prior_helper_present: bool,
    pub prior_pointer_present: bool,
    pub prior_helper_snapshot: Option<OwnedStageFile>,
    pub prior_pointer_snapshot: Option<OwnedStageFile>,
    pub new_helper_snapshot: Option<OwnedStageFile>,
    pub new_pointer_snapshot: Option<OwnedStageFile>,
    pub pi_config_path: FsPath,
    pub prior_pi_entries: Vec<Json>,
    pub prior_owned_pi_entry: Option<Json>,
    pub new_pi_entry: Json,
}

/// A failure that leaves a journal to be recovered by hand.
pub open spec fn unrecovered(message: Seq<char>) -> Option<Failure> {
    Some(("recovery_needed"@, message))
}

/// The phases before any plugin file is staged.
pub open spec fn before_plugin(phase: TransactionPhase) -> bool {
    phase == TransactionPhase::Intent || phase == TransactionPhase::GenerationPublishing || phase
        == TransactionPhase::GenerationPublished
}

/// The phases in which plugin files are published.
pub open spec fn plugin_in_progress(phase: TransactionPhase) -> bool {
    phase == TransactionPhase::PluginPublishing || phase == TransactionPhase::PluginBackingUpHelper
        || phase == TransactionPhase::PluginBackingUpPointer || phase
        == TransactionPhase::PluginPublishingHelper || phase
        == TransactionPhase::PluginPublishingPointer
}

/// The phases in which the new record is known.
pub open spec fn has_new_record(phase: TransactionPhase) -> bool {
    phase == TransactionPhase::RescuePublishing || phase == TransactionPhase::RecordCommitting
        || phase == TransactionPhase::RecordRenaming || phase == TransactionPhase::RecordCommitted
}

/// Whether a phase comes before any plugin file is staged.
pub fn is_before_plugin(phase: TransactionPhase) -> (r: bool)
    ensures
        r == before_plugin(phase),
{
    match phase {
        TransactionPhase::Intent
        | TransactionPhase::GenerationPublishing
        | TransactionPhase::GenerationPublished => true,
        _ => false,
    }
}

/// Whether plugin files are published in a phase.
pub fn is_plugin_in_progress(phase: TransactionPhase) -> (r: bool)
    ensures
        r == plugin_in_progress(phase),
{
    match phase {
        TransactionPhase::PluginPublishing
        | TransactionPhase::PluginBackingUpHelper
        | TransactionPhase::PluginBackingUpPointer
        | TransactionPhase::PluginPublishingHelper
        | TransactionPhase::PluginPublishingPointer => true,
        _ => false,
    }
}

/// Whether the new record is known in a phase.
pub fn phase_requires_new_record(phase: TransactionPhase) -> (r: bool)
    ensures
        r == has_new_record(phase),
{
    match phase {
        TransactionPhase::RescuePublishing
        | TransactionPhase::RecordCommitting
        | TransactionPhase::RecordRenaming
        | TransactionPhase::RecordCommitted => true,
        _ => false,
    }
}

/// The text whose digest names a generation.
pub open spec fn generation_seed(broker: Seq<char>, package: Seq<char>) -> Seq<char> {
    broker + "\0"@ + package
}

/// The name of a generation: the first 32 digits of a digest of both digests.
pub open spec fn generation_name(broker: Seq<char>, package: Seq<char>) -> Seq<u8> {
    utf8(sha256_text(utf8(generation_seed(broker, package)))).take(32)
}

/// The name of the generation with some digests.
pub fn generation_name_bytes(broker: &str, package: &str) -> (r: Vec<u8>)
    ensures
        r@ == generation_name(broker@, package@),
        r@.len() == 32,
        digest_ok(sha256_text(utf8(generation_seed(broker@, package@)))),
{
    let mut seed = broker.to_owned();
    seed.append("\0");
    seed.append(package);
    let digest = sha256_bytes(seed.as_str().as_bytes());
    let bytes = digest.as_str().as_bytes();
    let short = vstd::slice::slice_subrange(bytes, 0, 32);
    assert(short@ =~= generation_name(broker@, package@));
    vstd::slice::slice_to_vec(short)
}

/// The directory of the generation with some digests.
pub open spec fn generation_dir(stable: Seq<u8>, broker: Seq<char>, package: Seq<char>) -> Seq<u8> {
    join(child(stable, "generations"@), generation_name(broker, package))
}

/// The directory of the generation with some digests.
pub fn generation_plan_path(stable_root: &FsPath, broker_digest: &str, package_digest: &str) -> (r:
    FsPath)
    ensures
        r@ == generation_dir(stable_root@, broker_digest@, package_digest@),
        digest_ok(sha256_text(utf8(generation_seed(broker_digest@, package_digest@)))),
{
    let name = generation_name_bytes(broker_digest, package_digest);
    stable_root.join("generations").join_bytes(name.as_slice())
}

/// What is wrong with the paths that a journal names.
pub open spec fn journal_paths_failure(t: InstallTransaction) -> Option<Failure> {
    let label = "transaction path"@;
    or_else(
        stored_path_failure(t.generation@, label),
        or_else(
            stored_path_failure(t.generation_stage@, label),
            or_else(
                stored_path_failure(t.plugin_stage@, label),
                or_else(
                    stored_path_failure(t.helper@, label),
                    or_else(
                        stored_path_failure(t.pointer@, label),
                        or_else(
                            stored_path_failure(t.helper_backup@, label),
                            or_else(
                                stored_path_failure(t.pointer_backup@, label),
                                stored_path_failure(t.pi_config_path@, label),
                            ),
                        ),
                    ),
                ),
            ),
        ),
    )
}

/// A path directly below another one.
pub open spec fn directly_in(p: Seq<u8>, above: Seq<u8>) -> bool {
    parent(p) is Some && same_path(parent(p)->0, above)
}

/// Two paths with the same path above them.
pub open spec fn side_by_side(a: Seq<u8>, b: Seq<u8>) -> bool {
    match (parent(a), parent(b)) {
        (Some(x), Some(y)) => same_path(x, y),
        (None, None) => true,
        _ => false,
    }
}

/// A path whose last name starts with a given text.
pub open spec fn name_starts(p: Seq<u8>, prefix: Seq<char>) -> bool {
    file_name(p) is Some && utf8(prefix).is_prefix_of(file_name(p)->0)
}

/// The places that a journal names are where they must be.
pub open spec fn journal_places_ok(
    t: InstallTransaction,
    stable: Seq<u8>,
    plugin_root: Seq<u8>,
) -> bool {
    let generations = child(stable, "generations"@);
    &&& directly_in(t.generation@, generations)
    &&& file_name(t.generation@) == Some(generation_name(t.broker_digest@, t.pi_package_digest@))
    &&& directly_in(t.generation_stage@, generations)
    &&& name_starts(t.generation_stage@, ".stage-"@)
    &&& directly_in(t.plugin_stage@, plugin_root)
    &&& same_path(t.helper@, helper_path(plugin_root))
    &&& same_path(t.pointer@, pointer_path(plugin_root))
    &&& side_by_side(t.helper_backup@, t.helper@)
    &&& directly_in(t.pointer_backup@, plugin_root)
}

/// What is wrong with the places that a journal names.
pub open spec fn journal_places_failure(
    t: InstallTransaction,
    stable: Seq<u8>,
    plugin_root: Seq<u8>,
    settings: Result<Seq<u8>, Failure>,
) -> Option<Failure> {
    let refused = unrecovered("transaction path relationships are invalid"@);
    if !journal_places_ok(t, stable, plugin_root) {
        refused
    } else {
        match settings {
            Err(f) => Some(f),
            Ok(settings) => if !same_path(t.pi_config_path@, settings) || !digest_ok(
                t.broker_digest@,
            ) || !digest_ok(t.pi_package_digest@) {
                refused
            } else {
                None
            },
        }
    }
}

/// The token of a journal: what follows the fixed start of the plugin stage's
/// name.
pub open spec fn journal_token(t: InstallTransaction) -> Option<Seq<u8>> {
    if name_starts(t.plugin_stage@, ".managed-stage-"@) {
        Some(file_name(t.plugin_stage@)->0.skip(utf8(".managed-stage-"@).len() as int))
    } else {
        None
    }
}

/// A token of 32 lower-case hexadecimal digits.
pub open spec fn token_ok(token: Seq<u8>) -> bool {
    token.len() == 32 && crate::text::lower_hex(token)
}

/// A path whose last name is a fixed text and a token.
pub open spec fn named_with(p: Seq<u8>, prefix: Seq<char>, token: Seq<u8>) -> bool {
    file_name(p) == Some(utf8(prefix) + token)
}

/// What is wrong with the names that carry a journal's token.
pub open spec fn journal_token_failure(t: InstallTransaction) -> Option<Failure> {
    match journal_token(t) {
        None => unrecovered("transaction plugin stage name is invalid"@),
        Some(token) => if !token_ok(token) {
            unrecovered("transaction token is not authenticated"@)
        } else if !named_with(t.generation_stage@, ".stage-"@, token) || !named_with(
            t.helper_backup@,
            ".herdr-a2a-backup-"@,
            token,
        ) || !named_with(t.pointer_backup@, ".stable-bin-backup-"@, token) {
            unrecovered("transaction token relationships are invalid"@)
        } else {
            None
        },
    }
}

/// What is wrong with the first `n` files that a journal plans for its
/// generation.
pub open spec fn planned_files_failure(
    files: Seq<Seq<u8>>,
    generation: Seq<u8>,
    n: int,
) -> Option<Failure>
    decreases n,
{
    if n <= 0 {
        None
    } else {
        or_else(
            planned_files_failure(files, generation, n - 1),
            or_else(
                stored_path_failure(files[n - 1], "transaction generation file"@),
                if !path_under(files[n - 1], generation) || all_parts(files.take(n - 1)).contains(
                    parts(files[n - 1]),
                ) {
                    unrecovered("transaction generation enumeration escapes or is duplicated"@)
                } else {
                    None
                },
            ),
        )
    }
}

/// What is wrong with the files that a journal plans for its generation.
pub open spec fn enumeration_failure(t: InstallTransaction) -> Option<Failure> {
    let files = path_views(t.generation_files@);
    or_else(
        planned_files_failure(files, t.generation@, files.len() as int),
        if !path_set(files).contains(parts(child(t.generation@, "bin/herdr-a2a"@)))
            || !path_set(files).contains(parts(child(t.generation@, "pi/package.json"@))) {
            unrecovered("transaction generation enumeration is incomplete"@)
        } else {
            None
        },
    )
}

/// The mode that a staged file of a generation must have.
pub open spec fn staged_mode(p: Seq<u8>, stage: Seq<u8>) -> u32 {
    if same_path(relative_to(p, stage), utf8("bin/herdr-a2a"@)) {
        0o700
    } else {
        0o600
    }
}

/// The paths of some files.
pub open spec fn stage_paths(files: Seq<StageFileView>) -> Seq<Seq<u8>> {
    files.map_values(|f: StageFileView| f.path)
}

/// Where the staged files of a generation will be.
pub open spec fn published_paths(
    files: Seq<StageFileView>,
    stage: Seq<u8>,
    generation: Seq<u8>,
) -> Seq<Seq<u8>> {
    files.map_values(|f: StageFileView| moved(f.path, stage, generation))
}

/// What is wrong with the snapshot of a staged generation.
pub open spec fn generation_stage_failure(t: InstallTransaction) -> Option<Failure> {
    match opt_snapshot(t.generation_stage_snapshot) {
        None => None,
        Some(s) => {
            let stage = t.generation_stage@;
            or_else(
                snapshot_failure(stage, s),
                if exists|i: int|
                    0 <= i < s.files.len() && (#[trigger] s.files[i]).mode != staged_mode(
                        s.files[i].path,
                        stage,
                    ) {
                    unrecovered("transaction generation stage file mode is invalid"@)
                } else if !t.generation_created || path_set(
                    published_paths(s.files, stage, t.generation@),
                ) != path_set(path_views(t.generation_files@)) || dir_parts(
                    s.directories,
                ).to_set() != tree_dirs(stage, stage_paths(s.files)) {
                    unrecovered(
                        "transaction generation stage inventory is not phase-exact"@,
                    )
                } else {
                    None
                },
            )
        },
    }
}

/// The directories of a plugin stage.
pub open spec fn plugin_stage_dirs(stage: Seq<u8>) -> Set<Seq<PathPart>> {
    path_set(seq![stage, child(stage, "libexec"@)])
}

/// A file with a path, a mode and a digest is in a snapshot.
pub open spec fn stages_file(
    files: Seq<StageFileView>,
    path: Seq<u8>,
    mode: u32,
    digest: Seq<char>,
) -> bool {
    exists|i: int|
        0 <= i < files.len() && same_path((#[trigger] files[i]).path, path) && files[i].mode == mode
            && files[i].sha256 == digest
}

/// A plugin stage that holds the helper, the pointer and nothing else.
pub open spec fn full_plugin_stage(
    s: SnapshotView,
    stage: Seq<u8>,
    broker: Seq<char>,
    binary: Seq<u8>,
) -> bool {
    &&& dir_parts(s.directories).to_set() == plugin_stage_dirs(stage)
    &&& s.files.len() == 2
    &&& stages_file(s.files, child(stage, "libexec/herdr-a2a-dispatch"@), 0o700, broker)
    &&& stages_file(s.files, child(stage, "stable-bin-path"@), 0o600, pointer_digest(binary))
}

/// A plugin stage that holds no files any more.
pub open spec fn residual_plugin_stage(s: SnapshotView, stage: Seq<u8>) -> bool {
    s.files.len() == 0 && dir_parts(s.directories).to_set() == plugin_stage_dirs(stage)
}

/// What is wrong with the snapshot of the plugin stage.
pub open spec fn plugin_stage_failure(t: InstallTransaction) -> Option<Failure> {
    match opt_snapshot(t.plugin_stage_snapshot) {
        None => None,
        Some(s) => {
            let stage = t.plugin_stage@;
            let binary = child(t.generation@, "bin/herdr-a2a"@);
            or_else(
                snapshot_failure(stage, s),
                or_else(
                    path_text_failure(binary),
                    if if plugin_in_progress(t.phase) {
                        full_plugin_stage(s, stage, t.broker_digest@, binary)
                    } else {
                        residual_plugin_stage(s, stage)
                    } {
                        None
                    } else {
                        unrecovered("transaction plugin stage inventory is not phase-exact"@)
                    },
                ),
            )
        },
    }
}

/// The record of before, where the installation of before is still there.
pub open spec fn live_prior(t: InstallTransaction) -> Option<RecordView> {
    match opt_record(t.prior_record) {
        Some(record) if record.state != InstallState::Removed => Some(record),
        _ => None,
    }
}

/// The bytes of a marker are those that a record vouches for. A record of the
/// older schema without authority does not repeat the digest of its marker.
pub open spec fn marker_authenticated(
    prior: RecordView,
    marker: OwnedFileView,
    bytes: Seq<u8>,
) -> bool {
    &&& parent(prior.ownership_path) is Some
    &&& same_path(rescue_marker_file(parent(prior.ownership_path)->0), marker.path)
    &&& marker.mode == 0o600
    &&& digest_ok(marker.sha256)
    &&& sha256_text(bytes) == marker.sha256
    &&& if prior.schema_version == 2 && !prior.purge_authority {
        prior.rescue_marker_digest.len() == 0
    } else {
        digest_ok(prior.rescue_marker_digest) && prior.rescue_marker_digest == marker.sha256
    }
}

/// Whether the bytes of a marker are those that a record vouches for.
pub fn prior_rescue_marker_is_authenticated(
    prior: &OwnershipRecord,
    marker: &OwnedFile,
    marker_bytes: &[u8],
) -> (r: bool)
    ensures
        r == marker_authenticated(prior@, marker@, marker_bytes@),
{
    let Some(stable_root) = prior.ownership_path.parent() else {
        return false;
    };
    let digest = sha256_bytes(marker_bytes);
    if !rescue_marker_path(&stable_root).same(&marker.path) || marker.mode != 0o600
        || !valid_digest(marker.sha256.as_str()) || !text_eq(
        digest.as_str(),
        marker.sha256.as_str(),
    ) {
        return false;
    }
    if prior.schema_version == 2 && !prior.purge_authority {
        prior.rescue_marker_digest.as_str().is_empty()
    } else {
        valid_digest(prior.rescue_marker_digest.as_str()) && text_eq(
            prior.rescue_marker_digest.as_str(),
            marker.sha256.as_str(),
        )
    }
}

/// What is wrong with the kept rescue files, given the record of before.
pub open spec fn kept_rescue_failure(
    prior: RecordView,
    stable: Seq<u8>,
    notice: Seq<u8>,
    marker: Seq<u8>,
    refused: Option<Failure>,
) -> Option<Failure> {
    match owned_for(prior.owned_files, rescue_notice(stable)) {
        None => unrecovered("prior record has no rescue notice"@),
        Some(prior_notice) => match owned_for(prior.owned_files, rescue_marker_file(stable)) {
            None => unrecovered("prior record has no rescue marker"@),
            Some(prior_marker) => if prior_notice.mode != 0o600 || prior_marker.mode != 0o600
                || sha256_text(notice) != prior_notice.sha256 || !marker_authenticated(
                prior,
                prior_marker,
                marker,
            ) {
                refused
            } else {
                None
            },
        },
    }
}

/// Checks kept rescue files against the record of before.
pub fn check_kept_rescue(
    prior: &OwnershipRecord,
    stable_root: &FsPath,
    notice: &[u8],
    marker: &[u8],
    message: &str,
) -> (r: ManagedResult<()>)
    ensures
        failure(r) == kept_rescue_failure(
            prior@,
            stable_root@,
            notice@,
            marker@,
            unrecovered(message@),
        ),
{
    let Some(prior_notice) = record_owned_file(prior, &rescue_notice_path(stable_root)) else {
        return fail("recovery_needed", "prior record has no rescue notice");
    };
    let Some(prior_marker) = record_owned_file(prior, &rescue_marker_path(stable_root)) else {
        return fail("recovery_needed", "prior record has no rescue marker");
    };
    let digest = sha256_bytes(notice);
    if prior_notice.mode != 0o600 || prior_marker.mode != 0o600 || !text_eq(
        digest.as_str(),
        prior_notice.sha256.as_str(),
    ) || !prior_rescue_marker_is_authenticated(prior, prior_marker, marker) {
        return fail("recovery_needed", message);
    }
    Ok(())
}

/// What is wrong with the rescue files that a journal keeps from before.
pub open spec fn prior_rescue_failure(t: InstallTransaction, stable: Seq<u8>) -> Option<Failure> {
    match (t.prior_rescue_notice, t.prior_rescue_marker) {
        (None, None) => if t.phase == TransactionPhase::RescuePublishing && live_prior(
            t,
        ) is Some {
            unrecovered("rescue publication transaction has no prior rescue snapshot"@)
        } else {
            None
        },
        (Some(notice), Some(marker)) => match live_prior(t) {
            None => unrecovered("transaction rescue snapshot has no live prior ownership"@),
            Some(prior) => if !has_new_record(t.phase) || notice@.len() > MAX_EVENT_BYTES
                || marker@.len() > MAX_EVENT_BYTES {
                unrecovered("transaction rescue snapshot is invalid for its phase or size"@)
            } else {
                kept_rescue_failure(
                    prior,
                    stable,
                    notice@,
                    marker@,
                    unrecovered("transaction prior rescue snapshot is not authenticated"@),
                )
            },
        },
        _ => unrecovered("transaction prior rescue snapshot is incomplete"@),
    }
}

/// The snapshot of the staged generation is there exactly when it must be.
pub open spec fn generation_snapshot_allowed(t: InstallTransaction) -> bool {
    if t.phase == TransactionPhase::Intent {
        t.generation_stage_snapshot is None
    } else if t.generation_created {
        t.phase == TransactionPhase::GenerationPublishing || t.generation_stage_snapshot is Some
    } else {
        t.generation_stage_snapshot is None
    }
}

/// What is wrong with the phase of a journal and what it has and has not.
pub open spec fn phase_shape_failure(t: InstallTransaction, stable: Seq<u8>) -> Option<Failure> {
    if (t.new_record is Some) != has_new_record(t.phase) {
        unrecovered("transaction phase and new record are inconsistent"@)
    } else {
        or_else(
            prior_rescue_failure(t, stable),
            if before_plugin(t.phase) && t.plugin_stage_snapshot is Some {
                unrecovered("transaction phase and plugin stage snapshot are inconsistent"@)
            } else if !generation_snapshot_allowed(t) {
                unrecovered(
                    "transaction generation snapshot is inconsistent with its phase and provenance"@,
                )
            } else {
                None
            },
        )
    }
}

/// The paths of the entries of a record that lie at or below a directory.
pub open spec fn owned_below(files: Seq<OwnedFileView>, base: Seq<u8>) -> Seq<Seq<u8>> {
    files.filter(|f: OwnedFileView| path_under(f.path, base)).map_values(
        |f: OwnedFileView| f.path,
    )
}

/// The position of the first file at a path, or the number of files.
pub open spec fn stage_file_at(files: Seq<StageFileView>, path: Seq<u8>) -> int
    decreases files.len(),
{
    if files.len() == 0 || same_path(files[0].path, path) {
        0
    } else {
        1 + stage_file_at(files.skip(1), path)
    }
}

/// The snapshot has the mode and the digest that the record has for a path.
pub open spec fn metadata_matches(record: RecordView, s: SnapshotView, path: Seq<u8>) -> bool {
    let owned = owned_for(record.owned_files, path)->0;
    let staged = s.files[stage_file_at(s.files, path)];
    staged.mode == owned.mode && staged.sha256 == owned.sha256
}

/// What is wrong with the snapshot of the generation of before.
pub open spec fn prior_generation_failure(record: RecordView, s: SnapshotView) -> Option<Failure> {
    let generation = parent(record.pi_package_source)->0;
    let expected = owned_below(record.owned_files, generation);
    or_else(
        snapshot_failure(generation, s),
        if path_set(stage_paths(s.files)) != path_set(expected) {
            unrecovered("prior generation snapshot file inventory is not exact"@)
        } else if exists|i: int|
            0 <= i < expected.len() && !metadata_matches(record, s, #[trigger] expected[i]) {
            unrecovered("prior generation snapshot file metadata is not exact"@)
        } else if dir_parts(s.directories).to_set() != tree_dirs(generation, expected) {
            unrecovered("prior generation snapshot directory inventory is not exact"@)
        } else {
            None
        },
    )
}

/// What is wrong with what a journal keeps of the installation of before.
pub open spec fn prior_state_failure(
    t: InstallTransaction,
    stable: Seq<u8>,
    plugin_root: Seq<u8>,
    settings: Result<Seq<u8>, Failure>,
) -> Option<Failure> {
    match opt_record(t.prior_record) {
        None => if t.prior_helper_present || t.prior_pointer_present
            || t.prior_helper_snapshot is Some || t.prior_pointer_snapshot is Some
            || t.prior_generation_snapshot is Some {
            unrecovered("first-install transaction claims prior plugin assets"@)
        } else {
            None
        },
        Some(record) => or_else(
            record_failure(record, stable, plugin_root, settings),
            if record.state == InstallState::Removed {
                if t.prior_generation_snapshot is Some || t.prior_helper_present
                    || t.prior_pointer_present || t.prior_helper_snapshot is Some
                    || t.prior_pointer_snapshot is Some || t.prior_owned_pi_entry is Some {
                    unrecovered("removed prior ownership claims live assets"@)
                } else {
                    None
                }
            } else {
                match opt_snapshot(t.prior_generation_snapshot) {
                    None => unrecovered(
                        "transaction has no authenticated prior generation snapshot"@,
                    ),
                    Some(s) => or_else(
                        prior_generation_failure(record, s),
                        if !t.prior_helper_present || !t.prior_pointer_present
                            || owned_snapshot_failure(
                            opt_file(t.prior_helper_snapshot),
                            t.helper@,
                            0o700,
                            record.broker_digest,
                        ) is Some || owned_snapshot_failure(
                            opt_file(t.prior_pointer_snapshot),
                            t.pointer@,
                            0o600,
                            match owned_for(record.owned_files, t.pointer@) {
                                Some(owned) => owned.sha256,
                                None => Seq::empty(),
                            },
                        ) is Some || !opt_same_json(
                            opt_json(t.prior_owned_pi_entry),
                            record.pi_package_entry,
                        ) {
                            unrecovered("transaction prior ownership relationships are invalid"@)
                        } else {
                            None
                        },
                    ),
                }
            },
        ),
    }
}

/// The phases in which the published plugin files are known.
pub open spec fn has_new_snapshots(phase: TransactionPhase) -> bool {
    !before_plugin(phase) && !plugin_in_progress(phase)
}

/// What is wrong with what a journal keeps of the published plugin files.
pub open spec fn new_snapshots_failure(t: InstallTransaction) -> Option<Failure> {
    let required = has_new_snapshots(t.phase);
    let binary = child(t.generation@, "bin/herdr-a2a"@);
    if (t.new_helper_snapshot is Some) != required || (t.new_pointer_snapshot is Some) != required
        || (required && (owned_snapshot_failure(
        opt_file(t.new_helper_snapshot),
        t.helper@,
        0o700,
        t.broker_digest@,
    ) is Some || owned_snapshot_failure(
        opt_file(t.new_pointer_snapshot),
        t.pointer@,
        0o600,
        pointer_digest(binary),
    ) is Some)) {
        unrecovered("transaction plugin inode snapshots are inconsistent"@)
    } else {
        None
    }
}

/// The values that equal one.
pub open spec fn equal_to(wanted: JsonView) -> spec_fn(JsonView) -> bool {
    |entry: JsonView| same_json(entry, wanted)
}

/// How often a value stands in a list.
pub open spec fn occurrences(entries: Seq<JsonView>, wanted: JsonView) -> nat {
    entries.filter(equal_to(wanted)).len()
}

/// What is wrong with the owned entry of before.
pub open spec fn prior_entry_failure(t: InstallTransaction, plugin_root: Seq<u8>) -> Option<
    Failure,
> {
    match opt_json(t.prior_owned_pi_entry) {
        None => None,
        Some(owned) => {
            let refused = unrecovered("transaction prior Pi ownership is invalid"@);
            if entry_source(owned) is None {
                unrecovered("transaction prior Pi entry has no source"@)
            } else if occurrences(json_views(t.prior_pi_entries@), owned) != 1 {
                refused
            } else if t.prior_record is Some {
                None
            } else {
                or_else(
                    path_text_failure(legacy_package(plugin_root)),
                    if owned == JsonView::Text(decode_utf8(legacy_package(plugin_root))) {
                        None
                    } else {
                        refused
                    },
                )
            }
        },
    }
}

/// What is wrong with the entries of Pi that a journal keeps.
pub open spec fn journal_entries_failure(t: InstallTransaction, plugin_root: Seq<u8>) -> Option<
    Failure,
> {
    or_else(
        prior_entry_failure(t, plugin_root),
        match entry_allowed(t.new_pi_entry@, t.pi_config_path@, child(t.generation@, "pi"@)) {
            Err(f) => Some(f),
            Ok(allowed) => if !allowed {
                unrecovered("transaction new Pi entry does not name its generation"@)
            } else {
                sources_failure(
                    json_views(t.prior_pi_entries@),
                    "recovery_needed"@,
                    "transaction prior Pi entry is invalid"@,
                    "transaction prior Pi source contains a line break"@,
                )
            },
        },
    )
}

/// The new record describes what the journal plans.
pub open spec fn new_record_planned(t: InstallTransaction, record: RecordView) -> bool {
    &&& record.broker_digest == t.broker_digest@
    &&& record.pi_package_digest == t.pi_package_digest@
    &&& same_path(record.stable_binary, child(t.generation@, "bin/herdr-a2a"@))
    &&& same_path(record.pi_package_source, child(t.generation@, "pi"@))
    &&& same_json(record.pi_package_entry, t.new_pi_entry@)
    &&& path_set(owned_below(record.owned_files, t.generation@)) == path_set(
        path_views(t.generation_files@),
    )
}

/// One end of the journal is an authoritative record of the older schema.
pub open spec fn has_authoritative_v2(t: InstallTransaction) -> bool {
    ||| t.prior_record is Some && t.prior_record->0.schema_version == 2
        && t.prior_record->0.purge_authority
    ||| t.new_record is Some && t.new_record->0.schema_version == 2
        && t.new_record->0.purge_authority
}

/// What is wrong with the new record of a journal.
pub open spec fn new_record_failure(
    t: InstallTransaction,
    stable: Seq<u8>,
    plugin_root: Seq<u8>,
    settings: Result<Seq<u8>, Failure>,
) -> Option<Failure> {
    or_else(
        match opt_record(t.new_record) {
            None => None,
            Some(record) => or_else(
                record_failure(record, stable, plugin_root, settings),
                if new_record_planned(t, record) {
                    None
                } else {
                    unrecovered("transaction new record does not match its planned generation"@)
                },
            ),
        },
        if has_authoritative_v2(t) && !(t.prior_record is Some && t.new_record is Some
            && exact_v2_to_v3(t.prior_record->0@, t.new_record->0@)) {
            unrecovered(
                "authoritative schema v2 transaction records are not an exact schema v3 migration"@,
            )
        } else {
            None
        },
    )
}

/// What is wrong with a journal. The plugin root is where the plugin must be and
/// whether that is a private directory; the settings path is where the settings
/// of Pi must be.
pub open spec fn journal_failure(
    t: InstallTransaction,
    stable: Seq<u8>,
    plugin_root: Result<Seq<u8>, Failure>,
    plugin_root_check: Option<Failure>,
    settings: Result<Seq<u8>, Failure>,
) -> Option<Failure> {
    match plugin_root {
        Err(f) => Some(f),
        Ok(root) => or_else(
            plugin_root_check,
            or_else(
                journal_paths_failure(t),
                or_else(
                    journal_places_failure(t, stable, root, settings),
                    or_else(
                        journal_token_failure(t),
                        or_else(
                            enumeration_failure(t),
                            or_else(
                                generation_stage_failure(t),
                                or_else(
                                    plugin_stage_failure(t),
                                    or_else(
                                        phase_shape_failure(t, stable),
                                        or_else(
                                            path_text_failure(
                                                child(t.generation@, "bin/herdr-a2a"@),
                                            ),
                                            or_else(
                                                prior_state_failure(t, stable, root, settings),
                                                or_else(
                                                    new_snapshots_failure(t),
                                                    or_else(
                                                        journal_entries_failure(t, root),
                                                        new_record_failure(
                                                            t,
                                                            stable,
                                                            root,
                                                            settings,
                                                        ),
                                                    ),
                                                ),
                                            ),
                                        ),
                                    ),
                                ),
                            ),
                        ),
                    ),
                ),
            ),
        ),
    }
}

fn check_journal_paths(t: &InstallTransaction) -> (r: ManagedResult<()>)
    ensures
        failure(r) == journal_paths_failure(*t),
{
    check_stored_path(&t.generation, "transaction path")?;
    check_stored_path(&t.generation_stage, "transaction path")?;
    check_stored_path(&t.plugin_stage, "transaction path")?;
    check_stored_path(&t.helper, "transaction path")?;
    check_stored_path(&t.pointer, "transaction path")?;
    check_stored_path(&t.helper_backup, "transaction path")?;
    check_stored_path(&t.pointer_backup, "transaction path")?;
    check_stored_path(&t.pi_config_path, "transaction path")
}

/// Whether a path lies directly below another one.
pub fn is_directly_in(p: &FsPath, above: &FsPath) -> (r: bool)
    ensures
        r == directly_in(p@, above@),
{
    match p.parent() {
        Some(found) => found.same(above),
        None => false,
    }
}

fn are_side_by_side(a: &FsPath, b: &FsPath) -> (r: bool)
    ensures
        r == side_by_side(a@, b@),
{
    match (a.parent(), b.parent()) {
        (Some(x), Some(y)) => x.same(&y),
        (None, None) => true,
        _ => false,
    }
}

/// What follows a fixed start of the last name of a path.
pub fn name_after(p: &FsPath, prefix: &str) -> (r: Option<Vec<u8>>)
    ensures
        r is Some == name_starts(p@, prefix@),
        r is Some ==> r->0@ == file_name(p@)->0.skip(utf8(prefix@).len() as int),
{
    let Some(name) = p.file_name() else {
        return None;
    };
    let start = prefix.as_bytes();
    if start.len() > name.len() {
        return None;
    }
    let head = vstd::slice::slice_subrange(name.as_slice(), 0, start.len());
    if !bytes_eq(head, start) {
        proof {
            if utf8(prefix@).is_prefix_of(name@) {
                assert(name@.subrange(0, start@.len() as int) =~= start@);
            }
        }
        return None;
    }
    assert(utf8(prefix@).is_prefix_of(name@)) by {
        assert(name@.subrange(0, start@.len() as int) =~= start@);
    }
    let rest = vstd::slice::slice_subrange(name.as_slice(), start.len(), name.len());
    assert(rest@ =~= name@.skip(start@.len() as int));
    Some(vstd::slice::slice_to_vec(rest))
}

fn is_named_with(p: &FsPath, prefix: &str, token: &Vec<u8>) -> (r: bool)
    ensures
        r == named_with(p@, prefix@, token@),
{
    let wanted = FsPath::from_text(prefix);
    let mut bytes = wanted.bytes;
    let mut i: usize = 0;
    let ghost head = bytes@;
    while i < token.len()
        invariant
            i <= token.len(),
            bytes@ == head + token@.take(i as int),
        decreases token.len() - i,
    {
        bytes.push(token[i]);
        i += 1;
        assert(bytes@ =~= head + token@.take(i as int));
    }
    assert(bytes@ =~= utf8(prefix@) + token@);
    match p.file_name() {
        Some(name) => bytes_eq(name.as_slice(), bytes.as_slice()),
        None => false,
    }
}

fn journal_places_are_ok(t: &InstallTransaction, stable_root: &FsPath, plugin_root: &FsPath) -> (r:
    bool)
    ensures
        r == journal_places_ok(*t, stable_root@, plugin_root@),
{
    let generations = stable_root.join("generations");
    let name = generation_name_bytes(t.broker_digest.as_str(), t.pi_package_digest.as_str());
    let named = match t.generation.file_name() {
        Some(found) => bytes_eq(found.as_slice(), name.as_slice()),
        None => false,
    };
    is_directly_in(&t.generation, &generations) && named && is_directly_in(
        &t.generation_stage,
        &generations,
    ) && name_after(&t.generation_stage, ".stage-").is_some() && is_directly_in(
        &t.plugin_stage,
        plugin_root,
    ) && t.helper.same(&plugin_root.join("libexec/herdr-a2a-dispatch")) && t.pointer.same(
        &plugin_root.join("stable-bin-path"),
    ) && are_side_by_side(&t.helper_backup, &t.helper) && is_directly_in(
        &t.pointer_backup,
        plugin_root,
    )
}

fn check_journal_places(
    t: &InstallTransaction,
    stable_root: &FsPath,
    plugin_root: &FsPath,
    pi_settings: &ManagedResult<FsPath>,
) -> (r: ManagedResult<()>)
    ensures
        failure(r) == journal_places_failure(
            *t,
            stable_root@,
            plugin_root@,
            outcome(*pi_settings),
        ),
{
    if !journal_places_are_ok(t, stable_root, plugin_root) {
        return fail("recovery_needed", "transaction path relationships are invalid");
    }
    match pi_settings {
        Err(e) => Err(e.copy()),
        Ok(settings) => {
            if !t.pi_config_path.same(settings) || !valid_digest(t.broker_digest.as_str())
                || !valid_digest(t.pi_package_digest.as_str()) {
                return fail("recovery_needed", "transaction path relationships are invalid");
            }
            Ok(())
        },
    }
}

fn check_journal_token(t: &InstallTransaction) -> (r: ManagedResult<()>)
    ensures
        failure(r) == journal_token_failure(*t),
{
    let Some(token) = name_after(&t.plugin_stage, ".managed-stage-") else {
        return fail("recovery_needed", "transaction plugin stage name is invalid");
    };
    if token.len() != 32 || !crate::text::all_lower_hex(token.as_slice()) {
        return fail("recovery_needed", "transaction token is not authenticated");
    }
    if !is_named_with(&t.generation_stage, ".stage-", &token) || !is_named_with(
        &t.helper_backup,
        ".herdr-a2a-backup-",
        &token,
    ) || !is_named_with(&t.pointer_backup, ".stable-bin-backup-", &token) {
        return fail("recovery_needed", "transaction token relationships are invalid");
    }
    Ok(())
}

proof fn lemma_planned_failure_stays(files: Seq<Seq<u8>>, generation: Seq<u8>, n: int, m: int)
    requires
        0 <= n <= m,
        planned_files_failure(files, generation, n) is Some,
    ensures
        planned_files_failure(files, generation, m) == planned_files_failure(
            files,
            generation,
            n,
        ),
    decreases m - n,
{
    if n < m {
        lemma_planned_failure_stays(files, generation, n, m - 1);
    }
}

fn check_enumeration(t: &InstallTransaction) -> (r: ManagedResult<()>)
    ensures
        failure(r) == enumeration_failure(*t),
{
    let ghost files = path_views(t.generation_files@);
    let mut seen = PathSet::new();
    let mut i: usize = 0;
    assert(seen@ =~= all_parts(files.take(0)));
    while i < t.generation_files.len()
        invariant
            i <= t.generation_files.len(),
            files == path_views(t.generation_files@),
            seen@ == all_parts(files.take(i as int)),
            planned_files_failure(files, t.generation@, i as int) is None,
        decreases t.generation_files.len() - i,
    {
        let path = &t.generation_files[i];
        proof {
            assert(files[i as int] == path@);
            assert(all_parts(files.take(i + 1)) =~= all_parts(files.take(i as int)).push(
                parts(path@),
            ));
            if planned_files_failure(files, t.generation@, i + 1) is Some {
                lemma_planned_failure_stays(files, t.generation@, i + 1, files.len() as int);
            }
        }
        check_stored_path(path, "transaction generation file")?;
        if !path.starts_with(&t.generation) || !seen.insert(path) {
            return fail(
                "recovery_needed",
                "transaction generation enumeration escapes or is duplicated",
            );
        }
        i += 1;
    }
    assert(files.take(i as int) =~= files);
    if !seen.contains(&t.generation.join("bin/herdr-a2a")) || !seen.contains(
        &t.generation.join("pi/package.json"),
    ) {
        return fail("recovery_needed", "transaction generation enumeration is incomplete");
    }
    Ok(())
}

fn modes_are_staged(s: &StageSnapshot, stage: &FsPath) -> (r: bool)
    requires
        forall|i: int| 0 <= i < s@.files.len() ==> path_under(#[trigger] s@.files[i].path, stage@),
    ensures
        r == !exists|i: int|
            0 <= i < s@.files.len() && (#[trigger] s@.files[i]).mode != staged_mode(
                s@.files[i].path,
                stage@,
            ),
{
    let binary = FsPath::from_text("bin/herdr-a2a");
    let mut i: usize = 0;
    while i < s.files.len()
        invariant
            i <= s.files.len(),
            binary@ == utf8("bin/herdr-a2a"@),
            forall|k: int|
                0 <= k < s@.files.len() ==> path_under(#[trigger] s@.files[k].path, stage@),
            forall|k: int|
                0 <= k < i ==> (#[trigger] s@.files[k]).mode == staged_mode(
                    s@.files[k].path,
                    stage@,
                ),
        decreases s.files.len() - i,
    {
        assert(s@.files[i as int] == s.files@[i as int]@);
        assert(path_under(s@.files[i as int].path, stage@));
        let expected: u32 = match strip_prefix(&s.files[i].path, stage) {
            Some(relative) => if relative.same(&binary) {
                0o700
            } else {
                0o600
            },
            None => 0o600,
        };
        if s.files[i].mode != expected {
            assert(s@.files[i as int].mode != staged_mode(s@.files[i as int].path, stage@));
            return false;
        }
        i += 1;
    }
    true
}

/// Every entry of an accepted snapshot lies at or below its root.
pub proof fn lemma_accepted_snapshot_is_below(root: Seq<u8>, s: SnapshotView)
    requires
        snapshot_failure(root, s) is None,
    ensures
        crate::snapshot::all_under(s, root),
{
    lemma_dirs_below(s.directories, root);
    lemma_files_below(s.files, s.directories, root);
}

proof fn lemma_dirs_below(dirs: Seq<crate::snapshot::DirView>, root: Seq<u8>)
    requires
        crate::snapshot::dirs_failure(dirs, root) is None,
    ensures
        forall|i: int| 0 <= i < dirs.len() ==> path_under((#[trigger] dirs[i]).path, root),
    decreases dirs.len(),
{
    if dirs.len() > 0 {
        lemma_dirs_below(dirs.drop_last(), root);
        assert forall|i: int| 0 <= i < dirs.len() implies path_under(
            (#[trigger] dirs[i]).path,
            root,
        ) by {
            if i < dirs.len() - 1 {
                assert(dirs.drop_last()[i] == dirs[i]);
            }
        }
    }
}

proof fn lemma_files_below(
    files: Seq<StageFileView>,
    dirs: Seq<crate::snapshot::DirView>,
    root: Seq<u8>,
)
    requires
        crate::snapshot::files_failure(files, dirs, root) is None,
    ensures
        forall|i: int| 0 <= i < files.len() ==> path_under((#[trigger] files[i]).path, root),
    decreases files.len(),
{
    if files.len() > 0 {
        lemma_files_below(files.drop_last(), dirs, root);
        assert forall|i: int| 0 <= i < files.len() implies path_under(
            (#[trigger] files[i]).path,
            root,
        ) by {
            if i < files.len() - 1 {
                assert(files.drop_last()[i] == files[i]);
            }
        }
    }
}

fn collect_published(s: &StageSnapshot, stage: &FsPath, generation: &FsPath) -> (r: PathSet)
    requires
        forall|i: int| 0 <= i < s@.files.len() ==> path_under(#[trigger] s@.files[i].path, stage@),
    ensures
        r@.to_set() == path_set(published_paths(s@.files, stage@, generation@)),
{
    let ghost all = published_paths(s@.files, stage@, generation@);
    let mut out = PathSet::new();
    let mut i: usize = 0;
    assert(all_parts(all.take(0)) =~= Seq::<Seq<PathPart>>::empty());
    while i < s.files.len()
        invariant
            i <= s.files.len(),
            all == published_paths(s@.files, stage@, generation@),
            forall|k: int|
                0 <= k < s@.files.len() ==> path_under(#[trigger] s@.files[k].path, stage@),
            out@.to_set() == path_set(all.take(i as int)),
        decreases s.files.len() - i,
    {
        assert(s@.files[i as int] == s.files@[i as int]@);
        assert(path_under(s@.files[i as int].path, stage@));
        proof {
            lemma_path_set_push(all.take(i as int), all[i as int]);
            assert(all.take(i + 1) =~= all.take(i as int).push(all[i as int]));
        }
        if let Some(relative) = strip_prefix(&s.files[i].path, stage) {
            let path = generation.join_bytes(relative.bytes.as_slice());
            let _ = out.insert(&path);
        }
        i += 1;
    }
    assert(all.take(i as int) =~= all);
    out
}

proof fn lemma_dir_locations(dirs: Seq<crate::snapshot::OwnedDirectory>)
    ensures
        path_set(locations(dirs)) == dir_parts(crate::snapshot::dir_views(dirs)).to_set(),
{
    assert(all_parts(locations(dirs)) =~= dir_parts(crate::snapshot::dir_views(dirs)));
}

fn check_generation_stage(t: &InstallTransaction) -> (r: ManagedResult<()>)
    ensures
        failure(r) == generation_stage_failure(*t),
{
    let Some(s) = &t.generation_stage_snapshot else {
        return Ok(());
    };
    validate_stage_snapshot_semantics(&t.generation_stage, s)?;
    proof {
        lemma_accepted_snapshot_is_below(t.generation_stage@, s@);
    }
    if !modes_are_staged(s, &t.generation_stage) {
        return fail("recovery_needed", "transaction generation stage file mode is invalid");
    }
    let published = collect_published(s, &t.generation_stage, &t.generation);
    let planned = collect_paths(&t.generation_files);
    let directories = collect_paths(&s.directories);
    let expected = tree_directories(&t.generation_stage, &s.files);
    proof {
        lemma_dir_locations(s.directories@);
        assert(locations(t.generation_files@) =~= path_views(t.generation_files@));
        assert(locations(s.files@) =~= stage_paths(s@.files));
    }
    if !t.generation_created || !published.same_members(&planned) || !directories.same_members(
        &expected,
    ) {
        return fail(
            "recovery_needed",
            "transaction generation stage inventory is not phase-exact",
        );
    }
    Ok(())
}

fn is_staged_file(s: &StageSnapshot, path: &FsPath, mode: u32, digest: &str) -> (r: bool)
    ensures
        r == stages_file(s@.files, path@, mode, digest@),
{
    let mut i: usize = 0;
    while i < s.files.len()
        invariant
            i <= s.files.len(),
            forall|k: int|
                0 <= k < i ==> !(same_path((#[trigger] s@.files[k]).path, path@) && s@.files[k].mode
                    == mode && s@.files[k].sha256 == digest@),
        decreases s.files.len() - i,
    {
        assert(s@.files[i as int] == s.files@[i as int]@);
        if s.files[i].mode == mode && s.files[i].path.same(path) && text_eq(
            s.files[i].sha256.as_str(),
            digest,
        ) {
            return true;
        }
        i += 1;
    }
    false
}

fn check_plugin_stage(t: &InstallTransaction) -> (r: ManagedResult<()>)
    ensures
        failure(r) == plugin_stage_failure(*t),
{
    let Some(s) = &t.plugin_stage_snapshot else {
        return Ok(());
    };
    validate_stage_snapshot_semantics(&t.plugin_stage, s)?;
    let pointer = expected_pointer_digest(&t.generation.join("bin/herdr-a2a"))?;
    let directories = collect_paths(&s.directories);
    let mut expected = PathSet::new();
    let _ = expected.insert(&t.plugin_stage);
    let _ = expected.insert(&t.plugin_stage.join("libexec"));
    proof {
        lemma_dir_locations(s.directories@);
        let stage = t.plugin_stage@;
        let inner = child(stage, "libexec"@);
        lemma_path_set_push(Seq::empty(), stage);
        lemma_path_set_push(Seq::empty().push(stage), inner);
        assert(seq![stage, inner] =~= Seq::empty().push(stage).push(inner));
        assert(path_set(Seq::empty()) =~= Set::empty()) by {
            assert(all_parts(Seq::empty()).len() == 0);
        }
        assert(Seq::<Seq<PathPart>>::empty().to_set() =~= Set::empty());
        assert(expected@.to_set() == plugin_stage_dirs(stage));
        assert(s@.files.len() == s.files@.len());
    }
    let placed = directories.same_members(&expected);
    let valid = if is_plugin_in_progress(t.phase) {
        placed && s.files.len() == 2 && is_staged_file(
            s,
            &t.plugin_stage.join("libexec/herdr-a2a-dispatch"),
            0o700,
            t.broker_digest.as_str(),
        ) && is_staged_file(
            s,
            &t.plugin_stage.join("stable-bin-path"),
            0o600,
            pointer.as_str(),
        )
    } else {
        s.files.len() == 0 && placed
    };
    if !valid {
        return fail("recovery_needed", "transaction plugin stage inventory is not phase-exact");
    }
    Ok(())
}

/// The record of before, where the installation of before is still there.
pub fn live_prior_record<'a>(t: &'a InstallTransaction) -> (r: Option<&'a OwnershipRecord>)
    ensures
        r is Some == live_prior(*t) is Some,
        r is Some ==> Some(r->0@) == live_prior(*t) && t.prior_record == Some(*r->0),
{
    match &t.prior_record {
        Some(record) => if record.state != InstallState::Removed {
            Some(record)
        } else {
            None
        },
        None => None,
    }
}

fn check_prior_rescue(t: &InstallTransaction, stable_root: &FsPath) -> (r: ManagedResult<()>)
    ensures
        failure(r) == prior_rescue_failure(*t, stable_root@),
{
    match (&t.prior_rescue_notice, &t.prior_rescue_marker) {
        (None, None) => {
            if t.phase == TransactionPhase::RescuePublishing && live_prior_record(t).is_some() {
                return fail(
                    "recovery_needed",
                    "rescue publication transaction has no prior rescue snapshot",
                );
            }
            Ok(())
        },
        (Some(notice), Some(marker)) => {
            let Some(prior) = live_prior_record(t) else {
                return fail(
                    "recovery_needed",
                    "transaction rescue snapshot has no live prior ownership",
                );
            };
            if !phase_requires_new_record(t.phase) || notice.len() > MAX_EVENT_BYTES
                || marker.len() > MAX_EVENT_BYTES {
                return fail(
                    "recovery_needed",
                    "transaction rescue snapshot is invalid for its phase or size",
                );
            }
            check_kept_rescue(
                prior,
                stable_root,
                notice.as_slice(),
                marker.as_slice(),
                "transaction prior rescue snapshot is not authenticated",
            )
        },
        _ => fail("recovery_needed", "transaction prior rescue snapshot is incomplete"),
    }
}

fn check_phase_shape(t: &InstallTransaction, stable_root: &FsPath) -> (r: ManagedResult<()>)
    ensures
        failure(r) == phase_shape_failure(*t, stable_root@),
{
    if t.new_record.is_some() != phase_requires_new_record(t.phase) {
        return fail("recovery_needed", "transaction phase and new record are inconsistent");
    }
    check_prior_rescue(t, stable_root)?;
    if is_before_plugin(t.phase) && t.plugin_stage_snapshot.is_some() {
        return fail(
            "recovery_needed",
            "transaction phase and plugin stage snapshot are inconsistent",
        );
    }
    let allowed = if t.phase == TransactionPhase::Intent {
        t.generation_stage_snapshot.is_none()
    } else if t.generation_created {
        t.phase == TransactionPhase::GenerationPublishing || t.generation_stage_snapshot.is_some()
    } else {
        t.generation_stage_snapshot.is_none()
    };
    if !allowed {
        return fail(
            "recovery_needed",
            "transaction generation snapshot is inconsistent with its phase and provenance",
        );
    }
    Ok(())
}

/// The paths of the entries of a record that lie at or below a directory.
pub fn owned_paths_below(files: &Vec<OwnedFile>, base: &FsPath) -> (r: Vec<FsPath>)
    ensures
        path_views(r@) == owned_below(crate::record::owned_views(files@), base@),
{
    let ghost views = crate::record::owned_views(files@);
    let ghost keep = |f: OwnedFileView| path_under(f.path, base@);
    let mut out: Vec<FsPath> = Vec::new();
    let mut i: usize = 0;
    proof {
        reveal(Seq::filter);
        assert(views.take(0).filter(keep) =~= Seq::empty());
        assert(path_views(out@) =~= views.take(0).filter(keep).map_values(
            |f: OwnedFileView| f.path,
        ));
    }
    while i < files.len()
        invariant
            i <= files.len(),
            views == crate::record::owned_views(files@),
            keep == (|f: OwnedFileView| path_under(f.path, base@)),
            path_views(out@) == views.take(i as int).filter(keep).map_values(
                |f: OwnedFileView| f.path,
            ),
        decreases files.len() - i,
    {
        let ghost before = out@;
        let ghost so_far = views.take(i as int).filter(keep);
        proof {
            crate::pi::lemma_filter_next(views, keep, i as int);
            assert(views[i as int] == files@[i as int]@);
        }
        if files[i].path.starts_with(base) {
            out.push(files[i].path.copy());
            proof {
                let grown = so_far.push(views[i as int]);
                assert(grown.map_values(|f: OwnedFileView| f.path) =~= so_far.map_values(
                    |f: OwnedFileView| f.path,
                ).push(views[i as int].path));
                assert(path_views(out@) =~= path_views(before).push(views[i as int].path));
            }
        }
        i += 1;
    }
    assert(views.take(i as int) =~= views);
    out
}

fn find_stage_file(files: &Vec<OwnedStageFile>, path: &FsPath) -> (r: usize)
    ensures
        r == stage_file_at(crate::snapshot::file_views(files@), path@),
        r <= files.len(),
{
    let ghost views = crate::snapshot::file_views(files@);
    let mut i: usize = 0;
    assert(views.skip(0) =~= views);
    while i < files.len()
        invariant
            i <= files.len(),
            views == crate::snapshot::file_views(files@),
            stage_file_at(views, path@) == i + stage_file_at(views.skip(i as int), path@),
        decreases files.len() - i,
    {
        assert(views.skip(i as int)[0] == files@[i as int]@);
        assert(views.skip(i as int).skip(1) =~= views.skip(i + 1));
        if files[i].path.same(path) {
            return i;
        }
        i += 1;
    }
    i
}

proof fn lemma_stage_file_found(files: Seq<StageFileView>, path: Seq<u8>)
    requires
        path_set(stage_paths(files)).contains(parts(path)),
    ensures
        0 <= stage_file_at(files, path) < files.len(),
    decreases files.len(),
{
    let ps = all_parts(stage_paths(files));
    let k = choose|k: int| 0 <= k < ps.len() && ps[k] == parts(path);
    if files.len() == 0 {
    } else if same_path(files[0].path, path) {
    } else {
        assert(k > 0);
        let rest = all_parts(stage_paths(files.skip(1)));
        assert(rest[k - 1] == parts(path));
        assert(rest.contains(parts(path)));
        lemma_stage_file_found(files.skip(1), path);
    }
}

proof fn lemma_owned_found(files: Seq<OwnedFileView>, base: Seq<u8>, i: int)
    requires
        0 <= i < owned_below(files, base).len(),
    ensures
        owned_for(files, owned_below(files, base)[i]) is Some,
{
    let keep = |f: OwnedFileView| path_under(f.path, base);
    let kept = files.filter(keep);
    assert(owned_below(files, base)[i] == kept[i].path);
    assert(files.contains(kept[i])) by {
        lemma_filter_members(files, keep, i);
    }
    let k = choose|k: int| 0 <= k < files.len() && files[k] == kept[i];
    assert(same_path(files[k].path, kept[i].path));
}

/// What a filter keeps was there before.
pub proof fn lemma_filter_members<T>(s: Seq<T>, p: spec_fn(T) -> bool, i: int)
    requires
        0 <= i < s.filter(p).len(),
    ensures
        s.contains(s.filter(p)[i]),
        p(s.filter(p)[i]),
    decreases s.len(),
{
    reveal(Seq::filter);
    if s.len() > 0 {
        let rest = s.drop_last();
        let kept = rest.filter(p);
        if i < kept.len() {
            lemma_filter_members(rest, p, i);
            let k = choose|k: int| 0 <= k < rest.len() && rest[k] == kept[i];
            assert(s[k] == kept[i]);
        } else {
            assert(s[s.len() - 1] == s.last());
        }
    }
}

/// Checks the snapshot of the generation that a record describes.
pub fn validate_prior_generation_snapshot_semantics(
    record: &OwnershipRecord,
    snapshot: &StageSnapshot,
) -> (r: ManagedResult<()>)
    requires
        parent(record.pi_package_source@) is Some,
    ensures
        failure(r) == prior_generation_failure(record@, snapshot@),
{
    let generation = match record.pi_package_source.parent() {
        Some(generation) => generation,
        None => {
            return fail("recovery_needed", "prior generation snapshot file inventory is not exact");
        },
    };
    validate_stage_snapshot_semantics(&generation, snapshot)?;
    let expected = owned_paths_below(&record.owned_files, &generation);
    let ghost wanted = owned_below(record@.owned_files, generation@);
    let found_set = collect_paths(&snapshot.files);
    let expected_set = collect_paths(&expected);
    proof {
        assert(locations(snapshot.files@) =~= stage_paths(snapshot@.files));
        assert(locations(expected@) =~= path_views(expected@));
    }
    if !found_set.same_members(&expected_set) {
        return fail("recovery_needed", "prior generation snapshot file inventory is not exact");
    }
    let mut i: usize = 0;
    while i < expected.len()
        invariant
            i <= expected.len(),
            parent(record.pi_package_source@) == Some(generation@),
            path_views(expected@) == wanted,
            wanted == owned_below(record@.owned_files, generation@),
            snapshot_failure(generation@, snapshot@) is None,
            path_set(stage_paths(snapshot@.files)) == path_set(wanted),
            forall|k: int| 0 <= k < i ==> metadata_matches(record@, snapshot@, #[trigger] wanted[k]),
        decreases expected.len() - i,
    {
        let path = &expected[i];
        proof {
            assert(wanted[i as int] == path@);
            lemma_owned_found(record@.owned_files, generation@, i as int);
            assert(all_parts(wanted)[i as int] == parts(path@));
            assert(path_set(wanted).contains(parts(path@)));
            lemma_stage_file_found(snapshot@.files, path@);
        }
        let at: usize = find_stage_file(&snapshot.files, path);
        let matches = match record_owned_file(record, path) {
            Some(owned) => {
                let staged = &snapshot.files[at];
                assert(snapshot@.files[at as int] == staged@);
                staged.mode == owned.mode && text_eq(
                    staged.sha256.as_str(),
                    owned.sha256.as_str(),
                )
            },
            None => false,
        };
        if !matches {
            assert(!metadata_matches(record@, snapshot@, wanted[i as int]));
            return fail(
                "recovery_needed",
                "prior generation snapshot file metadata is not exact",
            );
        }
        i += 1;
    }
    assert(wanted.len() == expected@.len());
    let directories = collect_paths(&snapshot.directories);
    let tree = tree_directories(&generation, &expected);
    proof {
        lemma_dir_locations(snapshot.directories@);
    }
    if !directories.same_members(&tree) {
        return fail(
            "recovery_needed",
            "prior generation snapshot directory inventory is not exact",
        );
    }
    Ok(())
}

/// A record without a fault has a generation.
pub proof fn lemma_sound_record_has_generation(
    record: RecordView,
    stable: Seq<u8>,
    plugin_root: Seq<u8>,
    settings: Result<Seq<u8>, Failure>,
)
    requires
        record_failure(record, stable, plugin_root, settings) is None,
    ensures
        parent(record.pi_package_source) is Some,
{
}

fn entry_is(entry: &Option<Json>, wanted: &Json) -> (r: bool)
    ensures
        r == opt_same_json(opt_json(*entry), wanted@),
{
    match entry {
        Some(found) => found.same(wanted),
        None => false,
    }
}

fn check_prior_state(
    t: &InstallTransaction,
    stable_root: &FsPath,
    plugin_root: &FsPath,
    pi_settings: &ManagedResult<FsPath>,
) -> (r: ManagedResult<()>)
    ensures
        failure(r) == prior_state_failure(*t, stable_root@, plugin_root@, outcome(*pi_settings)),
{
    let Some(record) = &t.prior_record else {
        if t.prior_helper_present || t.prior_pointer_present || t.prior_helper_snapshot.is_some()
            || t.prior_pointer_snapshot.is_some() || t.prior_generation_snapshot.is_some() {
            return fail("recovery_needed", "first-install transaction claims prior plugin assets");
        }
        return Ok(());
    };
    validate_record_semantics(record, stable_root, plugin_root, pi_settings)?;
    if record.state == InstallState::Removed {
        if t.prior_generation_snapshot.is_some() || t.prior_helper_present
            || t.prior_pointer_present || t.prior_helper_snapshot.is_some()
            || t.prior_pointer_snapshot.is_some() || t.prior_owned_pi_entry.is_some() {
            return fail("recovery_needed", "removed prior ownership claims live assets");
        }
        return Ok(());
    }
    let Some(snapshot) = &t.prior_generation_snapshot else {
        return fail(
            "recovery_needed",
            "transaction has no authenticated prior generation snapshot",
        );
    };
    proof {
        lemma_sound_record_has_generation(
            record@,
            stable_root@,
            plugin_root@,
            outcome(*pi_settings),
        );
    }
    validate_prior_generation_snapshot_semantics(record, snapshot)?;
    let none = "";
    proof {
        reveal_strlit("");
        assert(none@ =~= Seq::<char>::empty());
    }
    let pointer = match record_owned_file(record, &t.pointer) {
        Some(owned) => owned.sha256.as_str(),
        None => none,
    };
    if !t.prior_helper_present || !t.prior_pointer_present || validate_owned_snapshot_semantics(
        &t.prior_helper_snapshot,
        &t.helper,
        0o700,
        record.broker_digest.as_str(),
    ).is_err() || validate_owned_snapshot_semantics(
        &t.prior_pointer_snapshot,
        &t.pointer,
        0o600,
        pointer,
    ).is_err() || !entry_is(&t.prior_owned_pi_entry, &record.pi_package_entry) {
        return fail("recovery_needed", "transaction prior ownership relationships are invalid");
    }
    Ok(())
}

fn check_new_snapshots(t: &InstallTransaction, pointer: &str) -> (r: ManagedResult<()>)
    requires
        pointer@ == pointer_digest(child(t.generation@, "bin/herdr-a2a"@)),
    ensures
        failure(r) == new_snapshots_failure(*t),
{
    let required = !is_before_plugin(t.phase) && !is_plugin_in_progress(t.phase);
    if t.new_helper_snapshot.is_some() != required || t.new_pointer_snapshot.is_some() != required
        || (required && (validate_owned_snapshot_semantics(
        &t.new_helper_snapshot,
        &t.helper,
        0o700,
        t.broker_digest.as_str(),
    ).is_err() || validate_owned_snapshot_semantics(
        &t.new_pointer_snapshot,
        &t.pointer,
        0o600,
        pointer,
    ).is_err())) {
        return fail("recovery_needed", "transaction plugin inode snapshots are inconsistent");
    }
    Ok(())
}

fn count_occurrences(entries: &Vec<Json>, wanted: &Json) -> (r: usize)
    ensures
        r == occurrences(json_views(entries@), wanted@),
{
    let ghost views = json_views(entries@);
    let ghost keep = equal_to(wanted@);
    let mut n: usize = 0;
    let mut i: usize = 0;
    proof {
        reveal(Seq::filter);
        assert(views.take(0).filter(keep).len() == 0);
    }
    while i < entries.len()
        invariant
            i <= entries.len(),
            n <= i,
            views == json_views(entries@),
            keep == equal_to(wanted@),
            n == views.take(i as int).filter(keep).len(),
        decreases entries.len() - i,
    {
        proof {
            crate::pi::lemma_filter_next(views, keep, i as int);
            assert(views[i as int] == entries@[i as int]@);
        }
        if entries[i].same(wanted) {
            n += 1;
        }
        i += 1;
    }
    assert(views.take(i as int) =~= views);
    n
}

fn check_prior_entry(t: &InstallTransaction, plugin_root: &FsPath) -> (r: ManagedResult<()>)
    ensures
        failure(r) == prior_entry_failure(*t, plugin_root@),
{
    let Some(owned) = &t.prior_owned_pi_entry else {
        return Ok(());
    };
    if pi_entry_source(owned).is_none() {
        return fail("recovery_needed", "transaction prior Pi entry has no source");
    }
    if count_occurrences(&t.prior_pi_entries, owned) != 1 {
        return fail("recovery_needed", "transaction prior Pi ownership is invalid");
    }
    if t.prior_record.is_none() {
        let legacy = path_text(&legacy_source(plugin_root))?;
        proof {
            law_texts_are_equal_to_themselves_alone(owned@, legacy@);
        }
        if !owned.same(&Json::Text(legacy)) {
            return fail("recovery_needed", "transaction prior Pi ownership is invalid");
        }
    }
    Ok(())
}

fn check_journal_entries(t: &InstallTransaction, plugin_root: &FsPath) -> (r: ManagedResult<()>)
    ensures
        failure(r) == journal_entries_failure(*t, plugin_root@),
{
    check_prior_entry(t, plugin_root)?;
    let allowed = is_allowed_managed_pi_entry(
        &t.new_pi_entry,
        &t.pi_config_path,
        &t.generation.join("pi"),
    )?;
    if !allowed {
        return fail(
            "recovery_needed",
            "transaction new Pi entry does not name its generation",
        );
    }
    check_sources(
        &t.prior_pi_entries,
        "recovery_needed",
        "transaction prior Pi entry is invalid",
        "transaction prior Pi source contains a line break",
    )
}

fn is_new_record_planned(t: &InstallTransaction, record: &OwnershipRecord) -> (r: bool)
    ensures
        r == new_record_planned(*t, record@),
{
    let below = owned_paths_below(&record.owned_files, &t.generation);
    let recorded = collect_paths(&below);
    let planned = collect_paths(&t.generation_files);
    proof {
        assert(locations(below@) =~= path_views(below@));
        assert(locations(t.generation_files@) =~= path_views(t.generation_files@));
    }
    text_eq(record.broker_digest.as_str(), t.broker_digest.as_str()) && text_eq(
        record.pi_package_digest.as_str(),
        t.pi_package_digest.as_str(),
    ) && record.stable_binary.same(&t.generation.join("bin/herdr-a2a"))
        && record.pi_package_source.same(&t.generation.join("pi")) && record.pi_package_entry.same(
        &t.new_pi_entry,
    ) && recorded.same_members(&planned)
}

fn is_authoritative_v2(record: &Option<OwnershipRecord>) -> (r: bool)
    ensures
        r == (record is Some && record->0.schema_version == 2 && record->0.purge_authority),
{
    match record {
        Some(record) => record.schema_version == 2 && record.purge_authority,
        None => false,
    }
}

fn check_new_record(
    t: &InstallTransaction,
    stable_root: &FsPath,
    plugin_root: &FsPath,
    pi_settings: &ManagedResult<FsPath>,
) -> (r: ManagedResult<()>)
    ensures
        failure(r) == new_record_failure(*t, stable_root@, plugin_root@, outcome(*pi_settings)),
{
    if let Some(record) = &t.new_record {
        validate_record_semantics(record, stable_root, plugin_root, pi_settings)?;
        if !is_new_record_planned(t, record) {
            return fail(
                "recovery_needed",
                "transaction new record does not match its planned generation",
            );
        }
    }
    if (is_authoritative_v2(&t.prior_record) || is_authoritative_v2(&t.new_record))
        && !authoritative_v2_transaction_endpoints_are_exact_migration(
        t.prior_record.as_ref(),
        t.new_record.as_ref(),
    ) {
        return fail(
            "recovery_needed",
            "authoritative schema v2 transaction records are not an exact schema v3 migration",
        );
    }
    Ok(())
}

/// Checks a journal: its paths and names, what it plans and keeps, and that it has
/// what its phase asks for and nothing else.
pub fn validate_transaction_semantics(
    stable_root: &FsPath,
    transaction: &InstallTransaction,
    plugin_root: &ManagedResult<FsPath>,
    plugin_root_check: &ManagedResult<()>,
    pi_settings: &ManagedResult<FsPath>,
) -> (r: ManagedResult<()>)
    ensures
        failure(r) == journal_failure(
            *transaction,
            stable_root@,
            outcome(*plugin_root),
            failure(*plugin_root_check),
            outcome(*pi_settings),
        ),
{
    let root = match plugin_root {
        Ok(root) => root,
        Err(e) => {
            return Err(e.copy());
        },
    };
    match plugin_root_check {
        Ok(_) => {},
        Err(e) => {
            return Err(e.copy());
        },
    }
    check_journal_paths(transaction)?;
    check_journal_places(transaction, stable_root, root, pi_settings)?;
    check_journal_token(transaction)?;
    check_enumeration(transaction)?;
    check_generation_stage(transaction)?;
    check_plugin_stage(transaction)?;
    check_phase_shape(transaction, stable_root)?;
    let pointer = expected_pointer_digest(&transaction.generation.join("bin/herdr-a2a"))?;
    check_prior_state(transaction, stable_root, root, pi_settings)?;
    check_new_snapshots(transaction, pointer.as_str())?;
    check_journal_entries(transaction, root)?;
    check_new_record(transaction, stable_root, root, pi_settings)
}

/// The phases come in three runs: before the plugin files, while they are published,
/// and after. The new record is known from the publication of the rescue files on.
pub proof fn law_phases_fall_in_runs(phase: TransactionPhase)
    ensures
        before_plugin(phase) <==> (phase is Intent || phase is GenerationPublishing || phase
            is GenerationPublished),
        plugin_in_progress(phase) <==> (phase is PluginPublishing || phase is PluginBackingUpHelper
            || phase is PluginBackingUpPointer || phase is PluginPublishingHelper || phase
            is PluginPublishingPointer),
        has_new_snapshots(phase) <==> (phase is PluginPublished || phase is PiMutating || phase
            is PiMutated || phase is RescuePublishing || phase is RecordCommitting || phase
            is RecordRenaming || phase is RecordCommitted),
        has_new_record(phase) <==> (phase is RescuePublishing || phase is RecordCommitting || phase
            is RecordRenaming || phase is RecordCommitted),
{
}

/// A generation is named by 32 characters of a digest of the digest of its binary, a
/// zero and the digest of its package, and lies in `generations`.
pub proof fn law_generations_are_named_by_both_digests(
    stable: Seq<u8>,
    broker: Seq<char>,
    package: Seq<char>,
)
    ensures
        generation_dir(stable, broker, package) == join(
            child(stable, "generations"@),
            utf8(sha256_text(utf8(broker + seq!['\0'] + package))).subrange(0, 32),
        ),
{
    reveal_strlit("\0");
    assert("\0"@ =~= seq!['\0']);
    let digest = utf8(sha256_text(utf8(broker + seq!['\0'] + package)));
    assert(digest.take(32) == digest.subrange(0, 32));
}

/// What an accepted journal names is where it must be: the generation of its digests
/// and its stage directly in `generations`, the stage of the plugin and the backup of
/// the pointer directly in the plugin root, the helper and the pointer where they
/// belong, and the backup of the helper beside the helper.
pub proof fn law_accepted_journals_name_their_places(
    t: InstallTransaction,
    stable: Seq<u8>,
    root: Seq<u8>,
    check: Option<Failure>,
    settings: Result<Seq<u8>, Failure>,
)
    requires
        journal_failure(t, stable, Ok(root), check, settings) is None,
    ensures
        check is None,
        parent(t.generation@) is Some && parts(parent(t.generation@)->0) == parts(
            child(stable, "generations"@),
        ),
        file_name(t.generation@) == Some(generation_name(t.broker_digest@, t.pi_package_digest@)),
        parent(t.generation_stage@) is Some && parts(parent(t.generation_stage@)->0) == parts(
            child(stable, "generations"@),
        ),
        parent(t.plugin_stage@) is Some && parts(parent(t.plugin_stage@)->0) == parts(root),
        parent(t.pointer_backup@) is Some && parts(parent(t.pointer_backup@)->0) == parts(root),
        parts(t.helper@) == parts(helper_path(root)),
        parts(t.pointer@) == parts(pointer_path(root)),
        parent(t.helper@) is Some ==> parent(t.helper_backup@) is Some && parts(
            parent(t.helper_backup@)->0,
        ) == parts(parent(t.helper@)->0),
        settings is Ok && parts(t.pi_config_path@) == parts(settings->Ok_0),
        digest_ok(t.broker_digest@) && digest_ok(t.pi_package_digest@),
{
}

/// Every path that an accepted journal names can be stored.
pub proof fn law_accepted_journals_name_storable_paths(
    t: InstallTransaction,
    stable: Seq<u8>,
    root: Seq<u8>,
    check: Option<Failure>,
    settings: Result<Seq<u8>, Failure>,
)
    requires
        journal_failure(t, stable, Ok(root), check, settings) is None,
    ensures
        forall|p: Seq<u8>|
            #![trigger stored_path_failure(p, "transaction path"@)]
            p == t.generation@ || p == t.generation_stage@ || p == t.plugin_stage@ || p == t.helper@
                || p == t.pointer@ || p == t.helper_backup@ || p == t.pointer_backup@ || p
                == t.pi_config_path@ ==> stored_path_failure(p, "transaction path"@) is None,
{
}

/// The stages and the backups of an accepted journal carry one token, of 32
/// hexadecimal digits.
pub proof fn law_stages_and_backups_share_a_token(
    t: InstallTransaction,
    stable: Seq<u8>,
    root: Seq<u8>,
    check: Option<Failure>,
    settings: Result<Seq<u8>, Failure>,
)
    requires
        journal_failure(t, stable, Ok(root), check, settings) is None,
    ensures
        exists|token: Seq<u8>|
            token.len() == 32 && #[trigger] crate::text::lower_hex(token) && file_name(t.plugin_stage@)
                == Some(utf8(".managed-stage-"@) + token) && file_name(t.generation_stage@) == Some(
                utf8(".stage-"@) + token,
            ) && file_name(t.helper_backup@) == Some(utf8(".herdr-a2a-backup-"@) + token)
                && file_name(t.pointer_backup@) == Some(utf8(".stable-bin-backup-"@) + token),
{
    let prefix = utf8(".managed-stage-"@);
    let name = file_name(t.plugin_stage@)->0;
    assert(journal_token_failure(t) is None);
    assert(prefix.is_prefix_of(name));
    let token = name.skip(prefix.len() as int);
    assert(name =~= prefix + token);
    assert(token.len() == 32);
}

/// The files that an accepted journal plans lie in its generation, at different paths,
/// and the binary and the manifest of the package are among them.
pub proof fn law_planned_files_lie_in_the_generation(
    t: InstallTransaction,
    stable: Seq<u8>,
    root: Seq<u8>,
    check: Option<Failure>,
    settings: Result<Seq<u8>, Failure>,
)
    requires
        journal_failure(t, stable, Ok(root), check, settings) is None,
    ensures
        ({
            let files = path_views(t.generation_files@);
            &&& forall|i: int|
                0 <= i < files.len() ==> path_under(#[trigger] files[i], t.generation@)
            &&& forall|i: int|
                0 <= i < files.len() ==> stored_path_failure(
                    #[trigger] files[i],
                    "transaction generation file"@,
                ) is None
            &&& forall|i: int, j: int|
                0 <= i < j < files.len() ==> parts(#[trigger] files[i]) != parts(
                    #[trigger] files[j],
                )
            &&& exists|i: int|
                0 <= i < files.len() && parts(#[trigger] files[i]) == parts(
                    child(t.generation@, "bin/herdr-a2a"@),
                )
            &&& exists|i: int|
                0 <= i < files.len() && parts(#[trigger] files[i]) == parts(
                    child(t.generation@, "pi/package.json"@),
                )
        }),
{
    let files = path_views(t.generation_files@);
    assert(enumeration_failure(t) is None);
    lemma_planned_files(files, t.generation@, files.len() as int);
    law_path_sets_hold_their_paths(files, parts(child(t.generation@, "bin/herdr-a2a"@)));
    law_path_sets_hold_their_paths(files, parts(child(t.generation@, "pi/package.json"@)));
}

proof fn lemma_planned_files(files: Seq<Seq<u8>>, generation: Seq<u8>, n: int)
    requires
        0 <= n <= files.len(),
        planned_files_failure(files, generation, n) is None,
    ensures
        forall|i: int| 0 <= i < n ==> path_under(#[trigger] files[i], generation),
        forall|i: int|
            0 <= i < n ==> stored_path_failure(
                #[trigger] files[i],
                "transaction generation file"@,
            ) is None,
        forall|i: int, j: int|
            0 <= i < j < n ==> parts(#[trigger] files[i]) != parts(#[trigger] files[j]),
    decreases n,
{
    if n > 0 {
        lemma_planned_files(files, generation, n - 1);
        assert forall|i: int, j: int| 0 <= i < j < n implies parts(#[trigger] files[i]) != parts(
            #[trigger] files[j],
        ) by {
            if j == n - 1 {
                let before = all_parts(files.take(n - 1));
                assert(before[i] == parts(files[i]));
                assert(before.contains(parts(files[i])));
            }
        }
    }
}

/// The staged generation of an accepted journal, where one is recorded, is of a
/// generation that is newly made; its files are those that are planned, and only the
/// binary may be run.
pub proof fn law_staged_generations_are_the_planned_ones(
    t: InstallTransaction,
    stable: Seq<u8>,
    root: Seq<u8>,
    check: Option<Failure>,
    settings: Result<Seq<u8>, Failure>,
)
    requires
        journal_failure(t, stable, Ok(root), check, settings) is None,
    ensures
        t.generation_stage_snapshot is Some ==> ({
            let s = opt_snapshot(t.generation_stage_snapshot)->0;
            let stage = t.generation_stage@;
            &&& t.generation_created
            &&& snapshot_failure(stage, s) is None
            &&& path_set(published_paths(s.files, stage, t.generation@)) == path_set(
                path_views(t.generation_files@),
            )
            &&& dir_parts(s.directories).to_set() == tree_dirs(stage, stage_paths(s.files))
            &&& forall|i: int|
                0 <= i < s.files.len() ==> (#[trigger] s.files[i]).mode == (if parts(
                    relative_to(s.files[i].path, stage),
                ) == parts(utf8("bin/herdr-a2a"@)) {
                    0o700u32
                } else {
                    0o600u32
                })
        }),
{
    if t.generation_stage_snapshot is Some {
        assert(generation_stage_failure(t) is None);
        let s = opt_snapshot(t.generation_stage_snapshot)->0;
        assert forall|i: int| 0 <= i < s.files.len() implies (#[trigger] s.files[i]).mode
            == staged_mode(s.files[i].path, t.generation_stage@) by {
        }
    }
}

/// The plugin stage of an accepted journal, where one is recorded, holds the helper,
/// with the digest of the binary, and the pointer to the binary of the generation, while
/// the plugin files are published, and nothing afterwards; before, none is recorded.
pub proof fn law_plugin_stages_hold_helper_and_pointer(
    t: InstallTransaction,
    stable: Seq<u8>,
    root: Seq<u8>,
    check: Option<Failure>,
    settings: Result<Seq<u8>, Failure>,
)
    requires
        journal_failure(t, stable, Ok(root), check, settings) is None,
    ensures
        t.plugin_stage_snapshot is Some ==> ({
            let s = opt_snapshot(t.plugin_stage_snapshot)->0;
            let stage = t.plugin_stage@;
            &&& !(t.phase is Intent || t.phase is GenerationPublishing || t.phase
                is GenerationPublished)
            &&& snapshot_failure(stage, s) is None
            &&& dir_parts(s.directories).to_set() == path_set(seq![stage, child(stage, "libexec"@)])
            &&& s.files.len() == (if plugin_in_progress(t.phase) {
                2nat
            } else {
                0nat
            })
            &&& plugin_in_progress(t.phase) ==> exists|i: int|
                0 <= i < 2 && parts((#[trigger] s.files[i]).path) == parts(
                    child(stage, "libexec/herdr-a2a-dispatch"@),
                ) && s.files[i].mode == 0o700 && s.files[i].sha256 == t.broker_digest@
            &&& plugin_in_progress(t.phase) ==> exists|i: int|
                0 <= i < 2 && parts((#[trigger] s.files[i]).path) == parts(
                    child(stage, "stable-bin-path"@),
                ) && s.files[i].mode == 0o600 && s.files[i].sha256 == pointer_digest(
                    child(t.generation@, "bin/herdr-a2a"@),
                )
        }),
{
    if t.plugin_stage_snapshot is Some {
        assert(plugin_stage_failure(t) is None);
        assert(phase_shape_failure(t, stable) is None);
    }
}

/// An accepted journal has what its phase has brought, and nothing of later phases: the
/// new record from the publication of the rescue files on, the new plugin files once
/// they are published, and the staged generation only where one is made.
pub proof fn law_journals_have_what_their_phase_brought(
    t: InstallTransaction,
    stable: Seq<u8>,
    root: Seq<u8>,
    check: Option<Failure>,
    settings: Result<Seq<u8>, Failure>,
)
    requires
        journal_failure(t, stable, Ok(root), check, settings) is None,
    ensures
        t.new_record is Some <==> (t.phase is RescuePublishing || t.phase is RecordCommitting
            || t.phase is RecordRenaming || t.phase is RecordCommitted),
        t.new_helper_snapshot is Some <==> has_new_snapshots(t.phase),
        t.new_pointer_snapshot is Some <==> has_new_snapshots(t.phase),
        t.phase is Intent || !t.generation_created ==> t.generation_stage_snapshot is None,
        t.generation_created && !(t.phase is Intent) && !(t.phase is GenerationPublishing)
            ==> t.generation_stage_snapshot is Some,
        t.prior_rescue_notice is Some <==> t.prior_rescue_marker is Some,
        t.prior_rescue_notice is Some ==> has_new_record(t.phase) && live_prior(t) is Some,
        t.phase is RescuePublishing && live_prior(t) is Some ==> t.prior_rescue_notice is Some,
{
    assert(phase_shape_failure(t, stable) is None);
    assert(new_snapshots_failure(t) is None);
    assert(prior_rescue_failure(t, stable) is None);
}

/// The rescue files that an accepted journal keeps are those that the record of before
/// vouches for, by the digests of their bytes, and are of bounded length.
pub proof fn law_kept_rescue_files_are_vouched_for(
    t: InstallTransaction,
    stable: Seq<u8>,
    root: Seq<u8>,
    check: Option<Failure>,
    settings: Result<Seq<u8>, Failure>,
)
    requires
        journal_failure(t, stable, Ok(root), check, settings) is None,
    ensures
        t.prior_rescue_notice is Some ==> ({
            let prior = live_prior(t)->0;
            let notice = owned_for(prior.owned_files, rescue_notice(stable));
            let marker = owned_for(prior.owned_files, rescue_marker_file(stable));
            &&& notice is Some && marker is Some
            &&& notice->0.mode == 0o600 && marker->0.mode == 0o600
            &&& notice->0.sha256 == sha256_text(t.prior_rescue_notice->0@)
            &&& marker->0.sha256 == sha256_text(t.prior_rescue_marker->0@)
            &&& t.prior_rescue_notice->0@.len() <= 65536
            &&& t.prior_rescue_marker->0@.len() <= 65536
            &&& !(prior.schema_version == 2 && !prior.purge_authority)
                ==> prior.rescue_marker_digest == marker->0.sha256
            &&& prior.schema_version == 2 && !prior.purge_authority
                ==> prior.rescue_marker_digest.len() == 0
        }),
{
    assert(phase_shape_failure(t, stable) is None);
    assert(prior_rescue_failure(t, stable) is None);
}

/// A journal of a first installation, or of one after a removal, keeps nothing of a
/// plugin or a generation of before.
pub proof fn law_first_installs_keep_nothing(
    t: InstallTransaction,
    stable: Seq<u8>,
    root: Seq<u8>,
    check: Option<Failure>,
    settings: Result<Seq<u8>, Failure>,
)
    requires
        journal_failure(t, stable, Ok(root), check, settings) is None,
    ensures
        live_prior(t) is None ==> {
            &&& !t.prior_helper_present
            &&& !t.prior_pointer_present
            &&& t.prior_helper_snapshot is None
            &&& t.prior_pointer_snapshot is None
            &&& t.prior_generation_snapshot is None
            &&& t.prior_record is Some ==> t.prior_owned_pi_entry is None
        },
        t.prior_record is Some ==> record_failure(t.prior_record->0@, stable, root, settings)
            is None,
{
    assert(prior_state_failure(t, stable, root, settings) is None);
}

/// A journal over a live installation keeps that installation whole: the helper with
/// the recorded digest of the binary, the pointer as it is recorded, the entry of Pi that
/// is recorded, and a generation whose files are the recorded ones.
pub proof fn law_the_install_of_before_is_kept_whole(
    t: InstallTransaction,
    stable: Seq<u8>,
    root: Seq<u8>,
    check: Option<Failure>,
    settings: Result<Seq<u8>, Failure>,
)
    requires
        journal_failure(t, stable, Ok(root), check, settings) is None,
    ensures
        live_prior(t) is Some ==> ({
            let record = live_prior(t)->0;
            let generation = parent(record.pi_package_source)->0;
            let expected = owned_below(record.owned_files, generation);
            let s = opt_snapshot(t.prior_generation_snapshot)->0;
            &&& t.prior_helper_present && t.prior_pointer_present
            &&& t.prior_generation_snapshot is Some
            &&& snapshot_failure(generation, s) is None
            &&& path_set(stage_paths(s.files)) == path_set(expected)
            &&& dir_parts(s.directories).to_set() == tree_dirs(generation, expected)
            &&& forall|i: int|
                0 <= i < expected.len() ==> metadata_matches(record, s, #[trigger] expected[i])
            &&& owned_snapshot_failure(
                opt_file(t.prior_helper_snapshot),
                t.helper@,
                0o700,
                record.broker_digest,
            ) is None
            &&& owned_for(record.owned_files, t.pointer@) is Some ==> owned_snapshot_failure(
                opt_file(t.prior_pointer_snapshot),
                t.pointer@,
                0o600,
                owned_for(record.owned_files, t.pointer@)->0.sha256,
            ) is None
            &&& t.prior_owned_pi_entry is Some && same_json(
                t.prior_owned_pi_entry->0@,
                record.pi_package_entry,
            )
        }),
{
    assert(prior_state_failure(t, stable, root, settings) is None);
    if live_prior(t) is Some {
        let record = live_prior(t)->0;
        let s = opt_snapshot(t.prior_generation_snapshot)->0;
        assert(prior_generation_failure(record, s) is None);
    }
}

/// The new plugin files that an accepted journal keeps are the helper, with the digest
/// of the binary, and the pointer to the binary of the generation.
pub proof fn law_published_plugin_files_are_the_planned_ones(
    t: InstallTransaction,
    stable: Seq<u8>,
    root: Seq<u8>,
    check: Option<Failure>,
    settings: Result<Seq<u8>, Failure>,
)
    requires
        journal_failure(t, stable, Ok(root), check, settings) is None,
    ensures
        has_new_snapshots(t.phase) ==> owned_snapshot_failure(
            opt_file(t.new_helper_snapshot),
            t.helper@,
            0o700,
            t.broker_digest@,
        ) is None && owned_snapshot_failure(
            opt_file(t.new_pointer_snapshot),
            t.pointer@,
            0o600,
            pointer_digest(child(t.generation@, "bin/herdr-a2a"@)),
        ) is None,
{
    assert(new_snapshots_failure(t) is None);
}

/// The entries of Pi that an accepted journal keeps: the owned one names a source and
/// stands once among those of before, and without a record it is that of a checkout; the
/// new one leads to the package of the generation.
pub proof fn law_kept_entries_are_of_the_settings(
    t: InstallTransaction,
    stable: Seq<u8>,
    root: Seq<u8>,
    check: Option<Failure>,
    settings: Result<Seq<u8>, Failure>,
)
    requires
        journal_failure(t, stable, Ok(root), check, settings) is None,
    ensures
        t.prior_owned_pi_entry is Some ==> ({
            let owned = t.prior_owned_pi_entry->0@;
            let entries = json_views(t.prior_pi_entries@);
            &&& entry_source(owned) is Some
            &&& exists|i: int|
                0 <= i < entries.len() && same_json(#[trigger] entries[i], owned) && forall|j: int|
                    0 <= j < entries.len() && same_json(#[trigger] entries[j], owned) ==> i == j
            &&& t.prior_record is None ==> owned == JsonView::Text(
                decode_utf8(legacy_package(root)),
            )
        }),
        entry_allowed(t.new_pi_entry@, t.pi_config_path@, child(t.generation@, "pi"@)) == Ok::<
            bool,
            Failure,
        >(true),
{
    assert(journal_entries_failure(t, root) is None);
    if t.prior_owned_pi_entry is Some {
        let owned = t.prior_owned_pi_entry->0@;
        let entries = json_views(t.prior_pi_entries@);
        lemma_one_is_sole(entries, equal_to(owned));
        let i = choose|i: int| sole(entries, equal_to(owned), i);
        assert(same_json(entries[i], owned));
        assert forall|j: int| 0 <= j < entries.len() && same_json(#[trigger] entries[j], owned)
            implies i == j by {
            assert(equal_to(owned)(entries[j]));
        }
    }
}

/// The new record of an accepted journal is an acceptable one, and tells the generation,
/// the digests, the entry and the files that the journal plans.
pub proof fn law_new_records_tell_the_plan(
    t: InstallTransaction,
    stable: Seq<u8>,
    root: Seq<u8>,
    check: Option<Failure>,
    settings: Result<Seq<u8>, Failure>,
)
    requires
        journal_failure(t, stable, Ok(root), check, settings) is None,
    ensures
        t.new_record is Some ==> ({
            let record = t.new_record->0@;
            &&& record_failure(record, stable, root, settings) is None
            &&& record.broker_digest == t.broker_digest@
            &&& record.pi_package_digest == t.pi_package_digest@
            &&& parts(record.stable_binary) == parts(child(t.generation@, "bin/herdr-a2a"@))
            &&& parts(record.pi_package_source) == parts(child(t.generation@, "pi"@))
            &&& same_json(record.pi_package_entry, t.new_pi_entry@)
            &&& path_set(owned_below(record.owned_files, t.generation@)) == path_set(
                path_views(t.generation_files@),
            )
        }),
        ((t.prior_record is Some && t.prior_record->0.schema_version == 2
            && t.prior_record->0.purge_authority) || (t.new_record is Some
            && t.new_record->0.schema_version == 2 && t.new_record->0.purge_authority))
            ==> t.prior_record is Some && t.new_record is Some && exact_v2_to_v3(
            t.prior_record->0@,
            t.new_record->0@,
        ),
{
    assert(new_record_failure(t, stable, root, settings) is None);
}

/// A marker is vouched for just when it is the private marker of the installation and has
/// the digest of its entry, which the record repeats; an older record without authority
/// does not repeat it.
pub proof fn law_markers_are_vouched_for_by_digest(
    prior: RecordView,
    marker: OwnedFileView,
    bytes: Seq<u8>,
)
    ensures
        marker_authenticated(prior, marker, bytes) <==> {
            &&& parent(prior.ownership_path) is Some
            &&& parts(rescue_marker_file(parent(prior.ownership_path)->0)) == parts(marker.path)
            &&& marker.mode == 0o600
            &&& digest_ok(marker.sha256)
            &&& sha256_text(bytes) == marker.sha256
            &&& prior.schema_version == 2 && !prior.purge_authority
                ==> prior.rescue_marker_digest.len() == 0
            &&& !(prior.schema_version == 2 && !prior.purge_authority)
                ==> prior.rescue_marker_digest == marker.sha256
        },
{
}

/// A staged generation is accepted just when it is that of a newly made one, is a sound tree
/// with nothing but the planned files, and only its binary may be run.
pub proof fn law_staged_generations_are_accepted_whole(t: InstallTransaction)
    requires
        t.generation_stage_snapshot is Some,
    ensures
        generation_stage_failure(t) is None <==> ({
            let s = t.generation_stage_snapshot->0@;
            let stage = t.generation_stage@;
            &&& t.generation_created
            &&& snapshot_failure(stage, s) is None
            &&& path_set(published_paths(s.files, stage, t.generation@)) == path_set(
                path_views(t.generation_files@),
            )
            &&& dir_parts(s.directories).to_set() == tree_dirs(stage, stage_paths(s.files))
            &&& forall|i: int|
                0 <= i < s.files.len() ==> (#[trigger] s.files[i]).mode == (if parts(
                    relative_to(s.files[i].path, stage),
                ) == parts(utf8("bin/herdr-a2a"@)) {
                    0o700u32
                } else {
                    0o600u32
                })
        }),
{
    let s = t.generation_stage_snapshot->0@;
    let stage = t.generation_stage@;
    assert(opt_snapshot(t.generation_stage_snapshot) == Some(s));
    if exists|i: int|
        0 <= i < s.files.len() && (#[trigger] s.files[i]).mode != staged_mode(
            s.files[i].path,
            stage,
        ) {
        let i = choose|i: int|
            0 <= i < s.files.len() && (#[trigger] s.files[i]).mode != staged_mode(
                s.files[i].path,
                stage,
            );
        assert(s.files[i].mode != staged_mode(s.files[i].path, stage));
    }
}

/// What a journal has of its phase is accepted just when the new record and the new plugin
/// files are there once they are made, the staged plugin is not there before its time, the
/// staged generation is there just where one is made, and the rescue files of before are
/// kept as they must be.
pub proof fn law_phases_bring_what_they_bring(t: InstallTransaction, stable: Seq<u8>)
    ensures
        phase_shape_failure(t, stable) is None <==> {
            &&& t.new_record is Some <==> has_new_record(t.phase)
            &&& prior_rescue_failure(t, stable) is None
            &&& before_plugin(t.phase) ==> t.plugin_stage_snapshot is None
            &&& t.phase is Intent || !t.generation_created ==> t.generation_stage_snapshot is None
            &&& t.generation_created && !(t.phase is Intent) && !(t.phase is GenerationPublishing)
                ==> t.generation_stage_snapshot is Some
        },
        new_snapshots_failure(t) is None <==> {
            &&& t.new_helper_snapshot is Some <==> has_new_snapshots(t.phase)
            &&& t.new_pointer_snapshot is Some <==> has_new_snapshots(t.phase)
            &&& has_new_snapshots(t.phase) ==> owned_snapshot_failure(
                opt_file(t.new_helper_snapshot),
                t.helper@,
                0o700,
                t.broker_digest@,
            ) is None && owned_snapshot_failure(
                opt_file(t.new_pointer_snapshot),
                t.pointer@,
                0o600,
                pointer_digest(child(t.generation@, "bin/herdr-a2a"@)),
            ) is None
        },
{
}

/// The generation of before is kept whole just when its snapshot is a sound tree with the
/// recorded files, each with the recorded mode and digest, and no directory beside theirs.
pub proof fn law_generations_of_before_are_accepted_whole(record: RecordView, s: SnapshotView)
    ensures
        prior_generation_failure(record, s) is None <==> ({
            let generation = parent(record.pi_package_source)->0;
            let expected = owned_below(record.owned_files, generation);
            &&& snapshot_failure(generation, s) is None
            &&& path_set(stage_paths(s.files)) == path_set(expected)
            &&& dir_parts(s.directories).to_set() == tree_dirs(generation, expected)
            &&& forall|i: int|
                0 <= i < expected.len() ==> metadata_matches(record, s, #[trigger] expected[i])
        }),
{
}

/// A journal over an installation, or of a first one, is accepted with what it keeps of
/// before just when that is nothing for a first one or a removed one, and all of a live one.
pub proof fn law_what_was_before_is_kept_or_nothing(
    t: InstallTransaction,
    stable: Seq<u8>,
    root: Seq<u8>,
    settings: Result<Seq<u8>, Failure>,
)
    ensures
        prior_state_failure(t, stable, root, settings) is None <==> {
            &&& t.prior_record is Some ==> record_failure(
                t.prior_record->0@,
                stable,
                root,
                settings,
            ) is None
            &&& live_prior(t) is None ==> !t.prior_helper_present && !t.prior_pointer_present
                && t.prior_helper_snapshot is None && t.prior_pointer_snapshot is None
                && t.prior_generation_snapshot is None && (t.prior_record is Some
                ==> t.prior_owned_pi_entry is None)
            &&& live_prior(t) is Some ==> t.prior_helper_present && t.prior_pointer_present
                && t.prior_generation_snapshot is Some && prior_generation_failure(
                live_prior(t)->0,
                t.prior_generation_snapshot->0@,
            ) is None && owned_snapshot_failure(
                opt_file(t.prior_helper_snapshot),
                t.helper@,
                0o700,
                live_prior(t)->0.broker_digest,
            ) is None && owned_snapshot_failure(
                opt_file(t.prior_pointer_snapshot),
                t.pointer@,
                0o600,
                if owned_for(live_prior(t)->0.owned_files, t.pointer@) is Some {
                    owned_for(live_prior(t)->0.owned_files, t.pointer@)->0.sha256
                } else {
                    Seq::empty()
                },
            ) is None && t.prior_owned_pi_entry is Some && same_json(
                t.prior_owned_pi_entry->0@,
                live_prior(t)->0.pi_package_entry,
            )
        },
{
}

/// An entry that is owned from before is accepted just when it names a source, stands once
/// among the entries of before, and is that of a checkout where there is no record.
pub proof fn law_owned_entries_stand_once(t: InstallTransaction, root: Seq<u8>, i: int)
    requires
        t.prior_owned_pi_entry is Some,
    ensures
        ({
            let owned = t.prior_owned_pi_entry->0@;
            let entries = json_views(t.prior_pi_entries@);
            sole(entries, equal_to(owned), i) && entry_source(owned) is Some && (t.prior_record
                is Some || (path_text_failure(legacy_package(root)) is None && owned
                == JsonView::Text(decode_utf8(legacy_package(root))))) ==> prior_entry_failure(
                t,
                root,
            ) is None
        }),
{
    let owned = t.prior_owned_pi_entry->0@;
    let entries = json_views(t.prior_pi_entries@);
    assert(opt_json(t.prior_owned_pi_entry) == Some(owned));
    if sole(entries, equal_to(owned), i) {
        lemma_filter_sole(entries, equal_to(owned), i);
    }
}

/// The rescue files that a journal keeps are accepted just when both are kept or neither;
/// kept ones need a live installation before and a phase that has the new record, and none
/// may be missing while the new ones are published over a live installation.
pub proof fn law_rescue_files_are_kept_in_pairs(t: InstallTransaction, stable: Seq<u8>)
    ensures
        t.prior_rescue_notice is Some != t.prior_rescue_marker is Some ==> prior_rescue_failure(
            t,
            stable,
        ) is Some,
        t.prior_rescue_notice is None && t.prior_rescue_marker is None ==> (prior_rescue_failure(
            t,
            stable,
        ) is None <==> !(t.phase is RescuePublishing && live_prior(t) is Some)),
        t.prior_rescue_notice is Some && t.prior_rescue_marker is Some ==> (prior_rescue_failure(
            t,
            stable,
        ) is None <==> (live_prior(t) is Some && has_new_record(t.phase)
            && t.prior_rescue_notice->0@.len() <= 65536 && t.prior_rescue_marker->0@.len() <= 65536
            && kept_rescue_failure(
            live_prior(t)->0,
            stable,
            t.prior_rescue_notice->0@,
            t.prior_rescue_marker->0@,
            unrecovered("transaction prior rescue snapshot is not authenticated"@),
        ) is None)),
{
}

/// Kept rescue files are accepted just when both are recorded as private, have the recorded
/// digests, and the record vouches for the marker.
pub proof fn law_kept_rescue_files_are_the_recorded_ones(
    prior: RecordView,
    stable: Seq<u8>,
    notice: Seq<u8>,
    marker: Seq<u8>,
    f: Failure,
)
    ensures
        kept_rescue_failure(prior, stable, notice, marker, Some(f)) is None <==> ({
            let n = owned_for(prior.owned_files, rescue_notice(stable));
            let m = owned_for(prior.owned_files, rescue_marker_file(stable));
            n is Some && m is Some && n->0.mode == 0o600 && m->0.mode == 0o600 && sha256_text(
                notice,
            ) == n->0.sha256 && marker_authenticated(prior, m->0, marker)
        }),
{
}

/// The entry of a path in a snapshot is the first one at it, and it matches the record when
/// its mode and its digest are those of the first entry that the record has for the path.
pub proof fn law_snapshots_are_compared_path_by_path(
    record: RecordView,
    s: SnapshotView,
    path: Seq<u8>,
    k: int,
)
    requires
        0 <= k < s.files.len(),
        parts(s.files[k].path) == parts(path),
        forall|i: int| 0 <= i < k ==> parts((#[trigger] s.files[i]).path) != parts(path),
        owned_for(record.owned_files, path) is Some,
    ensures
        metadata_matches(record, s, path) <==> (s.files[k].mode == owned_for(
            record.owned_files,
            path,
        )->0.mode && s.files[k].sha256 == owned_for(record.owned_files, path)->0.sha256),
{
    lemma_first_stage_file(s.files, path, k);
}

proof fn lemma_first_stage_file(files: Seq<StageFileView>, path: Seq<u8>, k: int)
    requires
        0 <= k < files.len(),
        parts(files[k].path) == parts(path),
        forall|i: int| 0 <= i < k ==> parts((#[trigger] files[i]).path) != parts(path),
    ensures
        stage_file_at(files, path) == k,
    decreases k,
{
    if k > 0 {
        assert(parts(files[0].path) != parts(path));
        assert forall|i: int| 0 <= i < k - 1 implies parts((#[trigger] files.skip(1)[i]).path)
            != parts(path) by {
            assert(files.skip(1)[i] == files[i + 1]);
        }
        lemma_first_stage_file(files.skip(1), path, k - 1);
    }
}

/// The files of a record below a directory are all of its entries that lie there.
pub proof fn law_owned_files_below_are_all_of_them(
    files: Seq<OwnedFileView>,
    base: Seq<u8>,
    wanted: Seq<PathPart>,
)
    ensures
        path_set(owned_below(files, base)).contains(wanted) <==> exists|i: int|
            0 <= i < files.len() && parts((#[trigger] files[i]).path) == wanted && path_under(
                files[i].path,
                base,
            ),
{
    let inside = |f: OwnedFileView| path_under(f.path, base);
    let kept = files.filter(inside);
    let below = owned_below(files, base);
    law_path_sets_hold_their_paths(below, wanted);
    if path_set(below).contains(wanted) {
        let k = choose|k: int| 0 <= k < below.len() && parts(#[trigger] below[k]) == wanted;
        assert(kept.contains(kept[k]));
        lemma_filter_has(files, inside, kept[k]);
        let i = files.index_of(kept[k]);
        assert(parts(files[i].path) == wanted && path_under(files[i].path, base));
    }
    if exists|i: int|
        0 <= i < files.len() && parts((#[trigger] files[i]).path) == wanted && path_under(
            files[i].path,
            base,
        ) {
        let i = choose|i: int|
            0 <= i < files.len() && parts((#[trigger] files[i]).path) == wanted && path_under(
                files[i].path,
                base,
            );
        assert(files.contains(files[i]));
        lemma_filter_has(files, inside, files[i]);
        let k = kept.index_of(files[i]);
        assert(below[k] == files[i].path);
        assert(parts(below[k]) == wanted);
    }
}

} // verus!
