//! What an interrupted installation left behind, and how it is finished or
//! undone.

use vstd::prelude::*;
use vstd::string::*;
use vstd::utf8::*;
use crate::error::{fail, failure, or_else, outcome, Failure, ManagedResult};
use crate::json::{json_views, law_texts_are_equal_to_themselves_alone, Json, JsonView};
use crate::layout::path_views;
use crate::lists::lemma_filter_has;
use crate::order::{lemma_sorted_map, location_key, sort_located, sorted_by, SortOrder};
use crate::path::{child, join, parent, parts, path_text, path_text_failure, same_path, FsPath};
use crate::pathset::all_parts;
use crate::pi::{
    allowed_entries, allowed_managed_pi_entries, entries_with, expected_post_pi_entries,
    json_outcome, managed_pi_entry, opt_json, post_entries, relative_entry, same_entries,
    same_json_multiset, with_entry, PiSettings,
};
use crate::record::{
    opt_record, opt_records_equal, same_opt_record, InstallState, OwnershipRecord, RecordView,
};
use crate::snapshot::{
    opt_file, opt_snapshot, same_snapshot, snapshot_failure, validate_stage_snapshot_semantics,
    OwnedStageFile, SnapshotView, StageFileView, StageSnapshot,
};
use crate::text::{text_eq, utf8};
use crate::transaction::{
    journal_failure, live_prior, live_prior_record, unrecovered, validate_transaction_semantics,
    InstallTransaction, TransactionPhase, LEGACY_TRANSACTION_SCHEMA, TRANSACTION_SCHEMA,
};

verus! {

/// The journal names its package by the absolute path, in the way of older
/// installations.
pub open spec fn names_package_absolutely(t: InstallTransaction) -> bool {
    t.new_pi_entry@ == JsonView::Text(decode_utf8(child(t.generation@, "pi"@)))
}

/// The phases in which a journal may name its package absolutely and keep doing
/// so.
pub open spec fn absolute_entry_kept(t: InstallTransaction) -> bool {
    if t.new_record is Some {
        crate::transaction::has_new_record(t.phase)
    } else {
        t.phase == TransactionPhase::PiMutated
    }
}

/// What becomes of the package entry of a journal that is read: a journal from
/// the middle of a change of the settings has it made relative.
pub open spec fn normalized_entry(t: InstallTransaction) -> Result<JsonView, Failure> {
    let source = child(t.generation@, "pi"@);
    match relative_entry(t.pi_config_path@, source) {
        Err(f) => Err(f),
        Ok(relative) => match path_text_failure(source) {
            Some(f) => Err(f),
            None => if !names_package_absolutely(t) {
                Ok(t.new_pi_entry@)
            } else if t.phase == TransactionPhase::PiMutating && t.new_record is None {
                Ok(relative)
            } else if absolute_entry_kept(t) {
                Ok(t.new_pi_entry@)
            } else {
                Err(
                    (
                        "recovery_needed"@,
                        "legacy absolute Pi entry is invalid for the transaction phase"@,
                    ),
                )
            },
        },
    }
}

/// The package entry that a journal is to have once it is read.
pub fn normalize_legacy_pi_transaction(t: &InstallTransaction) -> (r: ManagedResult<Json>)
    ensures
        json_outcome(r) == normalized_entry(*t),
{
    let source = t.generation.join("pi");
    let expected = managed_pi_entry(&t.pi_config_path, &source)?;
    let legacy = Json::Text(path_text(&source)?);
    proof {
        law_texts_are_equal_to_themselves_alone(t.new_pi_entry@, legacy@->Text_0);
    }
    if t.new_pi_entry.same(&legacy) {
        if t.phase == TransactionPhase::PiMutating && t.new_record.is_none() {
            return Ok(expected);
        }
        let kept = if t.new_record.is_some() {
            crate::transaction::phase_requires_new_record(t.phase)
        } else {
            t.phase == TransactionPhase::PiMutated
        };
        if !kept {
            return fail(
                "recovery_needed",
                "legacy absolute Pi entry is invalid for the transaction phase",
            );
        }
    }
    Ok(t.new_pi_entry.copy())
}

/// An older journal that has published everything but its record, and kept no
/// rescue files to go back to.
pub open spec fn forward_commit(t: InstallTransaction) -> bool {
    &&& t.schema_version == LEGACY_TRANSACTION_SCHEMA
    &&& t.phase == TransactionPhase::RecordCommitting
    &&& live_prior(t) is Some
    &&& t.new_record is Some
    &&& t.prior_rescue_notice is None
    &&& t.prior_rescue_marker is None
}

/// Whether an older journal can only be finished, not undone.
pub fn is_predecessor_forward_commit(t: &InstallTransaction) -> (r: bool)
    ensures
        r == forward_commit(*t),
{
    t.schema_version == LEGACY_TRANSACTION_SCHEMA && t.phase == TransactionPhase::RecordCommitting
        && live_prior_record(t).is_some() && t.new_record.is_some()
        && t.prior_rescue_notice.is_none() && t.prior_rescue_marker.is_none()
}

/// The record on disk is one that the phase allows.
pub open spec fn live_record_ok(t: InstallTransaction, current: Option<RecordView>) -> bool {
    let is_prior = same_opt_record(current, opt_record(t.prior_record));
    let is_new = same_opt_record(current, opt_record(t.new_record));
    if t.phase == TransactionPhase::RecordCommitted {
        is_new
    } else if t.phase == TransactionPhase::RecordRenaming || forward_commit(t) {
        is_prior || is_new
    } else {
        is_prior
    }
}

/// Checks the record on disk against the phase of a journal.
pub fn validate_live_record_state(t: &InstallTransaction, current: &Option<OwnershipRecord>) -> (r:
    ManagedResult<()>)
    ensures
        failure(r) == if live_record_ok(*t, opt_record(*current)) {
            None
        } else {
            unrecovered(
                "live ownership record is not an exact state allowed by the transaction phase"@,
            )
        },
{
    let is_prior = opt_records_equal(current.as_ref(), t.prior_record.as_ref());
    let is_new = opt_records_equal(current.as_ref(), t.new_record.as_ref());
    let allowed = if t.phase == TransactionPhase::RecordCommitted {
        is_new
    } else if t.phase == TransactionPhase::RecordRenaming || is_predecessor_forward_commit(t) {
        is_prior || is_new
    } else {
        is_prior
    };
    if !allowed {
        return fail(
            "recovery_needed",
            "live ownership record is not an exact state allowed by the transaction phase",
        );
    }
    Ok(())
}

/// What is wrong with a tree that must be exactly as it was recorded.
pub open spec fn live_tree_failure(
    root: Seq<u8>,
    expected: SnapshotView,
    found: ManagedResult<StageSnapshot>,
) -> Option<Failure> {
    or_else(
        snapshot_failure(root, expected),
        match found {
            Err(e) => Some(e@),
            Ok(live) => if same_snapshot(live@, expected) {
                None
            } else {
                unrecovered("the managed transaction stage changed"@)
            },
        },
    )
}

/// Checks a tree that must be exactly as it was recorded.
pub fn validate_stage_snapshot_live(
    root: &FsPath,
    expected: &StageSnapshot,
    found: &ManagedResult<StageSnapshot>,
) -> (r: ManagedResult<()>)
    ensures
        failure(r) == live_tree_failure(root@, expected@, *found),
{
    validate_stage_snapshot_semantics(root, expected)?;
    match found {
        Err(e) => Err(e.copy()),
        Ok(live) => {
            if !live.same(expected) {
                return fail("recovery_needed", "the managed transaction stage changed");
            }
            Ok(())
        },
    }
}

/// What was found at the path of a file: nothing, a safe regular file, or
/// something else.
#[derive(Debug)]
pub enum ObservedFile {
    Absent,
    Present(OwnedStageFile),
    Unusable,
}

/// A file has the identity, the mode and the content of another, wherever it is.
pub open spec fn same_content(a: StageFileView, b: StageFileView) -> bool {
    a.device == b.device && a.inode == b.inode && a.mode == b.mode && a.sha256 == b.sha256
}

/// What was found is exactly what is expected; nothing where nothing is.
pub open spec fn found_exactly(found: ObservedFile, expected: Option<StageFileView>) -> bool {
    match (found, expected) {
        (ObservedFile::Absent, None) => true,
        (ObservedFile::Present(actual), Some(e)) => same_content(actual@, e),
        _ => false,
    }
}

/// Whether what was found is exactly what is expected.
pub fn exact_snapshot_file_state(found: &ObservedFile, expected: Option<&OwnedStageFile>) -> (r:
    bool)
    ensures
        r == found_exactly(
            *found,
            match expected {
                Some(e) => Some(e@),
                None => None,
            },
        ),
{
    match (found, expected) {
        (ObservedFile::Absent, None) => true,
        (ObservedFile::Present(actual), Some(e)) => actual.device == e.device && actual.inode
            == e.inode && actual.mode == e.mode && text_eq(
            actual.sha256.as_str(),
            e.sha256.as_str(),
        ),
        _ => false,
    }
}

/// What was found is nothing, or exactly what is expected.
pub open spec fn found_or_absent(found: ObservedFile, expected: Option<StageFileView>) -> bool {
    found is Absent || (expected is Some && found_exactly(found, expected))
}

/// Whether what was found is nothing, or exactly what is expected.
pub fn exact_snapshot_or_absent(found: &ObservedFile, expected: Option<&OwnedStageFile>) -> (r:
    bool)
    ensures
        r == found_or_absent(
            *found,
            match expected {
                Some(e) => Some(e@),
                None => None,
            },
        ),
{
    match found {
        ObservedFile::Absent => true,
        _ => expected.is_some() && exact_snapshot_file_state(found, expected),
    }
}

/// What was found of the generation of before.
#[derive(Debug)]
pub struct PriorGenerationFound {
    pub present: bool,
    pub tree: ManagedResult<StageSnapshot>,
}

/// What is wrong with what was found of the generation of before.
pub open spec fn prior_generation_state_failure(
    t: InstallTransaction,
    found: PriorGenerationFound,
) -> Option<Failure> {
    match opt_record(t.prior_record) {
        None => None,
        Some(prior) => {
            let generation = parent(prior.pi_package_source)->0;
            let elsewhere = !same_path(generation, t.generation@);
            if prior.state == InstallState::Removed {
                if found.present && elsewhere {
                    unrecovered("removed prior generation reappeared during reinstall"@)
                } else {
                    None
                }
            } else if !found.present {
                if elsewhere && t.phase == TransactionPhase::RecordCommitted {
                    None
                } else {
                    unrecovered("prior generation disappeared before transaction commit"@)
                }
            } else {
                match opt_snapshot(t.prior_generation_snapshot) {
                    None => unrecovered("transaction has no prior generation inode snapshot"@),
                    Some(s) => live_tree_failure(generation, s, found.tree),
                }
            }
        },
    }
}

/// The record of before of a journal names its package below a generation.
pub open spec fn prior_has_generation(t: InstallTransaction) -> bool {
    t.prior_record is Some ==> parent(t.prior_record->0.pi_package_source@) is Some
}

/// Checks what was found of the generation of before.
pub fn validate_prior_generation_state(t: &InstallTransaction, found: &PriorGenerationFound) -> (r:
    ManagedResult<()>)
    requires
        prior_has_generation(*t),
    ensures
        failure(r) == prior_generation_state_failure(*t, *found),
{
    let Some(prior) = &t.prior_record else {
        return Ok(());
    };
    let generation = match prior.pi_package_source.parent() {
        Some(generation) => generation,
        None => {
            return Ok(());
        },
    };
    let elsewhere = !generation.same(&t.generation);
    if prior.state == InstallState::Removed {
        if found.present && elsewhere {
            return fail(
                "recovery_needed",
                "removed prior generation reappeared during reinstall",
            );
        }
        return Ok(());
    }
    if !found.present {
        if elsewhere && t.phase == TransactionPhase::RecordCommitted {
            return Ok(());
        }
        return fail("recovery_needed", "prior generation disappeared before transaction commit");
    }
    let Some(snapshot) = &t.prior_generation_snapshot else {
        return fail("recovery_needed", "transaction has no prior generation inode snapshot");
    };
    validate_stage_snapshot_live(&generation, snapshot, &found.tree)
}

/// What was found of the generation that a journal publishes.
#[derive(Debug)]
pub struct GenerationFound {
    pub stage_exists: bool,
    pub stage_tree: ManagedResult<StageSnapshot>,
    pub stage_binary: ManagedResult<String>,
    pub stage_package: ManagedResult<String>,
    pub exists: bool,
    pub present: bool,
    pub directory: ManagedResult<()>,
    pub files: ManagedResult<Vec<FsPath>>,
    pub binary: ManagedResult<String>,
    pub package: ManagedResult<String>,
    /// For each planned file, in the order of their paths: whether it is a safe
    /// regular file of the mode that it must have.
    pub file_checks: Vec<ManagedResult<()>>,
    /// For each staged file: what was found where it must be published.
    pub published: Vec<ObservedFile>,
    pub prior: PriorGenerationFound,
}

/// The two digests of a generation are those that the journal plans, or why not.
pub open spec fn content_failure(
    binary: ManagedResult<String>,
    package: ManagedResult<String>,
    t: InstallTransaction,
    refused: Option<Failure>,
) -> Option<Failure> {
    match binary {
        Err(e) => Some(e@),
        Ok(b) => if b@ != t.broker_digest@ {
            refused
        } else {
            match package {
                Err(e) => Some(e@),
                Ok(p) => if p@ != t.pi_package_digest@ {
                    refused
                } else {
                    None
                },
            }
        },
    }
}

fn check_content(
    binary: &ManagedResult<String>,
    package: &ManagedResult<String>,
    t: &InstallTransaction,
    message: &str,
) -> (r: ManagedResult<()>)
    ensures
        failure(r) == content_failure(*binary, *package, *t, unrecovered(message@)),
{
    match binary {
        Err(e) => {
            return Err(e.copy());
        },
        Ok(b) => {
            if !text_eq(b.as_str(), t.broker_digest.as_str()) {
                return fail("recovery_needed", message);
            }
        },
    }
    match package {
        Err(e) => Err(e.copy()),
        Ok(p) => {
            if !text_eq(p.as_str(), t.pi_package_digest.as_str()) {
                return fail("recovery_needed", message);
            }
            Ok(())
        },
    }
}

/// The first failure in a list of checks.
pub open spec fn first_failure(checks: Seq<ManagedResult<()>>) -> Option<Failure>
    decreases checks.len(),
{
    if checks.len() == 0 {
        None
    } else {
        or_else(first_failure(checks.drop_last()), failure(checks.last()))
    }
}

proof fn lemma_first_failure_stays(checks: Seq<ManagedResult<()>>, n: int)
    requires
        0 <= n <= checks.len(),
        first_failure(checks.take(n)) is Some,
    ensures
        first_failure(checks) == first_failure(checks.take(n)),
    decreases checks.len() - n,
{
    if n == checks.len() {
        assert(checks.take(n) =~= checks);
    } else {
        assert(checks.take(n + 1).drop_last() =~= checks.take(n));
        lemma_first_failure_stays(checks, n + 1);
    }
}

/// Hands on the first failure in a list of checks.
pub fn check_all(checks: &Vec<ManagedResult<()>>) -> (r: ManagedResult<()>)
    ensures
        failure(r) == first_failure(checks@),
{
    let mut i: usize = 0;
    while i < checks.len()
        invariant
            i <= checks.len(),
            first_failure(checks@.take(i as int)) is None,
        decreases checks.len() - i,
    {
        assert(checks@.take(i + 1).drop_last() =~= checks@.take(i as int));
        match &checks[i] {
            Ok(_) => {},
            Err(e) => {
                proof {
                    lemma_first_failure_stays(checks@, i + 1);
                }
                return Err(e.copy());
            },
        }
        i += 1;
    }
    assert(checks@.take(i as int) =~= checks@);
    Ok(())
}

/// The planned files in the order of their paths.
pub open spec fn planned_order(files: Seq<Seq<u8>>) -> Seq<Seq<u8>> {
    sorted_by(SortOrder::ByPath, files, crate::layout::itself())
}

/// What is wrong with the files that were found in the generation.
pub open spec fn planned_tree_failure(t: InstallTransaction, found: GenerationFound) -> Option<
    Failure,
> {
    let refused = unrecovered("planned generation is not the exact transaction generation"@);
    match found.files {
        Err(e) => Some(e@),
        Ok(files) => if all_parts(path_views(files@)) != all_parts(
            planned_order(path_views(t.generation_files@)),
        ) {
            refused
        } else {
            content_failure(found.binary, found.package, t, refused)
        },
    }
}

/// Every staged file was found where it must be published.
pub open spec fn all_published(t: InstallTransaction, found: GenerationFound) -> bool {
    match opt_snapshot(t.generation_stage_snapshot) {
        None => true,
        Some(s) => forall|i: int|
            0 <= i < s.files.len() ==> found_exactly(found.published@[i], Some(#[trigger] s.files[i])),
    }
}

/// What is wrong with what was found of the generation that a journal publishes.
pub open spec fn generation_state_failure(t: InstallTransaction, found: GenerationFound) -> Option<
    Failure,
> {
    let prior = prior_generation_state_failure(t, found.prior);
    if found.stage_exists {
        match opt_snapshot(t.generation_stage_snapshot) {
            None => unrecovered("an unauthenticated generation stage is present"@),
            Some(s) => if t.phase != TransactionPhase::GenerationPublishing || found.exists {
                unrecovered("generation stage is not allowed for the transaction phase"@)
            } else {
                or_else(
                    live_tree_failure(t.generation_stage@, s, found.stage_tree),
                    or_else(
                        content_failure(
                            found.stage_binary,
                            found.stage_package,
                            t,
                            unrecovered(
                                "generation stage content does not match the transaction digests"@,
                            ),
                        ),
                        prior,
                    ),
                )
            },
        }
    } else if !found.present {
        if (t.phase == TransactionPhase::Intent || t.phase
            == TransactionPhase::GenerationPublishing) && t.generation_created {
            prior
        } else {
            unrecovered("planned generation is absent for the transaction phase"@)
        }
    } else {
        or_else(
            failure(found.directory),
            or_else(
                planned_tree_failure(t, found),
                or_else(
                    first_failure(found.file_checks@),
                    if all_published(t, found) {
                        prior
                    } else {
                        unrecovered(
                            "published generation file does not match its authenticated stage inode"@,
                        )
                    },
                ),
            ),
        )
    }
}

/// Whether two lists of paths are equal, path by path.
pub fn path_lists_equal(a: &Vec<FsPath>, b: &Vec<FsPath>) -> (r: bool)
    ensures
        r == (all_parts(path_views(a@)) == all_parts(path_views(b@))),
{
    let ghost x = all_parts(path_views(a@));
    let ghost y = all_parts(path_views(b@));
    if a.len() != b.len() {
        assert(x.len() != y.len());
        return false;
    }
    let mut i: usize = 0;
    while i < a.len()
        invariant
            i <= a.len(),
            a.len() == b.len(),
            x == all_parts(path_views(a@)),
            y == all_parts(path_views(b@)),
            forall|k: int| 0 <= k < i ==> x[k] == y[k],
        decreases a.len() - i,
    {
        assert(x[i as int] == parts(a@[i as int]@));
        assert(y[i as int] == parts(b@[i as int]@));
        if !a[i].same(&b[i]) {
            return false;
        }
        i += 1;
    }
    assert(x =~= y);
    true
}

/// A copy of some paths.
pub fn copy_paths(paths: &Vec<FsPath>) -> (r: Vec<FsPath>)
    ensures
        path_views(r@) == path_views(paths@),
{
    let mut out: Vec<FsPath> = Vec::new();
    let mut i: usize = 0;
    while i < paths.len()
        invariant
            i <= paths.len(),
            out@.len() == i,
            forall|k: int| 0 <= k < i ==> (#[trigger] out@[k])@ == paths@[k]@,
        decreases paths.len() - i,
    {
        out.push(paths[i].copy());
        i += 1;
    }
    assert(path_views(out@) =~= path_views(paths@));
    out
}

/// The planned files in the order of their paths.
pub fn sorted_paths(paths: &Vec<FsPath>) -> (r: Vec<FsPath>)
    ensures
        path_views(r@) == planned_order(path_views(paths@)),
{
    let copied = copy_paths(paths);
    proof {
        lemma_sorted_map(
            SortOrder::ByPath,
            copied@,
            |p: FsPath| p@,
            location_key::<FsPath>(),
            crate::layout::itself(),
        );
    }
    sort_located(SortOrder::ByPath, copied)
}

fn check_published(t: &InstallTransaction, found: &GenerationFound) -> (r: bool)
    requires
        t.generation_stage_snapshot is Some ==> found.published@.len()
            == t.generation_stage_snapshot->0.files@.len(),
    ensures
        r == all_published(*t, *found),
{
    let Some(s) = &t.generation_stage_snapshot else {
        return true;
    };
    let mut i: usize = 0;
    while i < s.files.len()
        invariant
            i <= s.files.len(),
            t.generation_stage_snapshot == Some(*s),
            found.published@.len() == s.files@.len(),
            forall|k: int|
                0 <= k < i ==> found_exactly(
                    found.published@[k],
                    Some(#[trigger] s@.files[k]),
                ),
        decreases s.files.len() - i,
    {
        assert(s@.files[i as int] == s.files@[i as int]@);
        if !exact_snapshot_file_state(&found.published[i], Some(&s.files[i])) {
            assert(opt_snapshot(t.generation_stage_snapshot) == Some(s@));
            assert(s@.files.len() == s.files@.len());
            assert(!found_exactly(found.published@[i as int], Some(s@.files[i as int])));
            proof {
                if all_published(*t, *found) {
                    let view = opt_snapshot(t.generation_stage_snapshot)->0;
                    assert(view == s@);
                    assert(found_exactly(found.published@[i as int], Some(view.files[i as int])));
                }
            }
            return false;
        }
        i += 1;
    }
    true
}

/// Checks what was found of the generation that a journal publishes.
pub fn validate_live_generation_state(t: &InstallTransaction, found: &GenerationFound) -> (r:
    ManagedResult<()>)
    requires
        prior_has_generation(*t),
        t.generation_stage_snapshot is Some ==> found.published@.len()
            == t.generation_stage_snapshot->0.files@.len(),
    ensures
        failure(r) == generation_state_failure(*t, *found),
{
    if found.stage_exists {
        let Some(snapshot) = &t.generation_stage_snapshot else {
            return fail("recovery_needed", "an unauthenticated generation stage is present");
        };
        if t.phase != TransactionPhase::GenerationPublishing || found.exists {
            return fail(
                "recovery_needed",
                "generation stage is not allowed for the transaction phase",
            );
        }
        validate_stage_snapshot_live(&t.generation_stage, snapshot, &found.stage_tree)?;
        check_content(
            &found.stage_binary,
            &found.stage_package,
            t,
            "generation stage content does not match the transaction digests",
        )?;
        return validate_prior_generation_state(t, &found.prior);
    }
    if !found.present {
        if (t.phase == TransactionPhase::Intent || t.phase
            == TransactionPhase::GenerationPublishing) && t.generation_created {
            return validate_prior_generation_state(t, &found.prior);
        }
        return fail("recovery_needed", "planned generation is absent for the transaction phase");
    }
    match &found.directory {
        Ok(_) => {},
        Err(e) => {
            return Err(e.copy());
        },
    }
    let files = match &found.files {
        Ok(files) => files,
        Err(e) => {
            return Err(e.copy());
        },
    };
    let expected = sorted_paths(&t.generation_files);
    if !path_lists_equal(files, &expected) {
        return fail(
            "recovery_needed",
            "planned generation is not the exact transaction generation",
        );
    }
    check_content(
        &found.binary,
        &found.package,
        t,
        "planned generation is not the exact transaction generation",
    )?;
    check_all(&found.file_checks)?;
    if !check_published(t, found) {
        return fail(
            "recovery_needed",
            "published generation file does not match its authenticated stage inode",
        );
    }
    validate_prior_generation_state(t, &found.prior)
}

/// The staged file of a plugin stage at a path, if the snapshot has one.
pub open spec fn staged_at(s: SnapshotView, path: Seq<u8>) -> Option<StageFileView> {
    let at = crate::transaction::stage_file_at(s.files, path);
    if at < s.files.len() {
        Some(s.files[at])
    } else {
        None
    }
}

/// The staged helper or pointer of a journal.
pub fn plugin_staged_file<'a>(t: &InstallTransaction, s: &'a StageSnapshot, helper: bool) -> (r:
    Option<&'a OwnedStageFile>)
    ensures
        (match r {
            Some(f) => Some(f@),
            None => None,
        }) == staged_at(
            s@,
            child(
                t.plugin_stage@,
                if helper {
                    "libexec/herdr-a2a-dispatch"@
                } else {
                    "stable-bin-path"@
                },
            ),
        ),
{
    let path = if helper {
        t.plugin_stage.join("libexec/herdr-a2a-dispatch")
    } else {
        t.plugin_stage.join("stable-bin-path")
    };
    let ghost views = s@.files;
    let mut i: usize = 0;
    assert(views.skip(0) =~= views);
    while i < s.files.len()
        invariant
            i <= s.files.len(),
            views == s@.files,
            path@ == child(
                t.plugin_stage@,
                if helper {
                    "libexec/herdr-a2a-dispatch"@
                } else {
                    "stable-bin-path"@
                },
            ),
            crate::transaction::stage_file_at(views, path@) == i
                + crate::transaction::stage_file_at(views.skip(i as int), path@),
        decreases s.files.len() - i,
    {
        assert(views.skip(i as int)[0] == s.files@[i as int]@);
        assert(views.skip(i as int).skip(1) =~= views.skip(i + 1));
        if s.files[i].path.same(&path) {
            return Some(&s.files[i]);
        }
        i += 1;
    }
    None
}

/// The files of a plugin stage that are still to be published.
pub open spec fn unpublished(stage: Seq<u8>, helper: bool, pointer: bool) -> spec_fn(
    StageFileView,
) -> bool {
    |f: StageFileView|
        (helper && same_path(f.path, child(stage, "libexec/herdr-a2a-dispatch"@))) || (pointer
            && same_path(f.path, child(stage, "stable-bin-path"@)))
}

/// The plugin stage with only the helper or the pointer left in it.
pub open spec fn stage_subset(
    t: InstallTransaction,
    s: SnapshotView,
    helper: bool,
    pointer: bool,
) -> SnapshotView {
    SnapshotView {
        directories: s.directories,
        files: s.files.filter(unpublished(t.plugin_stage@, helper, pointer)),
    }
}

/// The plugin stage with only the helper or the pointer left in it.
pub fn plugin_stage_subset(
    t: &InstallTransaction,
    snapshot: &StageSnapshot,
    helper: bool,
    pointer: bool,
) -> (r: StageSnapshot)
    ensures
        r@ == stage_subset(*t, snapshot@, helper, pointer),
{
    let whole = snapshot.copy();
    let helper_file = t.plugin_stage.join("libexec/herdr-a2a-dispatch");
    let pointer_file = t.plugin_stage.join("stable-bin-path");
    let ghost views = snapshot@.files;
    let ghost keep = unpublished(t.plugin_stage@, helper, pointer);
    let mut files: Vec<OwnedStageFile> = Vec::new();
    let mut i: usize = 0;
    proof {
        reveal(Seq::filter);
        assert(crate::snapshot::file_views(files@) =~= views.take(0).filter(keep));
    }
    while i < snapshot.files.len()
        invariant
            i <= snapshot.files.len(),
            views == snapshot@.files,
            helper_file@ == child(t.plugin_stage@, "libexec/herdr-a2a-dispatch"@),
            pointer_file@ == child(t.plugin_stage@, "stable-bin-path"@),
            keep == unpublished(t.plugin_stage@, helper, pointer),
            crate::snapshot::file_views(files@) == views.take(i as int).filter(keep),
        decreases snapshot.files.len() - i,
    {
        let ghost before = files@;
        proof {
            crate::pi::lemma_filter_next(views, keep, i as int);
            assert(views[i as int] == snapshot.files@[i as int]@);
        }
        let f = &snapshot.files[i];
        if (helper && f.path.same(&helper_file)) || (pointer && f.path.same(&pointer_file)) {
            files.push(f.copy());
            assert(crate::snapshot::file_views(files@) =~= crate::snapshot::file_views(
                before,
            ).push(views[i as int]));
        }
        i += 1;
    }
    assert(views.take(i as int) =~= views);
    StageSnapshot { directories: whole.directories, files }
}

/// What was found of the plugin files of a journal.
#[derive(Debug)]
pub struct PluginFound {
    pub helper: ObservedFile,
    pub pointer: ObservedFile,
    pub helper_backup: ObservedFile,
    pub pointer_backup: ObservedFile,
    pub helper_backup_exists: bool,
    pub pointer_backup_exists: bool,
    pub stage_exists: bool,
    pub stage_tree: ManagedResult<StageSnapshot>,
}

/// The plugin stage holds exactly what is left to be published.
pub open spec fn stage_is(
    t: InstallTransaction,
    found: PluginFound,
    helper: bool,
    pointer: bool,
) -> bool {
    t.plugin_stage_snapshot is Some && found.stage_exists && live_tree_failure(
        t.plugin_stage@,
        stage_subset(t, t.plugin_stage_snapshot->0@, helper, pointer),
        found.stage_tree,
    ) is None
}

/// The helper and the pointer are those of before, and there are no backups.
pub open spec fn prior_targets(t: InstallTransaction, found: PluginFound) -> bool {
    &&& found_exactly(found.helper, opt_file(t.prior_helper_snapshot))
    &&& found_exactly(found.pointer, opt_file(t.prior_pointer_snapshot))
    &&& !found.helper_backup_exists
    &&& !found.pointer_backup_exists
}

/// A file was moved to its backup.
pub open spec fn backed_up(
    target: ObservedFile,
    backup: ObservedFile,
    prior: Option<StageFileView>,
) -> bool {
    found_exactly(target, None) && found_exactly(backup, prior)
}

/// A staged file was published.
pub open spec fn staged_published(
    t: InstallTransaction,
    found: ObservedFile,
    name: Seq<char>,
) -> bool {
    &&& t.plugin_stage_snapshot is Some
    &&& staged_at(t.plugin_stage_snapshot->0@, child(t.plugin_stage@, name)) is Some
    &&& found_exactly(
        found,
        staged_at(t.plugin_stage_snapshot->0@, child(t.plugin_stage@, name)),
    )
}

/// The steps of the publication of the plugin files, by what they leave: nothing
/// moved, the helper backed up, both backed up, the helper published, both
/// published.
pub open spec fn plugin_step(t: InstallTransaction, found: PluginFound, step: int) -> bool {
    let prior_helper = opt_file(t.prior_helper_snapshot);
    let prior_pointer = opt_file(t.prior_pointer_snapshot);
    let helper_moved = backed_up(found.helper, found.helper_backup, prior_helper);
    let pointer_moved = backed_up(found.pointer, found.pointer_backup, prior_pointer);
    let helper_out = staged_published(t, found.helper, "libexec/herdr-a2a-dispatch"@);
    let pointer_out = staged_published(t, found.pointer, "stable-bin-path"@);
    if step == 0 {
        prior_targets(t, found) && stage_is(t, found, true, true)
    } else if step == 1 {
        helper_moved && found_exactly(found.pointer, prior_pointer) && found_exactly(
            found.pointer_backup,
            None,
        ) && stage_is(t, found, true, true)
    } else if step == 2 {
        helper_moved && pointer_moved && stage_is(t, found, true, true)
    } else if step == 3 {
        helper_out && found_exactly(found.helper_backup, prior_helper) && pointer_moved && stage_is(
            t,
            found,
            false,
            true,
        )
    } else {
        helper_out && pointer_out && found_exactly(found.helper_backup, prior_helper)
            && found_exactly(found.pointer_backup, prior_pointer) && stage_is(
            t,
            found,
            false,
            false,
        )
    }
}

/// The plugin stage is empty, or was never made.
pub open spec fn stage_residual(t: InstallTransaction, found: PluginFound) -> bool {
    if t.plugin_stage_snapshot is Some {
        stage_is(t, found, false, false)
    } else {
        !found.stage_exists
    }
}

/// The new helper and pointer are in place.
pub open spec fn new_targets(t: InstallTransaction, found: PluginFound) -> bool {
    &&& t.new_helper_snapshot is Some
    &&& t.new_pointer_snapshot is Some
    &&& found_exactly(found.helper, opt_file(t.new_helper_snapshot))
    &&& found_exactly(found.pointer, opt_file(t.new_pointer_snapshot))
}

/// Everything is published and the backups are still there.
pub open spec fn plugin_published(t: InstallTransaction, found: PluginFound) -> bool {
    &&& new_targets(t, found)
    &&& found_exactly(found.helper_backup, opt_file(t.prior_helper_snapshot))
    &&& found_exactly(found.pointer_backup, opt_file(t.prior_pointer_snapshot))
    &&& stage_residual(t, found)
}

/// Everything is published, and what was left over may be gone.
pub open spec fn plugin_committed(t: InstallTransaction, found: PluginFound) -> bool {
    &&& new_targets(t, found)
    &&& found_or_absent(found.helper_backup, opt_file(t.prior_helper_snapshot))
    &&& found_or_absent(found.pointer_backup, opt_file(t.prior_pointer_snapshot))
    &&& stage_residual(t, found) || (t.plugin_stage_snapshot is Some && !found.stage_exists)
}

/// The plugin files are in a state that the phase allows: each step of the
/// publication may have been done or not when its phase is journaled.
pub open spec fn plugin_state_ok(t: InstallTransaction, found: PluginFound) -> bool {
    match t.phase {
        TransactionPhase::Intent
        | TransactionPhase::GenerationPublishing
        | TransactionPhase::GenerationPublished => prior_targets(t, found) && !found.stage_exists,
        TransactionPhase::PluginPublishing => (t.plugin_stage_snapshot is None
            && !found.stage_exists && prior_targets(t, found)) || plugin_step(t, found, 0),
        TransactionPhase::PluginBackingUpHelper => plugin_step(t, found, 0) || plugin_step(
            t,
            found,
            1,
        ),
        TransactionPhase::PluginBackingUpPointer => plugin_step(t, found, 1) || plugin_step(
            t,
            found,
            2,
        ),
        TransactionPhase::PluginPublishingHelper => plugin_step(t, found, 2) || plugin_step(
            t,
            found,
            3,
        ),
        TransactionPhase::PluginPublishingPointer => plugin_step(t, found, 3) || plugin_step(
            t,
            found,
            4,
        ),
        TransactionPhase::RecordCommitted => plugin_committed(t, found),
        _ => plugin_published(t, found),
    }
}

fn is_stage(t: &InstallTransaction, found: &PluginFound, helper: bool, pointer: bool) -> (r: bool)
    ensures
        r == stage_is(*t, *found, helper, pointer),
{
    match &t.plugin_stage_snapshot {
        Some(snapshot) => {
            if !found.stage_exists {
                return false;
            }
            let subset = plugin_stage_subset(t, snapshot, helper, pointer);
            validate_stage_snapshot_live(&t.plugin_stage, &subset, &found.stage_tree).is_ok()
        },
        None => false,
    }
}

fn is_staged_published(t: &InstallTransaction, found: &ObservedFile, helper: bool) -> (r: bool)
    ensures
        r == staged_published(
            *t,
            *found,
            if helper {
                "libexec/herdr-a2a-dispatch"@
            } else {
                "stable-bin-path"@
            },
        ),
{
    match &t.plugin_stage_snapshot {
        Some(snapshot) => {
            let staged = plugin_staged_file(t, snapshot, helper);
            staged.is_some() && exact_snapshot_file_state(found, staged)
        },
        None => false,
    }
}

fn are_prior_targets(t: &InstallTransaction, found: &PluginFound) -> (r: bool)
    ensures
        r == prior_targets(*t, *found),
{
    exact_snapshot_file_state(&found.helper, t.prior_helper_snapshot.as_ref())
        && exact_snapshot_file_state(&found.pointer, t.prior_pointer_snapshot.as_ref())
        && !found.helper_backup_exists && !found.pointer_backup_exists
}

fn is_plugin_step(t: &InstallTransaction, found: &PluginFound, step: u8) -> (r: bool)
    ensures
        r == plugin_step(*t, *found, step as int),
{
    let prior_helper = t.prior_helper_snapshot.as_ref();
    let prior_pointer = t.prior_pointer_snapshot.as_ref();
    let helper_moved = exact_snapshot_file_state(&found.helper, None) && exact_snapshot_file_state(
        &found.helper_backup,
        prior_helper,
    );
    let pointer_moved = exact_snapshot_file_state(&found.pointer, None)
        && exact_snapshot_file_state(&found.pointer_backup, prior_pointer);
    if step == 0 {
        are_prior_targets(t, found) && is_stage(t, found, true, true)
    } else if step == 1 {
        helper_moved && exact_snapshot_file_state(&found.pointer, prior_pointer)
            && exact_snapshot_file_state(&found.pointer_backup, None) && is_stage(
            t,
            found,
            true,
            true,
        )
    } else if step == 2 {
        helper_moved && pointer_moved && is_stage(t, found, true, true)
    } else if step == 3 {
        is_staged_published(t, &found.helper, true) && exact_snapshot_file_state(
            &found.helper_backup,
            prior_helper,
        ) && pointer_moved && is_stage(t, found, false, true)
    } else {
        is_staged_published(t, &found.helper, true) && is_staged_published(t, &found.pointer, false)
            && exact_snapshot_file_state(&found.helper_backup, prior_helper)
            && exact_snapshot_file_state(&found.pointer_backup, prior_pointer) && is_stage(
            t,
            found,
            false,
            false,
        )
    }
}

fn is_stage_residual(t: &InstallTransaction, found: &PluginFound) -> (r: bool)
    ensures
        r == stage_residual(*t, *found),
{
    if t.plugin_stage_snapshot.is_some() {
        is_stage(t, found, false, false)
    } else {
        !found.stage_exists
    }
}

fn are_new_targets(t: &InstallTransaction, found: &PluginFound) -> (r: bool)
    ensures
        r == new_targets(*t, *found),
{
    t.new_helper_snapshot.is_some() && t.new_pointer_snapshot.is_some()
        && exact_snapshot_file_state(&found.helper, t.new_helper_snapshot.as_ref())
        && exact_snapshot_file_state(&found.pointer, t.new_pointer_snapshot.as_ref())
}

/// Checks what was found of the plugin files of a journal.
pub fn validate_live_plugin_state(t: &InstallTransaction, found: &PluginFound) -> (r: ManagedResult<
    (),
>)
    ensures
        failure(r) == if plugin_state_ok(*t, *found) {
            None
        } else {
            unrecovered(
                "live plugin assets are not an exact state allowed by the transaction phase"@,
            )
        },
{
    let allowed = match t.phase {
        TransactionPhase::Intent
        | TransactionPhase::GenerationPublishing
        | TransactionPhase::GenerationPublished => are_prior_targets(t, found)
            && !found.stage_exists,
        TransactionPhase::PluginPublishing => (t.plugin_stage_snapshot.is_none()
            && !found.stage_exists && are_prior_targets(t, found)) || is_plugin_step(t, found, 0),
        TransactionPhase::PluginBackingUpHelper => is_plugin_step(t, found, 0) || is_plugin_step(
            t,
            found,
            1,
        ),
        TransactionPhase::PluginBackingUpPointer => is_plugin_step(t, found, 1) || is_plugin_step(
            t,
            found,
            2,
        ),
        TransactionPhase::PluginPublishingHelper => is_plugin_step(t, found, 2) || is_plugin_step(
            t,
            found,
            3,
        ),
        TransactionPhase::PluginPublishingPointer => is_plugin_step(t, found, 3) || is_plugin_step(
            t,
            found,
            4,
        ),
        TransactionPhase::RecordCommitted => are_new_targets(t, found)
            && exact_snapshot_or_absent(&found.helper_backup, t.prior_helper_snapshot.as_ref())
            && exact_snapshot_or_absent(&found.pointer_backup, t.prior_pointer_snapshot.as_ref())
            && (is_stage_residual(t, found) || (t.plugin_stage_snapshot.is_some()
            && !found.stage_exists)),
        _ => are_new_targets(t, found) && exact_snapshot_file_state(
            &found.helper_backup,
            t.prior_helper_snapshot.as_ref(),
        ) && exact_snapshot_file_state(&found.pointer_backup, t.prior_pointer_snapshot.as_ref())
            && is_stage_residual(t, found),
    };
    if !allowed {
        return fail(
            "recovery_needed",
            "live plugin assets are not an exact state allowed by the transaction phase",
        );
    }
    Ok(())
}

/// One of some entries leads to the settings that were found.
pub open spec fn some_entry_leads_to(
    t: InstallTransaction,
    current: Seq<JsonView>,
    candidates: Seq<JsonView>,
    complete: bool,
) -> bool {
    exists|i: int|
        0 <= i < candidates.len() && same_entries(
            current,
            entries_with_candidate(t, #[trigger] candidates[i], complete),
        )
}

/// The settings with a package entry added, and, where that is complete, with the
/// one of before gone.
pub open spec fn entries_with_candidate(
    t: InstallTransaction,
    candidate: JsonView,
    complete: bool,
) -> Seq<JsonView> {
    let prior = json_views(t.prior_pi_entries@);
    if complete {
        post_entries(prior, opt_json(t.prior_owned_pi_entry), candidate)
    } else {
        with_entry(prior, candidate)
    }
}

/// The settings of Pi are in a state that the phase allows.
pub open spec fn pi_state_ok(
    t: InstallTransaction,
    current: Seq<JsonView>,
    candidates: Seq<JsonView>,
) -> bool {
    let prior = same_entries(current, json_views(t.prior_pi_entries@));
    let post = same_entries(current, entries_with_candidate(t, t.new_pi_entry@, true));
    match t.phase {
        TransactionPhase::PiMutating => prior || some_entry_leads_to(t, current, candidates, false)
            || some_entry_leads_to(t, current, candidates, true),
        TransactionPhase::PiMutated => post,
        TransactionPhase::RescuePublishing
        | TransactionPhase::RecordCommitting
        | TransactionPhase::RecordRenaming
        | TransactionPhase::RecordCommitted => match t.new_record {
            Some(record) => match record.state {
                InstallState::Ready => post,
                InstallState::PiAdapterPending => prior,
                _ => false,
            },
            None => false,
        },
        _ => prior,
    }
}

/// What is wrong with the settings of Pi that were found.
pub open spec fn pi_state_failure(
    t: InstallTransaction,
    path: Seq<u8>,
    current: Seq<JsonView>,
) -> Option<Failure> {
    if !same_path(path, t.pi_config_path@) {
        unrecovered("Pi settings path changed during transaction recovery"@)
    } else {
        match allowed_entries(t.pi_config_path@, child(t.generation@, "pi"@)) {
            Err(f) => Some(f),
            Ok(candidates) => if pi_state_ok(t, current, candidates) {
                None
            } else {
                unrecovered(
                    "live Pi settings are not an exact state allowed by the transaction phase"@,
                )
            },
        }
    }
}

fn candidate_leads_to(
    t: &InstallTransaction,
    current: &Vec<Json>,
    candidates: &Vec<Json>,
    complete: bool,
) -> (r: bool)
    ensures
        r == some_entry_leads_to(*t, json_views(current@), json_views(candidates@), complete),
{
    let ghost views = json_views(candidates@);
    let mut i: usize = 0;
    while i < candidates.len()
        invariant
            i <= candidates.len(),
            views == json_views(candidates@),
            forall|k: int|
                0 <= k < i ==> !same_entries(
                    json_views(current@),
                    entries_with_candidate(*t, #[trigger] views[k], complete),
                ),
        decreases candidates.len() - i,
    {
        assert(views[i as int] == candidates@[i as int]@);
        let expected = if complete {
            expected_post_pi_entries(&t.prior_pi_entries, &t.prior_owned_pi_entry, &candidates[i])
        } else {
            entries_with(&t.prior_pi_entries, &candidates[i])
        };
        if same_json_multiset(current, &expected) {
            return true;
        }
        i += 1;
    }
    false
}

/// Checks the settings of Pi that were found.
pub fn validate_live_pi_state(t: &InstallTransaction, current: &PiSettings) -> (r: ManagedResult<()>)
    ensures
        failure(r) == pi_state_failure(*t, current.path@, json_views(current.entries@)),
{
    if !current.path.same(&t.pi_config_path) {
        return fail("recovery_needed", "Pi settings path changed during transaction recovery");
    }
    let candidates = allowed_managed_pi_entries(&t.pi_config_path, &t.generation.join("pi"))?;
    let prior = same_json_multiset(&current.entries, &t.prior_pi_entries);
    let finished = expected_post_pi_entries(
        &t.prior_pi_entries,
        &t.prior_owned_pi_entry,
        &t.new_pi_entry,
    );
    let post = same_json_multiset(&current.entries, &finished);
    let allowed = match t.phase {
        TransactionPhase::PiMutating => prior || candidate_leads_to(
            t,
            &current.entries,
            &candidates,
            false,
        ) || candidate_leads_to(t, &current.entries, &candidates, true),
        TransactionPhase::PiMutated => post,
        TransactionPhase::RescuePublishing
        | TransactionPhase::RecordCommitting
        | TransactionPhase::RecordRenaming
        | TransactionPhase::RecordCommitted => match &t.new_record {
            Some(record) => match record.state {
                InstallState::Ready => post,
                InstallState::PiAdapterPending => prior,
                _ => false,
            },
            None => false,
        },
        _ => prior,
    };
    if !allowed {
        return fail(
            "recovery_needed",
            "live Pi settings are not an exact state allowed by the transaction phase",
        );
    }
    Ok(())
}

/// A journal is another one with the entry that it is to have once it is read.
pub open spec fn with_normalized_entry(t: InstallTransaction, n: InstallTransaction) -> bool {
    n == (InstallTransaction { new_pi_entry: n.new_pi_entry, ..t }) && Ok::<JsonView, Failure>(
        n.new_pi_entry@,
    ) == normalized_entry(t)
}

/// A journal of a schema that is known.
pub open spec fn schema_known(t: InstallTransaction) -> bool {
    t.schema_version == TRANSACTION_SCHEMA || t.schema_version == LEGACY_TRANSACTION_SCHEMA
}

/// Takes a journal that was read: its entry is brought to the form of today, and it
/// must mean an installation that can be finished or undone.
pub fn read_transaction(
    stable_root: &FsPath,
    transaction: InstallTransaction,
    plugin_root: &ManagedResult<FsPath>,
    plugin_root_check: &ManagedResult<()>,
    pi_settings: &ManagedResult<FsPath>,
) -> (r: ManagedResult<InstallTransaction>)
    ensures
        !schema_known(transaction) ==> failure(r) == unrecovered(
            "unsupported install transaction schema"@,
        ),
        schema_known(transaction) && normalized_entry(transaction) is Err ==> failure(r) == Some(
            normalized_entry(transaction)->Err_0,
        ),
        schema_known(transaction) && normalized_entry(transaction) is Ok ==> exists|
            n: InstallTransaction,
        |
            with_normalized_entry(transaction, n) && failure(r) == #[trigger] journal_failure(
                n,
                stable_root@,
                outcome(*plugin_root),
                failure(*plugin_root_check),
                outcome(*pi_settings),
            ) && (r is Ok ==> r->Ok_0 == n),
{
    if transaction.schema_version != TRANSACTION_SCHEMA && transaction.schema_version
        != LEGACY_TRANSACTION_SCHEMA {
        return fail("recovery_needed", "unsupported install transaction schema");
    }
    let ghost given = transaction;
    let mut transaction = transaction;
    transaction.new_pi_entry = normalize_legacy_pi_transaction(&transaction)?;
    assert(with_normalized_entry(given, transaction));
    validate_transaction_semantics(
        stable_root,
        &transaction,
        plugin_root,
        plugin_root_check,
        pi_settings,
    )?;
    Ok(transaction)
}

/// A tree is as it was recorded exactly where it was read, has the entries of the record
/// and is the same in each of them; a record with an unsound entry is never met.
pub proof fn law_a_live_tree_is_the_recorded_one(
    root: Seq<u8>,
    expected: SnapshotView,
    found: ManagedResult<StageSnapshot>,
)
    ensures
        live_tree_failure(root, expected, found) is None ==> found is Ok && same_snapshot(
            found->Ok_0@,
            expected,
        ) && snapshot_failure(root, expected) is None,
        snapshot_failure(root, expected) is None && found is Ok && same_snapshot(
            found->Ok_0@,
            expected,
        ) ==> live_tree_failure(root, expected, found) is None,
{
}

/// A file counts as the one that was recorded only with the same device, inode, mode and
/// digest; where none was recorded, only nothing does.
pub proof fn law_a_found_file_is_the_recorded_one(found: ObservedFile, expected: Option<StageFileView>)
    ensures
        expected is None ==> found_exactly(found, expected) == (found is Absent),
        expected is Some ==> found_exactly(found, expected) == (found is Present
            && found->Present_0.device == expected->0.device && found->Present_0.inode
            == expected->0.inode && found->Present_0.mode == expected->0.mode
            && found->Present_0.sha256@ == expected->0.sha256),
        found_or_absent(found, expected) == (found is Absent || (expected is Some && found_exactly(
            found,
            expected,
        ))),
{
}

/// Until an installation may have renamed its record, the record on disk is the one of
/// before; once it is committed, it is the new one; in no phase is it any other.
pub proof fn law_the_record_on_disk_is_of_one_end(t: InstallTransaction, current: Option<RecordView>)
    ensures
        live_record_ok(t, current) ==> same_opt_record(current, opt_record(t.prior_record))
            || same_opt_record(current, opt_record(t.new_record)),
        live_record_ok(t, current) && t.phase == TransactionPhase::RecordCommitted
            ==> same_opt_record(current, opt_record(t.new_record)),
        live_record_ok(t, current) && t.phase != TransactionPhase::RecordCommitted && t.phase
            != TransactionPhase::RecordRenaming && t.phase != TransactionPhase::RecordCommitting
            ==> same_opt_record(current, opt_record(t.prior_record)),
        t.phase == TransactionPhase::RecordCommitting && t.schema_version
            != LEGACY_TRANSACTION_SCHEMA && live_record_ok(t, current) ==> same_opt_record(
            current,
            opt_record(t.prior_record),
        ),
        same_opt_record(current, opt_record(t.prior_record)) && t.phase
            != TransactionPhase::RecordCommitted ==> live_record_ok(t, current),
        same_opt_record(current, opt_record(t.new_record)) && (t.phase
            == TransactionPhase::RecordCommitted || t.phase == TransactionPhase::RecordRenaming)
            ==> live_record_ok(t, current),
{
}

/// Before the plugin files are touched they are those of before, with no backup and no
/// stage. While they are published each of them is where the steps so far have put it: the
/// one of before in its place or in its backup, the new one staged or in its place. Once
/// all are published they are the new ones.
pub proof fn law_plugin_files_are_of_one_end(t: InstallTransaction, found: PluginFound)
    requires
        plugin_state_ok(t, found),
    ensures
        ({
            let helper = opt_file(t.prior_helper_snapshot);
            let pointer = opt_file(t.prior_pointer_snapshot);
            let early = t.phase == TransactionPhase::Intent || t.phase
                == TransactionPhase::GenerationPublishing || t.phase
                == TransactionPhase::GenerationPublished;
            let moving = t.phase == TransactionPhase::PluginPublishing || t.phase
                == TransactionPhase::PluginBackingUpHelper || t.phase
                == TransactionPhase::PluginBackingUpPointer || t.phase
                == TransactionPhase::PluginPublishingHelper || t.phase
                == TransactionPhase::PluginPublishingPointer;
            let committed = t.phase == TransactionPhase::RecordCommitted;
            &&& early ==> found_exactly(found.helper, helper) && found_exactly(
                found.pointer,
                pointer,
            ) && !found.helper_backup_exists && !found.pointer_backup_exists && !found.stage_exists
            &&& moving ==> (found_exactly(found.helper, helper) && !found.helper_backup_exists)
                || found_exactly(found.helper_backup, helper)
            &&& moving ==> (found_exactly(found.pointer, pointer)) || found_exactly(
                found.pointer_backup,
                pointer,
            )
            &&& !early && !moving ==> t.new_helper_snapshot is Some && t.new_pointer_snapshot
                is Some && found_exactly(found.helper, opt_file(t.new_helper_snapshot))
                && found_exactly(found.pointer, opt_file(t.new_pointer_snapshot))
            &&& !early && !moving && !committed ==> found_exactly(found.helper_backup, helper)
                && found_exactly(found.pointer_backup, pointer)
            &&& committed ==> (found.helper_backup is Absent || found_exactly(
                found.helper_backup,
                helper,
            )) && (found.pointer_backup is Absent || found_exactly(found.pointer_backup, pointer))
            &&& !early && !moving && t.plugin_stage_snapshot is None ==> !found.stage_exists
            &&& moving && t.phase != TransactionPhase::PluginPublishing ==> found.stage_exists
        }),
{
}

/// The settings of Pi are those of before until Pi may have changed them, and those with
/// the new package once it has; where Pi was not there they stay those of before. Other
/// settings are never taken for either.
pub proof fn law_the_settings_are_of_one_end(
    t: InstallTransaction,
    path: Seq<u8>,
    current: Seq<JsonView>,
)
    requires
        pi_state_failure(t, path, current) is None,
    ensures
        ({
            let prior = json_views(t.prior_pi_entries@);
            let finished = post_entries(prior, opt_json(t.prior_owned_pi_entry), t.new_pi_entry@);
            let late = t.phase == TransactionPhase::RescuePublishing || t.phase
                == TransactionPhase::RecordCommitting || t.phase
                == TransactionPhase::RecordRenaming || t.phase == TransactionPhase::RecordCommitted;
            &&& parts(path) == parts(t.pi_config_path@)
            &&& t.phase == TransactionPhase::PiMutated ==> same_entries(current, finished)
            &&& late ==> t.new_record is Some && (t.new_record->0.state == InstallState::Ready
                || t.new_record->0.state == InstallState::PiAdapterPending)
            &&& late && t.new_record->0.state == InstallState::Ready ==> same_entries(
                current,
                finished,
            )
            &&& late && t.new_record->0.state == InstallState::PiAdapterPending ==> same_entries(
                current,
                prior,
            )
            &&& !late && t.phase != TransactionPhase::PiMutated && t.phase
                != TransactionPhase::PiMutating ==> same_entries(current, prior)
            &&& t.phase == TransactionPhase::PiMutating ==> same_entries(current, prior) || (exists|
                e: JsonView,
            |
                #![trigger with_entry(prior, e)]
                allowed_entries(t.pi_config_path@, child(t.generation@, "pi"@)) is Ok
                    && allowed_entries(
                    t.pi_config_path@,
                    child(t.generation@, "pi"@),
                )->Ok_0.contains(e) && (same_entries(current, with_entry(prior, e)) || same_entries(
                    current,
                    post_entries(prior, opt_json(t.prior_owned_pi_entry), e),
                )))
        }),
{
    let prior = json_views(t.prior_pi_entries@);
    let candidates = allowed_entries(t.pi_config_path@, child(t.generation@, "pi"@))->Ok_0;
    if t.phase == TransactionPhase::PiMutating && !same_entries(current, prior) {
        let complete = some_entry_leads_to(t, current, candidates, true);
        let i = choose|i: int|
            0 <= i < candidates.len() && same_entries(
                current,
                entries_with_candidate(t, #[trigger] candidates[i], complete),
            );
        let e = candidates[i];
        assert(candidates.contains(e));
        assert(same_entries(current, entries_with_candidate(t, e, complete)));
        assert(with_entry(prior, e) == with_entry(prior, e));
    }
}

/// The generation of before stays as it was recorded until the installation is committed;
/// only then may it be gone, where the new one is another. One that was removed before
/// stays gone.
pub proof fn law_the_generation_of_before_is_kept(t: InstallTransaction, found: PriorGenerationFound)
    requires
        prior_generation_state_failure(t, found) is None,
        t.prior_record is Some,
    ensures
        ({
            let prior = t.prior_record->0@;
            let generation = parent(prior.pi_package_source)->0;
            let elsewhere = parts(generation) != parts(t.generation@);
            &&& prior.state == InstallState::Removed ==> !found.present || !elsewhere
            &&& prior.state != InstallState::Removed && !found.present ==> elsewhere && t.phase
                == TransactionPhase::RecordCommitted
            &&& prior.state != InstallState::Removed && found.present
                ==> t.prior_generation_snapshot is Some && found.tree is Ok && same_snapshot(
                found.tree->Ok_0@,
                t.prior_generation_snapshot->0@,
            )
        }),
{
}

/// The new generation that is found is the one that was planned: a stage is the recorded
/// one with the planned digests, while it is being published and nothing is there yet; one
/// that is in place has exactly the planned files, the planned digests and the files that
/// were staged; and it may be missing only as long as the installation was to make it.
pub proof fn law_the_new_generation_is_the_planned_one(t: InstallTransaction, found: GenerationFound)
    requires
        generation_state_failure(t, found) is None,
    ensures
        found.stage_exists ==> t.phase == TransactionPhase::GenerationPublishing && !found.exists
            && t.generation_stage_snapshot is Some && found.stage_tree is Ok && same_snapshot(
            found.stage_tree->Ok_0@,
            t.generation_stage_snapshot->0@,
        ) && found.stage_binary is Ok && found.stage_binary->Ok_0@ == t.broker_digest@
            && found.stage_package is Ok && found.stage_package->Ok_0@ == t.pi_package_digest@,
        !found.stage_exists && !found.present ==> t.generation_created && (t.phase
            == TransactionPhase::Intent || t.phase == TransactionPhase::GenerationPublishing),
        !found.stage_exists && found.present ==> found.directory is Ok && found.files is Ok
            && all_parts(path_views(found.files->Ok_0@)) == all_parts(
            planned_order(path_views(t.generation_files@)),
        ) && found.binary is Ok && found.binary->Ok_0@ == t.broker_digest@ && found.package is Ok
            && found.package->Ok_0@ == t.pi_package_digest@,
        !found.stage_exists && found.present && t.generation_stage_snapshot is Some ==> forall|
            i: int,
        |
            0 <= i < t.generation_stage_snapshot->0@.files.len() ==> found_exactly(
                found.published@[i],
                Some(#[trigger] t.generation_stage_snapshot->0@.files[i]),
            ),
        !found.stage_exists && found.present ==> forall|i: int|
            0 <= i < found.file_checks@.len() ==> (#[trigger] found.file_checks@[i]) is Ok,
        prior_generation_state_failure(t, found.prior) is None,
{
    if !found.stage_exists && found.present {
        law_checks_all_hold(found.file_checks@);
    }
}

/// A list of checks is passed exactly where each of them is; otherwise it fails as the
/// first of them that fails.
pub proof fn law_checks_all_hold(checks: Seq<ManagedResult<()>>)
    ensures
        first_failure(checks) is None <==> forall|i: int|
            0 <= i < checks.len() ==> (#[trigger] checks[i]) is Ok,
        first_failure(checks) is Some ==> exists|k: int|
            #![trigger checks[k]]
            0 <= k < checks.len() && checks[k] is Err && first_failure(checks) == Some(
                checks[k]->Err_0@,
            ) && (forall|j: int| 0 <= j < k ==> (#[trigger] checks[j]) is Ok),
    decreases checks.len(),
{
    if checks.len() > 0 {
        let front = checks.drop_last();
        law_checks_all_hold(front);
        if first_failure(front) is None {
            assert forall|j: int| 0 <= j < checks.len() - 1 implies (#[trigger] checks[j]) is Ok by {
                assert(front[j] == checks[j]);
            }
            let last = checks[checks.len() - 1];
            assert(last == checks.last());
            if first_failure(checks) is None {
                assert(last is Ok);
            }
        } else {
            let k = choose|k: int|
                #![trigger front[k]]
                0 <= k < front.len() && front[k] is Err && first_failure(front) == Some(
                    front[k]->Err_0@,
                ) && (forall|j: int| 0 <= j < k ==> (#[trigger] front[j]) is Ok);
            assert(checks[k] == front[k]);
            assert forall|j: int| 0 <= j < k implies (#[trigger] checks[j]) is Ok by {
                assert(front[j] == checks[j]);
            }
        }
    }
}

/// A journal that is read keeps its package entry, except one that was written in the
/// middle of a change of the settings with the absolute path: that one is made the entry
/// by which the package is named today.
pub proof fn law_only_absolute_entries_are_made_relative(t: InstallTransaction)
    requires
        normalized_entry(t) is Ok,
    ensures
        ({
            let source = child(t.generation@, "pi"@);
            let absolute = t.new_pi_entry@ == JsonView::Text(decode_utf8(source));
            let midway = t.phase == TransactionPhase::PiMutating && t.new_record is None;
            &&& !(absolute && midway) ==> normalized_entry(t)->Ok_0 == t.new_pi_entry@
            &&& absolute && midway ==> Ok::<JsonView, Failure>(normalized_entry(t)->Ok_0)
                == relative_entry(t.pi_config_path@, source)
            &&& absolute && !midway && t.new_record is None ==> t.phase
                == TransactionPhase::PiMutated
        }),
{
}

/// Journals of the current schema and of the one before are read, and no others. Reading
/// changes nothing of a journal but the entry of Pi.
pub proof fn law_read_journals_differ_in_the_entry_alone(
    t: InstallTransaction,
    n: InstallTransaction,
)
    ensures
        schema_known(t) <==> t.schema_version == 2 || t.schema_version == 3,
        with_normalized_entry(t, n) ==> t == (InstallTransaction {
            new_pi_entry: t.new_pi_entry,
            ..n
        }) && normalized_entry(t) is Ok && n.new_pi_entry@ == normalized_entry(t)->Ok_0,
{
}

/// The plugin stage holds what is left to be published just when it was recorded, is there,
/// and is, as a tree, the recorded one with those files alone that are still to go out.
pub proof fn law_the_stage_holds_what_is_left(
    t: InstallTransaction,
    found: PluginFound,
    helper: bool,
    pointer: bool,
    f: StageFileView,
)
    ensures
        stage_is(t, found, helper, pointer) <==> (t.plugin_stage_snapshot is Some
            && found.stage_exists && live_tree_failure(
            t.plugin_stage@,
            stage_subset(t, t.plugin_stage_snapshot->0@, helper, pointer),
            found.stage_tree,
        ) is None),
        stage_subset(t, t.plugin_stage_snapshot->0@, helper, pointer).files.contains(f) <==> (
        t.plugin_stage_snapshot->0@.files.contains(f) && ((helper && parts(f.path) == parts(
            child(t.plugin_stage@, "libexec/herdr-a2a-dispatch"@),
        )) || (pointer && parts(f.path) == parts(child(t.plugin_stage@, "stable-bin-path"@))))),
        stage_subset(t, t.plugin_stage_snapshot->0@, helper, pointer).directories
            == t.plugin_stage_snapshot->0@.directories,
        stage_residual(t, found) <==> (if t.plugin_stage_snapshot is None {
            !found.stage_exists
        } else {
            stage_is(t, found, false, false)
        }),
{
    lemma_filter_has(
        t.plugin_stage_snapshot->0@.files,
        unpublished(t.plugin_stage@, helper, pointer),
        f,
    );
}

/// The publication of the plugin files goes through five states: nothing moved; the helper
/// backed up; both backed up; the helper published; both published. In each of them the
/// stage holds what is not published yet.
pub proof fn law_plugin_files_go_through_five_states(t: InstallTransaction, found: PluginFound)
    ensures
        ({
            let helper = opt_file(t.prior_helper_snapshot);
            let pointer = opt_file(t.prior_pointer_snapshot);
            let stage = t.plugin_stage_snapshot->0@;
            let new_helper = staged_at(stage, child(t.plugin_stage@, "libexec/herdr-a2a-dispatch"@));
            let new_pointer = staged_at(stage, child(t.plugin_stage@, "stable-bin-path"@));
            let helper_out = t.plugin_stage_snapshot is Some && new_helper is Some && found_exactly(
                found.helper,
                new_helper,
            );
            let pointer_out = t.plugin_stage_snapshot is Some && new_pointer is Some
                && found_exactly(found.pointer, new_pointer);
            &&& plugin_step(t, found, 0) <==> found_exactly(found.helper, helper) && found_exactly(
                found.pointer,
                pointer,
            ) && !found.helper_backup_exists && !found.pointer_backup_exists && stage_is(
                t,
                found,
                true,
                true,
            )
            &&& plugin_step(t, found, 1) <==> found.helper is Absent && found_exactly(
                found.helper_backup,
                helper,
            ) && found_exactly(found.pointer, pointer) && found.pointer_backup is Absent
                && stage_is(t, found, true, true)
            &&& plugin_step(t, found, 2) <==> found.helper is Absent && found_exactly(
                found.helper_backup,
                helper,
            ) && found.pointer is Absent && found_exactly(found.pointer_backup, pointer)
                && stage_is(t, found, true, true)
            &&& plugin_step(t, found, 3) <==> helper_out && found_exactly(
                found.helper_backup,
                helper,
            ) && found.pointer is Absent && found_exactly(found.pointer_backup, pointer)
                && stage_is(t, found, false, true)
            &&& plugin_step(t, found, 4) <==> helper_out && pointer_out && found_exactly(
                found.helper_backup,
                helper,
            ) && found_exactly(found.pointer_backup, pointer) && stage_is(t, found, false, false)
        }),
{
    law_a_found_file_is_the_recorded_one(found.helper, None);
    law_a_found_file_is_the_recorded_one(found.pointer, None);
    law_a_found_file_is_the_recorded_one(found.pointer_backup, None);
}

/// Each phase of a journal allows the states between which its step leads, and no others:
/// before the plugin files are touched, nothing is moved or staged; afterwards they are all
/// published, and once the record is committed the backups and the stage may be gone.
pub proof fn law_phases_allow_the_states_of_their_step(t: InstallTransaction, found: PluginFound)
    ensures
        ({
            let ok = plugin_state_ok(t, found);
            let helper = opt_file(t.prior_helper_snapshot);
            let pointer = opt_file(t.prior_pointer_snapshot);
            let untouched = found_exactly(found.helper, helper) && found_exactly(
                found.pointer,
                pointer,
            ) && !found.helper_backup_exists && !found.pointer_backup_exists && !found.stage_exists;
            let published = t.new_helper_snapshot is Some && t.new_pointer_snapshot is Some
                && found_exactly(found.helper, opt_file(t.new_helper_snapshot)) && found_exactly(
                found.pointer,
                opt_file(t.new_pointer_snapshot),
            );
            &&& t.phase is Intent || t.phase is GenerationPublishing || t.phase
                is GenerationPublished ==> (ok <==> untouched)
            &&& t.phase is PluginPublishing ==> (ok <==> (t.plugin_stage_snapshot is None
                && untouched) || plugin_step(t, found, 0))
            &&& t.phase is PluginBackingUpHelper ==> (ok <==> plugin_step(t, found, 0)
                || plugin_step(t, found, 1))
            &&& t.phase is PluginBackingUpPointer ==> (ok <==> plugin_step(t, found, 1)
                || plugin_step(t, found, 2))
            &&& t.phase is PluginPublishingHelper ==> (ok <==> plugin_step(t, found, 2)
                || plugin_step(t, found, 3))
            &&& t.phase is PluginPublishingPointer ==> (ok <==> plugin_step(t, found, 3)
                || plugin_step(t, found, 4))
            &&& t.phase is PluginPublished || t.phase is PiMutating || t.phase is PiMutated
                || t.phase is RescuePublishing || t.phase is RecordCommitting || t.phase
                is RecordRenaming ==> (ok <==> published && found_exactly(
                found.helper_backup,
                helper,
            ) && found_exactly(found.pointer_backup, pointer) && stage_residual(t, found))
            &&& t.phase is RecordCommitted ==> (ok <==> published && found_or_absent(
                found.helper_backup,
                helper,
            ) && found_or_absent(found.pointer_backup, pointer) && (!found.stage_exists
                || stage_is(t, found, false, false)))
        }),
{
}

/// The settings of Pi are accepted just where they are what the phase can have left: those
/// of before until Pi is asked, those of before with a candidate, alone or for the owned one,
/// while it is, and those after once it was.
pub proof fn law_settings_are_what_the_phase_leaves(
    t: InstallTransaction,
    current: Seq<JsonView>,
    candidates: Seq<JsonView>,
)
    ensures
        ({
            let ok = pi_state_ok(t, current, candidates);
            let before = json_views(t.prior_pi_entries@);
            let owned = opt_json(t.prior_owned_pi_entry);
            let prior = same_entries(current, before);
            let post = same_entries(current, post_entries(before, owned, t.new_pi_entry@));
            &&& t.phase is PiMutating ==> (ok <==> prior || exists|i: int|
                #![trigger candidates[i]]
                0 <= i < candidates.len() && (same_entries(current, with_entry(before, candidates[i]))
                    || same_entries(current, post_entries(before, owned, candidates[i]))))
            &&& t.phase is PiMutated ==> (ok <==> post)
            &&& t.phase is RescuePublishing || t.phase is RecordCommitting || t.phase
                is RecordRenaming || t.phase is RecordCommitted ==> (ok <==> t.new_record is Some && (
            (t.new_record->0.state is Ready && post) || (t.new_record->0.state is PiAdapterPending
                && prior)))
            &&& !(t.phase is PiMutating || t.phase is PiMutated || t.phase is RescuePublishing
                || t.phase is RecordCommitting || t.phase is RecordRenaming || t.phase
                is RecordCommitted) ==> (ok <==> prior)
        }),
{
    let before = json_views(t.prior_pi_entries@);
    let owned = opt_json(t.prior_owned_pi_entry);
    if t.phase is PiMutating {
        if exists|i: int|
            #![trigger candidates[i]]
            0 <= i < candidates.len() && (same_entries(current, with_entry(before, candidates[i]))
                || same_entries(current, post_entries(before, owned, candidates[i]))) {
            let i = choose|i: int|
                #![trigger candidates[i]]
                0 <= i < candidates.len() && (same_entries(
                    current,
                    with_entry(before, candidates[i]),
                ) || same_entries(current, post_entries(before, owned, candidates[i])));
            assert(entries_with_candidate(t, candidates[i], false) == with_entry(
                before,
                candidates[i],
            ));
            assert(entries_with_candidate(t, candidates[i], true) == post_entries(
                before,
                owned,
                candidates[i],
            ));
        }
    }
}

/// The record on disk is accepted just where it is the one of before until it may be
/// renamed, either while it may be, and the new one once it is committed. An older journal
/// over a live installation that keeps no rescue files may rename while it commits.
pub proof fn law_records_are_what_the_phase_leaves(
    t: InstallTransaction,
    current: Option<RecordView>,
)
    ensures
        ({
            let prior = same_opt_record(current, opt_record(t.prior_record));
            let new = same_opt_record(current, opt_record(t.new_record));
            let early = t.phase is RecordCommitting && t.schema_version == 2 && live_prior(t)
                is Some && t.new_record is Some && t.prior_rescue_notice is None
                && t.prior_rescue_marker is None;
            &&& t.phase is RecordCommitted ==> (live_record_ok(t, current) <==> new)
            &&& t.phase is RecordRenaming || early ==> (live_record_ok(t, current) <==> prior
                || new)
            &&& !(t.phase is RecordCommitted || t.phase is RecordRenaming || early) ==> (
            live_record_ok(t, current) <==> prior)
        }),
{
}

/// A generation that is not there is accepted just in the first two phases, where it is
/// newly made; its stage just while it is published, as the recorded tree with the planned
/// digests; and in place, just as a safe directory with the planned files, digests and
/// identities. The generation of before is accepted besides.
pub proof fn law_generations_are_what_the_phase_leaves(t: InstallTransaction, found: GenerationFound)
    ensures
        ({
            let ok = generation_state_failure(t, found) is None;
            let before = prior_generation_state_failure(t, found.prior) is None;
            &&& found.stage_exists ==> (ok <==> t.generation_stage_snapshot is Some && t.phase
                is GenerationPublishing && !found.exists && live_tree_failure(
                t.generation_stage@,
                t.generation_stage_snapshot->0@,
                found.stage_tree,
            ) is None && found.stage_binary is Ok && found.stage_binary->Ok_0@ == t.broker_digest@
                && found.stage_package is Ok && found.stage_package->Ok_0@ == t.pi_package_digest@
                && before)
            &&& !found.stage_exists && !found.present ==> (ok <==> (t.phase is Intent || t.phase
                is GenerationPublishing) && t.generation_created && before)
            &&& !found.stage_exists && found.present ==> (ok <==> found.directory is Ok
                && found.files is Ok && all_parts(path_views(found.files->Ok_0@)) == all_parts(
                planned_order(path_views(t.generation_files@)),
            ) && found.binary is Ok && found.binary->Ok_0@ == t.broker_digest@ && found.package is Ok
                && found.package->Ok_0@ == t.pi_package_digest@ && first_failure(
                found.file_checks@,
            ) is None && all_published(t, found) && before)
            &&& all_published(t, found) <==> (t.generation_stage_snapshot is Some ==> forall|i: int|
                0 <= i < t.generation_stage_snapshot->0@.files.len() ==> found_exactly(
                    found.published@[i],
                    Some(#[trigger] t.generation_stage_snapshot->0@.files[i]),
                ))
        }),
{
}

} // verus!
