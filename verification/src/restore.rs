//! The plans by which an interrupted installation is finished or undone.

use vstd::multiset::Multiset;
use vstd::prelude::*;
use vstd::string::*;
use crate::digest::{sha256_bytes, sha256_text};
use crate::error::{fail, failure, or_else, outcome, Failure, ManagedError, ManagedResult};
use crate::json::{has_json, json_encoded, json_views, opt_same_json, same_json, Json, JsonView};
use crate::layout::{
    marker_of, path_views, rescue_marker, rescue_marker_file, rescue_marker_path, rescue_notice,
    rescue_notice_path,
};
use crate::lists::{
    lemma_filter_alike, lemma_filter_has, lemma_filter_none, lemma_filter_parts, lemma_filter_sole,
    lemma_filter_twice, lemma_one_is_sole, none_of, sole,
};
use crate::path::{child, parent, parts, same_path, FsPath, PathPart};
use crate::pathset::all_parts;
use crate::pi::{
    contains_json, encodings, entry_allowed, entry_matches, entry_path,
    is_allowed_managed_pi_entry, law_equal_entries_lead_alike, leads_to, matching,
    matching_entries, opt_json, opt_path, pi_entry_matches_path, resolve_pi_entry_path,
    same_entries, same_json_multiset, PiSettings,
};
use crate::record::{
    opt_record, opt_records_equal, other_than, owned_for, record_owned_file, same_opt_record,
    same_record, without_path, InstallState, OwnedFile, OwnedFileView, OwnershipRecord, RecordView,
};
use crate::rollback::{
    forward_commit, found_exactly, is_predecessor_forward_commit, live_tree_failure,
    path_lists_equal, planned_order, plugin_stage_subset, plugin_state_ok, sorted_paths,
    stage_subset, validate_stage_snapshot_live, ObservedFile, PluginFound,
};
use crate::snapshot::{
    opt_file, opt_snapshot, relocate_stage_snapshot, relocation, same_snapshot, SnapshotView,
    StageFileView, StageSnapshot,
};
use crate::text::{text_bytes, text_eq, utf8};
use crate::transaction::{
    check_kept_rescue, directly_in, is_directly_in, kept_rescue_failure, live_prior,
    live_prior_record, marker_authenticated, prior_generation_failure,
    prior_rescue_marker_is_authenticated, unrecovered,
    validate_prior_generation_snapshot_semantics, InstallTransaction, TransactionPhase,
    LEGACY_TRANSACTION_SCHEMA, MAX_EVENT_BYTES,
};

verus! {

/// What an older journal from after the change of the settings left in the rescue
/// directory.
#[derive(Clone, Copy, Debug, PartialEq, Eq, Structural)]
pub enum LegacyPiMutatedRescueState {
    PublishedNew,
    LivePrior,
}

/// Tells what an older journal left in the rescue directory: exactly one of two
/// states must have been proved.
pub fn classify_legacy_pi_mutated_rescue_state(published_new: bool, live_prior: bool) -> (r:
    ManagedResult<LegacyPiMutatedRescueState>)
    ensures
        r is Ok == (published_new != live_prior),
        r is Ok ==> (r->Ok_0 == LegacyPiMutatedRescueState::PublishedNew) == published_new,
        published_new && live_prior ==> failure(r) == unrecovered(
            "legacy Pi transaction rescue state is ambiguous"@,
        ),
        !published_new && !live_prior ==> failure(r) == unrecovered(
            "legacy Pi transaction rescue state is not authenticated"@,
        ),
{
    match (published_new, live_prior) {
        (true, false) => Ok(LegacyPiMutatedRescueState::PublishedNew),
        (false, true) => Ok(LegacyPiMutatedRescueState::LivePrior),
        (true, true) => fail("recovery_needed", "legacy Pi transaction rescue state is ambiguous"),
        (false, false) => fail(
            "recovery_needed",
            "legacy Pi transaction rescue state is not authenticated",
        ),
    }
}

/// The rescue files of an installation, as they are to be written.
#[derive(Debug)]
pub struct PreparedRescueAssets {
    pub rescue: FsPath,
    pub notice: Vec<u8>,
    pub marker: FsPath,
    pub marker_bytes: Vec<u8>,
}

/// The mode and the digest of a safe regular file.
#[derive(Debug)]
pub struct FileDigest {
    pub mode: u32,
    pub sha256: String,
}

/// A safe file was found with a mode and a digest.
pub open spec fn digest_found(found: Option<FileDigest>, mode: u32, sha256: Seq<char>) -> bool {
    found is Some && found->0.mode == mode && found->0.sha256@ == sha256
}

/// Whether a safe file was found with a mode and a digest.
pub fn has_digest(found: &Option<FileDigest>, mode: u32, sha256: &str) -> (r: bool)
    ensures
        r == digest_found(*found, mode, sha256@),
{
    match found {
        Some(f) => f.mode == mode && text_eq(f.sha256.as_str(), sha256),
        None => false,
    }
}

/// What was found in the rescue directory. A file that is absent or unsafe has no
/// digest.
#[derive(Debug)]
pub struct RescueFound {
    pub files: ManagedResult<Vec<FsPath>>,
    pub notice: Option<FileDigest>,
    pub marker: Option<FileDigest>,
}

/// The two files of a rescue directory, in the order of their paths.
pub open spec fn rescue_pair(a: Seq<u8>, b: Seq<u8>) -> Seq<Seq<PathPart>> {
    all_parts(planned_order(seq![a, b]))
}

fn is_rescue_pair(files: &Vec<FsPath>, a: &FsPath, b: &FsPath) -> (r: bool)
    ensures
        r == (all_parts(path_views(files@)) == rescue_pair(a@, b@)),
{
    let mut pair: Vec<FsPath> = Vec::new();
    pair.push(a.copy());
    pair.push(b.copy());
    assert(path_views(pair@) =~= seq![a@, b@]);
    let ordered = sorted_paths(&pair);
    path_lists_equal(files, &ordered)
}

/// What is wrong with one published rescue file.
pub open spec fn published_file_failure(
    record: RecordView,
    path: Seq<u8>,
    bytes: Seq<u8>,
    found: Option<FileDigest>,
) -> Option<Failure> {
    match owned_for(record.owned_files, path) {
        None => unrecovered("predecessor rescue publication has no ownership entry"@),
        Some(owned) => if owned.mode != 0o600 || sha256_text(bytes) != owned.sha256
            || !digest_found(found, 0o600, owned.sha256) {
            unrecovered("predecessor rescue publication is not authenticated"@)
        } else {
            None
        },
    }
}

fn check_published_file(
    record: &OwnershipRecord,
    path: &FsPath,
    bytes: &Vec<u8>,
    found: &Option<FileDigest>,
) -> (r: ManagedResult<()>)
    ensures
        failure(r) == published_file_failure(record@, path@, bytes@, *found),
{
    let Some(owned) = record_owned_file(record, path) else {
        return fail(
            "recovery_needed",
            "predecessor rescue publication has no ownership entry",
        );
    };
    let digest = sha256_bytes(bytes.as_slice());
    if owned.mode != 0o600 || !text_eq(digest.as_str(), owned.sha256.as_str()) || !has_digest(
        found,
        0o600,
        owned.sha256.as_str(),
    ) {
        return fail("recovery_needed", "predecessor rescue publication is not authenticated");
    }
    Ok(())
}

/// What is wrong with rescue files that must be those a record was made for.
pub open spec fn published_rescue_failure(
    record: RecordView,
    expected: PreparedRescueAssets,
    found: RescueFound,
) -> Option<Failure> {
    match found.files {
        Err(e) => Some(e@),
        Ok(files) => if all_parts(path_views(files@)) != rescue_pair(
            expected.rescue@,
            expected.marker@,
        ) {
            unrecovered("predecessor rescue publication inventory is not exact"@)
        } else {
            or_else(
                published_file_failure(
                    record,
                    expected.rescue@,
                    expected.notice@,
                    found.notice,
                ),
                published_file_failure(
                    record,
                    expected.marker@,
                    expected.marker_bytes@,
                    found.marker,
                ),
            )
        },
    }
}

/// Checks rescue files that must be those a record was made for.
pub fn authenticate_published_rescue_assets(
    record: &OwnershipRecord,
    expected: &PreparedRescueAssets,
    found: &RescueFound,
) -> (r: ManagedResult<()>)
    ensures
        failure(r) == published_rescue_failure(record@, *expected, *found),
{
    let files = match &found.files {
        Ok(files) => files,
        Err(e) => {
            return Err(e.copy());
        },
    };
    if !is_rescue_pair(files, &expected.rescue, &expected.marker) {
        return fail("recovery_needed", "predecessor rescue publication inventory is not exact");
    }
    check_published_file(record, &expected.rescue, &expected.notice, &found.notice)?;
    check_published_file(record, &expected.marker, &expected.marker_bytes, &found.marker)
}

/// What is wrong with the bytes of a rescue file that a record vouches for.
pub open spec fn owned_bytes_failure(
    owned: OwnedFileView,
    bytes: ManagedResult<Vec<u8>>,
) -> Option<Failure> {
    match bytes {
        Err(e) => Some(e@),
        Ok(bytes) => if bytes@.len() > MAX_EVENT_BYTES {
            unrecovered("owned rescue asset exceeds its size limit"@)
        } else if sha256_text(bytes@) != owned.sha256 {
            unrecovered("owned rescue asset digest changed while it was read"@)
        } else {
            None
        },
    }
}

/// Checks the bytes of a rescue file that a record vouches for.
pub fn read_exact_owned_rescue_bytes(owned: &OwnedFile, bytes: &ManagedResult<Vec<u8>>) -> (r:
    ManagedResult<Vec<u8>>)
    ensures
        failure(r) == owned_bytes_failure(owned@, *bytes),
        r is Ok ==> *bytes is Ok && r->Ok_0@ == bytes->Ok_0@,
{
    match bytes {
        Err(e) => Err(e.copy()),
        Ok(bytes) => {
            if bytes.len() > MAX_EVENT_BYTES {
                return fail("recovery_needed", "owned rescue asset exceeds its size limit");
            }
            let digest = sha256_bytes(bytes.as_slice());
            if !text_eq(digest.as_str(), owned.sha256.as_str()) {
                return fail(
                    "recovery_needed",
                    "owned rescue asset digest changed while it was read",
                );
            }
            Ok(bytes.clone())
        },
    }
}

/// What stands in the way of keeping the rescue files of before.
pub open spec fn capture_failure(
    prior: RecordView,
    stable: Seq<u8>,
    notice: ManagedResult<Vec<u8>>,
    marker: ManagedResult<Vec<u8>>,
) -> Option<Failure> {
    match owned_for(prior.owned_files, rescue_notice(stable)) {
        None => unrecovered("prior record has no rescue notice"@),
        Some(prior_notice) => match owned_for(prior.owned_files, rescue_marker_file(stable)) {
            None => unrecovered("prior record has no rescue marker"@),
            Some(prior_marker) => or_else(
                owned_bytes_failure(prior_notice, notice),
                or_else(
                    owned_bytes_failure(prior_marker, marker),
                    if marker_authenticated(prior, prior_marker, marker->Ok_0@) {
                        None
                    } else {
                        unrecovered("prior rescue marker ownership is inconsistent"@)
                    },
                ),
            ),
        },
    }
}

/// Why the rescue files of before cannot be kept.
pub open spec fn uncaptured(
    prior: Option<RecordView>,
    stable: Seq<u8>,
    notice: ManagedResult<Vec<u8>>,
    marker: ManagedResult<Vec<u8>>,
) -> Option<Failure> {
    match prior {
        Some(record) if record.state != InstallState::Removed => capture_failure(
            record,
            stable,
            notice,
            marker,
        ),
        _ => None,
    }
}

/// Keeps the rescue files of before, where the installation of before is still
/// there.
pub fn capture_prior_rescue_assets(
    stable_root: &FsPath,
    prior: &Option<OwnershipRecord>,
    notice: &ManagedResult<Vec<u8>>,
    marker: &ManagedResult<Vec<u8>>,
) -> (r: ManagedResult<Option<(Vec<u8>, Vec<u8>)>>)
    ensures
        failure(r) == uncaptured(opt_record(*prior), stable_root@, *notice, *marker),
        r is Ok ==> (r->Ok_0 is Some) == (opt_record(*prior) is Some && prior->0.state
            != InstallState::Removed),
        r is Ok && r->Ok_0 is Some ==> (r->Ok_0->0).0@ == notice->Ok_0@ && (r->Ok_0->0).1@
            == marker->Ok_0@,
{
    let prior = match prior {
        Some(record) => record,
        None => {
            return Ok(None);
        },
    };
    if prior.state == InstallState::Removed {
        return Ok(None);
    }
    let Some(prior_notice) = record_owned_file(prior, &rescue_notice_path(stable_root)) else {
        return fail("recovery_needed", "prior record has no rescue notice");
    };
    let Some(prior_marker) = record_owned_file(prior, &rescue_marker_path(stable_root)) else {
        return fail("recovery_needed", "prior record has no rescue marker");
    };
    let notice = read_exact_owned_rescue_bytes(prior_notice, notice)?;
    let marker = read_exact_owned_rescue_bytes(prior_marker, marker)?;
    if !prior_rescue_marker_is_authenticated(prior, prior_marker, marker.as_slice()) {
        return fail("recovery_needed", "prior rescue marker ownership is inconsistent");
    }
    Ok(Some((notice, marker)))
}

/// What is wrong with rescue files that must be those of before.
pub open spec fn live_rescue_failure(
    stable: Seq<u8>,
    prior: RecordView,
    files: ManagedResult<Vec<FsPath>>,
    notice: ManagedResult<Vec<u8>>,
    marker: ManagedResult<Vec<u8>>,
) -> Option<Failure> {
    match files {
        Err(e) => Some(e@),
        Ok(files) => if all_parts(path_views(files@)) != rescue_pair(
            rescue_notice(stable),
            rescue_marker_file(stable),
        ) {
            unrecovered("legacy Pi transaction prior rescue inventory is not exact"@)
        } else if prior.state == InstallState::Removed {
            None
        } else {
            capture_failure(prior, stable, notice, marker)
        },
    }
}

/// Checks rescue files that must be those of before.
pub fn authenticate_live_prior_rescue_assets(
    stable_root: &FsPath,
    prior: &OwnershipRecord,
    files: &ManagedResult<Vec<FsPath>>,
    notice: &ManagedResult<Vec<u8>>,
    marker: &ManagedResult<Vec<u8>>,
) -> (r: ManagedResult<()>)
    ensures
        failure(r) == live_rescue_failure(stable_root@, prior@, *files, *notice, *marker),
{
    let files = match files {
        Ok(files) => files,
        Err(e) => {
            return Err(e.copy());
        },
    };
    let notice_at = rescue_notice_path(stable_root);
    let marker_at = rescue_marker_path(stable_root);
    if !is_rescue_pair(files, &notice_at, &marker_at) {
        return fail(
            "recovery_needed",
            "legacy Pi transaction prior rescue inventory is not exact",
        );
    }
    let captured = capture_prior_rescue_assets(stable_root, &Some(prior.copy()), notice, marker);
    match captured {
        Ok(_) => Ok(()),
        Err(e) => Err(e),
    }
}

/// What is to be done with the rescue directory when an installation is undone.
#[derive(Debug)]
pub enum RescueRestore {
    /// Nothing was published there.
    Untouched,
    /// An older journal may have published there without saying so.
    Predecessor,
    /// There was none before: these files go, and then the directory.
    Retire(Vec<OwnedFile>),
    /// The files of before are in place.
    Keep,
    /// The files of before are to be written again.
    Rewrite { notice: Vec<u8>, marker: Vec<u8> },
}

/// What is to be done with the rescue directory.
pub enum RestoreView {
    Untouched,
    Predecessor,
    Retire(Seq<OwnedFileView>),
    Keep,
    Rewrite { notice: Seq<u8>, marker: Seq<u8> },
}

impl View for RescueRestore {
    type V = RestoreView;

    open spec fn view(&self) -> RestoreView {
        match self {
            RescueRestore::Untouched => RestoreView::Untouched,
            RescueRestore::Predecessor => RestoreView::Predecessor,
            RescueRestore::Retire(files) => RestoreView::Retire(
                crate::record::owned_views(files@),
            ),
            RescueRestore::Keep => RestoreView::Keep,
            RescueRestore::Rewrite { notice, marker } => RestoreView::Rewrite {
                notice: notice@,
                marker: marker@,
            },
        }
    }
}

/// A file that was found is the one that a record vouches for.
pub open spec fn vouched(record: Option<RecordView>, path: Seq<u8>, found: Option<FileDigest>) -> bool {
    record is Some && owned_for(record->0.owned_files, path) is Some && digest_found(
        found,
        owned_for(record->0.owned_files, path)->0.mode,
        owned_for(record->0.owned_files, path)->0.sha256,
    )
}

fn is_vouched(record: Option<&OwnershipRecord>, path: &FsPath, found: &Option<FileDigest>) -> (r:
    bool)
    ensures
        r == vouched(
            match record {
                Some(r) => Some(r@),
                None => None,
            },
            path@,
            *found,
        ),
{
    match record {
        Some(record) => match record_owned_file(record, path) {
            Some(owned) => has_digest(found, owned.mode, owned.sha256.as_str()),
            None => false,
        },
        None => false,
    }
}

/// A list has a path.
pub open spec fn lists(paths: Seq<Seq<u8>>, p: Seq<u8>) -> bool {
    all_parts(paths).contains(parts(p))
}

fn path_listed(paths: &Vec<FsPath>, p: &FsPath) -> (r: bool)
    ensures
        r == lists(path_views(paths@), p@),
{
    let ghost all = all_parts(path_views(paths@));
    let mut i: usize = 0;
    while i < paths.len()
        invariant
            i <= paths.len(),
            all == all_parts(path_views(paths@)),
            forall|k: int| 0 <= k < i ==> #[trigger] all[k] != parts(p@),
        decreases paths.len() - i,
    {
        assert(all[i as int] == parts(paths@[i as int]@));
        if paths[i].same(p) {
            return true;
        }
        i += 1;
    }
    false
}

/// What is wrong with the files that were found in the rescue directory when an
/// installation is undone.
pub open spec fn rollback_inventory_failure(
    t: InstallTransaction,
    stable: Seq<u8>,
    live: Seq<Seq<u8>>,
    found: RescueFound,
) -> Option<Failure> {
    let notice = rescue_notice(stable);
    let marker = rescue_marker_file(stable);
    if (exists|i: int|
        0 <= i < live.len() && !same_path(#[trigger] live[i], notice) && !same_path(
            live[i],
            marker,
        )) || (live_prior(t) is Some && live.len() != 2) {
        unrecovered("rescue rollback inventory is not exact"@)
    } else if (lists(live, notice) && !vouched(opt_record(t.prior_record), notice, found.notice)
        && !vouched(opt_record(t.new_record), notice, found.notice)) || (lists(live, marker)
        && !vouched(opt_record(t.prior_record), marker, found.marker) && !vouched(
        opt_record(t.new_record),
        marker,
        found.marker,
    )) {
        unrecovered("rescue rollback encountered an unauthenticated file"@)
    } else {
        None
    }
}

/// The entries of the new record for the files that were found: marker first.
pub open spec fn retired(new_record: RecordView, stable: Seq<u8>, live: Seq<Seq<u8>>) -> Result<
    Seq<OwnedFileView>,
    Failure,
> {
    let marker = rescue_marker_file(stable);
    let notice = rescue_notice(stable);
    let missing = ("recovery_needed"@, "new record has no rescue rollback entry"@);
    let first = if !lists(live, marker) {
        Some(Seq::<OwnedFileView>::empty())
    } else {
        match owned_for(new_record.owned_files, marker) {
            Some(owned) => Some(seq![owned]),
            None => None,
        }
    };
    match first {
        None => Err(missing),
        Some(first) => if !lists(live, notice) {
            Ok(first)
        } else {
            match owned_for(new_record.owned_files, notice) {
                Some(owned) => Ok(first.push(owned)),
                None => Err(missing),
            }
        },
    }
}

/// The rescue files of before: those the journal keeps or, in the last phases of
/// an older journal, those that can be made again.
pub open spec fn bytes_of_before(
    t: InstallTransaction,
    prior: RecordView,
    stable: Seq<u8>,
    source_notice: ManagedResult<Vec<u8>>,
) -> Result<(Seq<u8>, Seq<u8>), Failure> {
    match (t.prior_rescue_notice, t.prior_rescue_marker) {
        (Some(notice), Some(marker)) => Ok((notice@, marker@)),
        (None, None) => if t.phase == TransactionPhase::RecordCommitting || t.phase
            == TransactionPhase::RecordRenaming {
            remade_rescue(prior, stable, source_notice)
        } else {
            Err(
                (
                    "recovery_needed"@,
                    "transaction has no authenticated prior rescue snapshot"@,
                ),
            )
        },
        _ => Err(
            (
                "recovery_needed"@,
                "transaction has no authenticated prior rescue snapshot"@,
            ),
        ),
    }
}

/// The record of before without the entry of its marker.
pub open spec fn unmarked(prior: RecordView, stable: Seq<u8>) -> RecordView {
    RecordView {
        owned_files: other_than(prior.owned_files, rescue_marker_file(stable)),
        ..prior
    }
}

/// The rescue files of a record, made again from the plugin's notice.
pub open spec fn remade_rescue(
    prior: RecordView,
    stable: Seq<u8>,
    source_notice: ManagedResult<Vec<u8>>,
) -> Result<(Seq<u8>, Seq<u8>), Failure> {
    match source_notice {
        Err(e) => Err(e@),
        Ok(notice) => match marker_of(unmarked(prior, stable), stable) {
            Err(f) => Err(f),
            Ok(text) => Ok((notice@, utf8(text))),
        },
    }
}

/// The two files of before are in place.
pub open spec fn prior_in_place(
    prior_notice: OwnedFileView,
    prior_marker: OwnedFileView,
    found: RescueFound,
) -> bool {
    digest_found(found.notice, prior_notice.mode, prior_notice.sha256) && digest_found(
        found.marker,
        prior_marker.mode,
        prior_marker.sha256,
    )
}

/// What is to be done where the installation of before had rescue files.
pub open spec fn restore_prior(
    t: InstallTransaction,
    prior: RecordView,
    stable: Seq<u8>,
    live: Seq<Seq<u8>>,
    found: RescueFound,
    source_notice: ManagedResult<Vec<u8>>,
) -> Result<RestoreView, Failure> {
    match owned_for(prior.owned_files, rescue_notice(stable)) {
        None => Err(("recovery_needed"@, "prior record has no rescue notice"@)),
        Some(prior_notice) => match owned_for(prior.owned_files, rescue_marker_file(stable)) {
            None => Err(("recovery_needed"@, "prior record has no rescue marker"@)),
            Some(prior_marker) => if live.len() == 2 && prior_in_place(
                prior_notice,
                prior_marker,
                found,
            ) {
                Ok(RestoreView::Keep)
            } else {
                match bytes_of_before(t, prior, stable, source_notice) {
                    Err(f) => Err(f),
                    Ok(bytes) => match kept_rescue_failure(
                        prior,
                        stable,
                        bytes.0,
                        bytes.1,
                        unrecovered("prior rescue snapshot cannot be restored exactly"@),
                    ) {
                        Some(f) => Err(f),
                        None => Ok(RestoreView::Rewrite { notice: bytes.0, marker: bytes.1 }),
                    },
                }
            },
        },
    }
}

/// What is to be done with the rescue directory when an installation is undone.
pub open spec fn restore_plan(
    t: InstallTransaction,
    stable: Seq<u8>,
    found: RescueFound,
    source_notice: ManagedResult<Vec<u8>>,
) -> Result<RestoreView, Failure> {
    match opt_record(t.new_record) {
        None => if t.schema_version == LEGACY_TRANSACTION_SCHEMA && t.phase
            == TransactionPhase::PiMutating && t.prior_record is Some {
            Ok(RestoreView::Predecessor)
        } else {
            Ok(RestoreView::Untouched)
        },
        Some(new_record) => match found.files {
            Err(e) => Err(e@),
            Ok(files) => {
                let live = path_views(files@);
                match rollback_inventory_failure(t, stable, live, found) {
                    Some(f) => Err(f),
                    None => match live_prior(t) {
                        None => match retired(new_record, stable, live) {
                            Err(f) => Err(f),
                            Ok(files) => Ok(RestoreView::Retire(files)),
                        },
                        Some(prior) => restore_prior(
                            t,
                            prior,
                            stable,
                            live,
                            found,
                            source_notice,
                        ),
                    },
                }
            },
        },
    }
}

fn check_rollback_inventory(
    t: &InstallTransaction,
    stable_root: &FsPath,
    live: &Vec<FsPath>,
    found: &RescueFound,
) -> (r: ManagedResult<()>)
    ensures
        failure(r) == rollback_inventory_failure(*t, stable_root@, path_views(live@), *found),
{
    let notice = rescue_notice_path(stable_root);
    let marker = rescue_marker_path(stable_root);
    let ghost views = path_views(live@);
    let mut i: usize = 0;
    while i < live.len()
        invariant
            i <= live.len(),
            views == path_views(live@),
            notice@ == rescue_notice(stable_root@),
            marker@ == rescue_marker_file(stable_root@),
            forall|k: int|
                0 <= k < i ==> same_path(#[trigger] views[k], notice@) || same_path(
                    views[k],
                    marker@,
                ),
        decreases live.len() - i,
    {
        assert(views[i as int] == live@[i as int]@);
        if !live[i].same(&notice) && !live[i].same(&marker) {
            return fail("recovery_needed", "rescue rollback inventory is not exact");
        }
        i += 1;
    }
    assert(views.len() == live@.len());
    if live_prior_record(t).is_some() && live.len() != 2 {
        return fail("recovery_needed", "rescue rollback inventory is not exact");
    }
    if (path_listed(live, &notice) && !is_vouched(t.prior_record.as_ref(), &notice, &found.notice)
        && !is_vouched(t.new_record.as_ref(), &notice, &found.notice)) || (path_listed(
        live,
        &marker,
    ) && !is_vouched(t.prior_record.as_ref(), &marker, &found.marker) && !is_vouched(
        t.new_record.as_ref(),
        &marker,
        &found.marker,
    )) {
        return fail("recovery_needed", "rescue rollback encountered an unauthenticated file");
    }
    Ok(())
}

/// A result that holds a list of entries.
pub open spec fn owned_outcome(r: Result<Vec<OwnedFile>, ManagedError>) -> Result<
    Seq<OwnedFileView>,
    Failure,
> {
    match r {
        Ok(v) => Ok(crate::record::owned_views(v@)),
        Err(e) => Err(e@),
    }
}

fn retire_files(new_record: &OwnershipRecord, stable_root: &FsPath, live: &Vec<FsPath>) -> (r:
    ManagedResult<Vec<OwnedFile>>)
    ensures
        owned_outcome(r) == retired(new_record@, stable_root@, path_views(live@)),
{
    let marker = rescue_marker_path(stable_root);
    let notice = rescue_notice_path(stable_root);
    let mut files: Vec<OwnedFile> = Vec::new();
    assert(crate::record::owned_views(files@) =~= Seq::<OwnedFileView>::empty());
    if path_listed(live, &marker) {
        match record_owned_file(new_record, &marker) {
            Some(owned) => {
                files.push(owned.copy());
                assert(crate::record::owned_views(files@) =~= seq![owned@]);
            },
            None => {
                return fail("recovery_needed", "new record has no rescue rollback entry");
            },
        }
    }
    let ghost first = crate::record::owned_views(files@);
    if path_listed(live, &notice) {
        match record_owned_file(new_record, &notice) {
            Some(owned) => {
                files.push(owned.copy());
                assert(crate::record::owned_views(files@) =~= first.push(owned@));
            },
            None => {
                return fail("recovery_needed", "new record has no rescue rollback entry");
            },
        }
    }
    Ok(files)
}

/// Two byte strings or a failure.
pub open spec fn pair_outcome(r: Result<(Vec<u8>, Vec<u8>), ManagedError>) -> Result<
    (Seq<u8>, Seq<u8>),
    Failure,
> {
    match r {
        Ok(v) => Ok((v.0@, v.1@)),
        Err(e) => Err(e@),
    }
}

/// Makes the rescue files of a record again from the plugin's notice.
pub fn remake_rescue(
    prior: &OwnershipRecord,
    stable_root: &FsPath,
    source_notice: &ManagedResult<Vec<u8>>,
) -> (r: ManagedResult<(Vec<u8>, Vec<u8>)>)
    ensures
        pair_outcome(r) == remade_rescue(prior@, stable_root@, *source_notice),
{
    let notice = match source_notice {
        Ok(notice) => notice.clone(),
        Err(e) => {
            return Err(e.copy());
        },
    };
    let mut stripped = prior.copy();
    let kept = without_path(&prior.owned_files, &rescue_marker_path(stable_root));
    stripped.owned_files = kept;
    assert(stripped@ == unmarked(prior@, stable_root@));
    let text = rescue_marker(&stripped, stable_root)?;
    Ok((notice, text_bytes(text.as_str())))
}

fn find_bytes_of_before(
    t: &InstallTransaction,
    prior: &OwnershipRecord,
    stable_root: &FsPath,
    source_notice: &ManagedResult<Vec<u8>>,
) -> (r: ManagedResult<(Vec<u8>, Vec<u8>)>)
    ensures
        pair_outcome(r) == bytes_of_before(*t, prior@, stable_root@, *source_notice),
{
    match (&t.prior_rescue_notice, &t.prior_rescue_marker) {
        (Some(notice), Some(marker)) => Ok((notice.clone(), marker.clone())),
        (None, None) => {
            if t.phase == TransactionPhase::RecordCommitting || t.phase
                == TransactionPhase::RecordRenaming {
                return remake_rescue(prior, stable_root, source_notice);
            }
            fail("recovery_needed", "transaction has no authenticated prior rescue snapshot")
        },
        _ => fail("recovery_needed", "transaction has no authenticated prior rescue snapshot"),
    }
}

/// Plans what is to be done with the rescue directory when an installation is
/// undone. The files that were found are none where the directory is absent.
pub fn plan_rescue_restore(
    stable_root: &FsPath,
    t: &InstallTransaction,
    found: &RescueFound,
    source_notice: &ManagedResult<Vec<u8>>,
) -> (r: ManagedResult<RescueRestore>)
    ensures
        outcome(r) == restore_plan(*t, stable_root@, *found, *source_notice),
{
    let Some(new_record) = &t.new_record else {
        if t.schema_version == LEGACY_TRANSACTION_SCHEMA && t.phase == TransactionPhase::PiMutating
            && t.prior_record.is_some() {
            return Ok(RescueRestore::Predecessor);
        }
        return Ok(RescueRestore::Untouched);
    };
    let live = match &found.files {
        Ok(files) => files,
        Err(e) => {
            return Err(e.copy());
        },
    };
    check_rollback_inventory(t, stable_root, live, found)?;
    let Some(prior) = live_prior_record(t) else {
        let files = retire_files(new_record, stable_root, live)?;
        return Ok(RescueRestore::Retire(files));
    };
    let Some(prior_notice) = record_owned_file(prior, &rescue_notice_path(stable_root)) else {
        return fail("recovery_needed", "prior record has no rescue notice");
    };
    let Some(prior_marker) = record_owned_file(prior, &rescue_marker_path(stable_root)) else {
        return fail("recovery_needed", "prior record has no rescue marker");
    };
    assert(path_views(live@).len() == live@.len());
    if live.len() == 2 && has_digest(
        &found.notice,
        prior_notice.mode,
        prior_notice.sha256.as_str(),
    ) && has_digest(&found.marker, prior_marker.mode, prior_marker.sha256.as_str()) {
        return Ok(RescueRestore::Keep);
    }
    let (notice, marker) = find_bytes_of_before(t, prior, stable_root, source_notice)?;
    check_kept_rescue(
        prior,
        stable_root,
        notice.as_slice(),
        marker.as_slice(),
        "prior rescue snapshot cannot be restored exactly",
    )?;
    Ok(RescueRestore::Rewrite { notice, marker })
}

/// What is to be done with rescue files that an older journal may have published
/// without saying so.
pub open spec fn predecessor_plan(
    t: InstallTransaction,
    stable: Seq<u8>,
    found: RescueFound,
    interrupted: Option<Failure>,
    source_notice: ManagedResult<Vec<u8>>,
) -> Result<RestoreView, Failure> {
    match opt_record(t.prior_record) {
        None => Err(("recovery_needed"@, "predecessor Pi mutation has no prior ownership"@)),
        Some(prior) => if prior.state == InstallState::Removed {
            Err(
                (
                    "recovery_needed"@,
                    "predecessor Pi mutation cannot restore removed ownership"@,
                ),
            )
        } else {
            match owned_for(prior.owned_files, rescue_notice(stable)) {
                None => Err(("recovery_needed"@, "prior record has no rescue notice"@)),
                Some(prior_notice) => match owned_for(
                    prior.owned_files,
                    rescue_marker_file(stable),
                ) {
                    None => Err(("recovery_needed"@, "prior record has no rescue marker"@)),
                    Some(prior_marker) => if prior_in_place(prior_notice, prior_marker, found) {
                        Ok(RestoreView::Keep)
                    } else {
                        match interrupted {
                            Some(f) => Err(f),
                            None => match remade_rescue(prior, stable, source_notice) {
                                Err(f) => Err(f),
                                Ok(bytes) => match kept_rescue_failure(
                                    prior,
                                    stable,
                                    bytes.0,
                                    bytes.1,
                                    unrecovered(
                                        "predecessor prior rescue assets cannot be reconstructed exactly"@,
                                    ),
                                ) {
                                    Some(f) => Err(f),
                                    None => Ok(
                                        RestoreView::Rewrite {
                                            notice: bytes.0,
                                            marker: bytes.1,
                                        },
                                    ),
                                },
                            },
                        }
                    },
                },
            }
        },
    }
}

/// Plans what is to be done with rescue files that an older journal may have
/// published without saying so. What was found must be either the files of before
/// or, as `interrupted` tells, those of the interrupted installation.
pub fn restore_predecessor_pi_mutating_rescue(
    stable_root: &FsPath,
    t: &InstallTransaction,
    found: &RescueFound,
    interrupted: &ManagedResult<()>,
    source_notice: &ManagedResult<Vec<u8>>,
) -> (r: ManagedResult<RescueRestore>)
    ensures
        outcome(r) == predecessor_plan(
            *t,
            stable_root@,
            *found,
            failure(*interrupted),
            *source_notice,
        ),
{
    let Some(prior) = &t.prior_record else {
        return fail("recovery_needed", "predecessor Pi mutation has no prior ownership");
    };
    if prior.state == InstallState::Removed {
        return fail(
            "recovery_needed",
            "predecessor Pi mutation cannot restore removed ownership",
        );
    }
    let Some(prior_notice) = record_owned_file(prior, &rescue_notice_path(stable_root)) else {
        return fail("recovery_needed", "prior record has no rescue notice");
    };
    let Some(prior_marker) = record_owned_file(prior, &rescue_marker_path(stable_root)) else {
        return fail("recovery_needed", "prior record has no rescue marker");
    };
    if has_digest(&found.notice, prior_notice.mode, prior_notice.sha256.as_str()) && has_digest(
        &found.marker,
        prior_marker.mode,
        prior_marker.sha256.as_str(),
    ) {
        return Ok(RescueRestore::Keep);
    }
    match interrupted {
        Ok(_) => {},
        Err(e) => {
            return Err(e.copy());
        },
    }
    let (notice, marker) = remake_rescue(prior, stable_root, source_notice)?;
    check_kept_rescue(
        prior,
        stable_root,
        notice.as_slice(),
        marker.as_slice(),
        "predecessor prior rescue assets cannot be reconstructed exactly",
    )?;
    Ok(RescueRestore::Rewrite { notice, marker })
}

/// Rescue files are only ever written again where the record of before vouches
/// for exactly these bytes.
pub proof fn law_rewritten_rescue_is_vouched_for(
    t: InstallTransaction,
    stable: Seq<u8>,
    found: RescueFound,
    source_notice: ManagedResult<Vec<u8>>,
)
    requires
        restore_plan(t, stable, found, source_notice) is Ok,
        restore_plan(t, stable, found, source_notice)->Ok_0 is Rewrite,
    ensures
        ({
            let plan = restore_plan(t, stable, found, source_notice)->Ok_0;
            let prior = live_prior(t)->0;
            &&& live_prior(t) is Some
            &&& owned_for(prior.owned_files, rescue_notice(stable)) is Some
            &&& owned_for(prior.owned_files, rescue_marker_file(stable)) is Some
            &&& sha256_text(plan->notice) == owned_for(
                prior.owned_files,
                rescue_notice(stable),
            )->0.sha256
            &&& sha256_text(plan->marker) == owned_for(
                prior.owned_files,
                rescue_marker_file(stable),
            )->0.sha256
        }),
{
}

/// The entries that belong neither to the new package nor to the owned one of
/// before.
pub open spec fn unrelated_to(
    config: Seq<u8>,
    new_source: Seq<u8>,
    prior_source: Option<Seq<u8>>,
) -> spec_fn(JsonView) -> bool {
    |entry: JsonView|
        !entry_matches(entry, config, new_source) && !(prior_source is Some && entry_matches(
            entry,
            config,
            prior_source->0,
        ))
}

fn unrelated_entries(
    entries: &Vec<Json>,
    config: &FsPath,
    new_source: &FsPath,
    prior_source: &Option<FsPath>,
) -> (r: Vec<Json>)
    ensures
        json_views(r@) == json_views(entries@).filter(
            unrelated_to(config@, new_source@, opt_path(*prior_source)),
        ),
{
    let ghost views = json_views(entries@);
    let ghost keep = unrelated_to(config@, new_source@, opt_path(*prior_source));
    let mut out: Vec<Json> = Vec::new();
    let mut i: usize = 0;
    proof {
        reveal(Seq::filter);
        assert(json_views(out@) =~= views.take(0).filter(keep));
    }
    while i < entries.len()
        invariant
            i <= entries.len(),
            views == json_views(entries@),
            keep == unrelated_to(config@, new_source@, opt_path(*prior_source)),
            json_views(out@) == views.take(i as int).filter(keep),
        decreases entries.len() - i,
    {
        let ghost before = out@;
        proof {
            crate::pi::lemma_filter_next(views, keep, i as int);
            assert(views[i as int] == entries@[i as int]@);
        }
        let owned = match prior_source {
            Some(source) => pi_entry_matches_path(&entries[i], config, source),
            None => false,
        };
        if !pi_entry_matches_path(&entries[i], config, new_source) && !owned {
            out.push(entries[i].copy());
            assert(json_views(out@) =~= json_views(before).push(views[i as int]));
        }
        i += 1;
    }
    assert(views.take(i as int) =~= views);
    out
}

/// What Pi has to do before its settings are those of before.
#[derive(Clone, Copy, Debug, PartialEq, Eq, Structural)]
pub enum PiRollback {
    /// They are.
    Unchanged,
    /// The new package is not in them, or was before.
    NewAbsent,
    /// The new package is to be removed.
    RemoveNew,
}

/// The package of the owned entry of before, if there was one.
pub open spec fn prior_source(t: InstallTransaction) -> Result<Option<Seq<u8>>, Failure> {
    match opt_json(t.prior_owned_pi_entry) {
        None => Ok(None),
        Some(entry) => match entry_path(t.pi_config_path@, entry) {
            Ok(path) => Ok(Some(path)),
            Err(f) => Err(f),
        },
    }
}

/// What Pi has to do first when an installation is undone.
pub open spec fn pi_rollback(
    t: InstallTransaction,
    path: Seq<u8>,
    current: Seq<JsonView>,
    available: bool,
) -> Result<PiRollback, Failure> {
    let config = t.pi_config_path@;
    let new_source = child(t.generation@, "pi"@);
    let prior = json_views(t.prior_pi_entries@);
    if !same_path(path, config) {
        Err(("recovery_needed"@, "Pi settings path changed during recovery"@))
    } else if same_entries(current, prior) {
        Ok(PiRollback::Unchanged)
    } else if !available {
        Err(("recovery_needed"@, "Pi is unavailable for transaction rollback"@))
    } else {
        match prior_source(t) {
            Err(f) => Err(f),
            Ok(source) => if !same_entries(
                current.filter(unrelated_to(config, new_source, source)),
                prior.filter(unrelated_to(config, new_source, source)),
            ) {
                Err(
                    (
                        "recovery_needed"@,
                        "unrelated Pi entries changed during the transaction"@,
                    ),
                )
            } else {
                let found = matching(current, config, new_source);
                let modified = ("recovery_needed"@, "new Pi entry was externally modified"@);
                if has_json(prior, t.new_pi_entry@) || found.len() == 0 {
                    Ok(PiRollback::NewAbsent)
                } else if found.len() != 1 {
                    Err(modified)
                } else {
                    match entry_allowed(found[0], config, new_source) {
                        Err(f) => Err(f),
                        Ok(true) => Ok(PiRollback::RemoveNew),
                        Ok(false) => Err(modified),
                    }
                }
            },
        }
    }
}

fn find_prior_source(t: &InstallTransaction) -> (r: ManagedResult<Option<FsPath>>)
    ensures
        match r {
            Ok(v) => prior_source(*t) == Ok::<Option<Seq<u8>>, Failure>(opt_path(v)),
            Err(e) => prior_source(*t) == Err::<Option<Seq<u8>>, Failure>(e@),
        },
{
    match &t.prior_owned_pi_entry {
        None => Ok(None),
        Some(entry) => match resolve_pi_entry_path(&t.pi_config_path, entry) {
            Ok(path) => Ok(Some(path)),
            Err(e) => Err(e),
        },
    }
}

/// Plans what Pi has to do first when an installation is undone.
pub fn plan_pi_rollback(t: &InstallTransaction, current: &PiSettings, available: bool) -> (r:
    ManagedResult<PiRollback>)
    ensures
        match r {
            Ok(v) => pi_rollback(*t, current.path@, json_views(current.entries@), available)
                == Ok::<PiRollback, Failure>(v),
            Err(e) => pi_rollback(*t, current.path@, json_views(current.entries@), available)
                == Err::<PiRollback, Failure>(e@),
        },
{
    if !current.path.same(&t.pi_config_path) {
        return fail("recovery_needed", "Pi settings path changed during recovery");
    }
    if same_json_multiset(&current.entries, &t.prior_pi_entries) {
        return Ok(PiRollback::Unchanged);
    }
    if !available {
        return fail("recovery_needed", "Pi is unavailable for transaction rollback");
    }
    let new_source = t.generation.join("pi");
    let source = find_prior_source(t)?;
    let now = unrelated_entries(&current.entries, &t.pi_config_path, &new_source, &source);
    let before = unrelated_entries(&t.prior_pi_entries, &t.pi_config_path, &new_source, &source);
    if !same_json_multiset(&now, &before) {
        return fail("recovery_needed", "unrelated Pi entries changed during the transaction");
    }
    let found = matching_entries(&current.entries, &t.pi_config_path, &new_source);
    assert(json_views(found@).len() == found@.len());
    if contains_json(&t.prior_pi_entries, &t.new_pi_entry) || found.len() == 0 {
        return Ok(PiRollback::NewAbsent);
    }
    if found.len() == 1 {
        assert(json_views(found@)[0] == found@[0]@);
        if is_allowed_managed_pi_entry(&found[0], &t.pi_config_path, &new_source)? {
            return Ok(PiRollback::RemoveNew);
        }
    }
    fail("recovery_needed", "new Pi entry was externally modified")
}

/// The package of before that Pi has to install again, if any.
pub open spec fn pi_reinstall(t: InstallTransaction, current: Seq<JsonView>) -> Result<
    Option<Seq<u8>>,
    Failure,
> {
    match prior_source(t) {
        Err(f) => Err(f),
        Ok(None) => Ok(None),
        Ok(Some(source)) => {
            let found = matching(current, t.pi_config_path@, source);
            if found.len() == 0 {
                Ok(Some(source))
            } else if found.len() != 1 || !opt_same_json(
                opt_json(t.prior_owned_pi_entry),
                found[0],
            ) {
                Err(
                    (
                        "recovery_needed"@,
                        "prior owned Pi entry was externally modified"@,
                    ),
                )
            } else {
                Ok(None)
            }
        },
    }
}

/// Finds the package of before that Pi has to install again.
pub fn plan_pi_reinstall(t: &InstallTransaction, current: &Vec<Json>) -> (r: ManagedResult<
    Option<FsPath>,
>)
    ensures
        match r {
            Ok(v) => pi_reinstall(*t, json_views(current@)) == Ok::<Option<Seq<u8>>, Failure>(
                opt_path(v),
            ),
            Err(e) => pi_reinstall(*t, json_views(current@)) == Err::<Option<Seq<u8>>, Failure>(
                e@,
            ),
        },
{
    let source = find_prior_source(t)?;
    let source = match source {
        Some(source) => source,
        None => {
            return Ok(None);
        },
    };
    let found = matching_entries(current, &t.pi_config_path, &source);
    assert(json_views(found@).len() == found@.len());
    if found.len() == 0 {
        return Ok(Some(source));
    }
    assert(json_views(found@)[0] == found@[0]@);
    let exact = found.len() == 1 && match &t.prior_owned_pi_entry {
        Some(owned) => found[0].same(owned),
        None => false,
    };
    if !exact {
        return fail("recovery_needed", "prior owned Pi entry was externally modified");
    }
    Ok(None)
}

/// Checks that the settings of Pi are those of before.
pub fn check_pi_restored(t: &InstallTransaction, current: &Vec<Json>) -> (r: ManagedResult<()>)
    ensures
        failure(r) == if same_entries(json_views(current@), json_views(t.prior_pi_entries@)) {
            None
        } else {
            unrecovered("Pi settings are not the exact pre-transaction snapshot"@)
        },
{
    if !same_json_multiset(current, &t.prior_pi_entries) {
        return fail("recovery_needed", "Pi settings are not the exact pre-transaction snapshot");
    }
    Ok(())
}

/// How one plugin file is brought back to what it was.
#[derive(Clone, Copy, Debug, PartialEq, Eq, Structural)]
pub enum FileRestore {
    /// The backup takes the place of the file.
    RestoreBackup,
    /// There was none before, so it goes.
    RemoveTarget,
    /// It is the one of before.
    Keep,
}

/// How one plugin file is brought back to what it was, or why it cannot be.
pub open spec fn file_restore(backup_exists: bool, existed: bool, target_exists: bool) -> Result<
    FileRestore,
    Failure,
> {
    if backup_exists {
        Ok(FileRestore::RestoreBackup)
    } else if !existed {
        Ok(FileRestore::RemoveTarget)
    } else if target_exists {
        Ok(FileRestore::Keep)
    } else {
        Err(("recovery_needed"@, "prior plugin asset has no backup"@))
    }
}

/// Plans how one plugin file is brought back to what it was.
pub fn plan_file_restore(backup_exists: bool, existed: bool, target_exists: bool) -> (r:
    ManagedResult<FileRestore>)
    ensures
        (match r {
            Ok(plan) => Ok::<FileRestore, Failure>(plan),
            Err(e) => Err(e@),
        }) == file_restore(backup_exists, existed, target_exists),
{
    if backup_exists {
        Ok(FileRestore::RestoreBackup)
    } else if !existed {
        Ok(FileRestore::RemoveTarget)
    } else if !target_exists {
        fail("recovery_needed", "prior plugin asset has no backup")
    } else {
        Ok(FileRestore::Keep)
    }
}

/// What is at the place of a plugin file once it was brought back.
pub open spec fn file_restored(plan: FileRestore, target: ObservedFile, backup: ObservedFile) -> ObservedFile {
    match plan {
        FileRestore::RestoreBackup => backup,
        FileRestore::RemoveTarget => ObservedFile::Absent,
        FileRestore::Keep => target,
    }
}

/// Wherever an installation stopped before its record was committed, in a state that
/// recovery recognises, the plan for the plugin files brings back exactly what was
/// there before: the files of before, or none.
pub proof fn law_recognised_plugin_files_are_restored(t: InstallTransaction, found: PluginFound)
    requires
        plugin_state_ok(t, found),
        t.phase != TransactionPhase::RecordCommitted,
        t.prior_helper_present == (t.prior_helper_snapshot is Some),
        t.prior_pointer_present == (t.prior_pointer_snapshot is Some),
        found.helper_backup_exists == !(found.helper_backup is Absent),
        found.pointer_backup_exists == !(found.pointer_backup is Absent),
    ensures
        ({
            let helper = file_restore(
                found.helper_backup_exists,
                t.prior_helper_present,
                !(found.helper is Absent),
            );
            let pointer = file_restore(
                found.pointer_backup_exists,
                t.prior_pointer_present,
                !(found.pointer is Absent),
            );
            &&& helper is Ok && found_exactly(
                file_restored(helper->Ok_0, found.helper, found.helper_backup),
                opt_file(t.prior_helper_snapshot),
            )
            &&& pointer is Ok && found_exactly(
                file_restored(pointer->Ok_0, found.pointer, found.pointer_backup),
                opt_file(t.prior_pointer_snapshot),
            )
        }),
{
}

/// The plugin stage as it was found, if it is one that the publication passes
/// through.
pub open spec fn live_plugin_stage(
    t: InstallTransaction,
    stage_present: bool,
    tree: ManagedResult<StageSnapshot>,
) -> Result<Option<SnapshotView>, Failure> {
    if !stage_present {
        Ok(None)
    } else {
        match opt_snapshot(t.plugin_stage_snapshot) {
            None => Err(
                ("recovery_needed"@, "transaction has an unauthenticated plugin stage"@),
            ),
            Some(s) => {
                let stage = t.plugin_stage@;
                if live_tree_failure(stage, stage_subset(t, s, true, true), tree) is None {
                    Ok(Some(stage_subset(t, s, true, true)))
                } else if live_tree_failure(stage, stage_subset(t, s, false, true), tree) is None {
                    Ok(Some(stage_subset(t, s, false, true)))
                } else if live_tree_failure(stage, stage_subset(t, s, false, false), tree) is None {
                    Ok(Some(stage_subset(t, s, false, false)))
                } else {
                    Err(
                        (
                            "recovery_needed"@,
                            "live plugin stage is not an exact reachable transaction subset"@,
                        ),
                    )
                }
            },
        }
    }
}

/// A snapshot, none, or a failure.
pub open spec fn snapshot_outcome(r: Result<Option<StageSnapshot>, ManagedError>) -> Result<
    Option<SnapshotView>,
    Failure,
> {
    match r {
        Ok(v) => Ok(opt_snapshot(v)),
        Err(e) => Err(e@),
    }
}

/// The plugin stage as it was found, if it is one that the publication passes
/// through.
pub fn authenticated_live_plugin_stage(
    t: &InstallTransaction,
    stage_present: bool,
    tree: &ManagedResult<StageSnapshot>,
) -> (r: ManagedResult<Option<StageSnapshot>>)
    ensures
        snapshot_outcome(r) == live_plugin_stage(*t, stage_present, *tree),
{
    if !stage_present {
        return Ok(None);
    }
    let Some(snapshot) = &t.plugin_stage_snapshot else {
        return fail("recovery_needed", "transaction has an unauthenticated plugin stage");
    };
    let full = plugin_stage_subset(t, snapshot, true, true);
    if validate_stage_snapshot_live(&t.plugin_stage, &full, tree).is_ok() {
        return Ok(Some(full));
    }
    let pointer = plugin_stage_subset(t, snapshot, false, true);
    if validate_stage_snapshot_live(&t.plugin_stage, &pointer, tree).is_ok() {
        return Ok(Some(pointer));
    }
    let residual = plugin_stage_subset(t, snapshot, false, false);
    if validate_stage_snapshot_live(&t.plugin_stage, &residual, tree).is_ok() {
        return Ok(Some(residual));
    }
    fail(
        "recovery_needed",
        "live plugin stage is not an exact reachable transaction subset",
    )
}

/// The generation stage that is left to be removed.
pub open spec fn generation_stage_left(staged: Option<SnapshotView>, present: bool) -> Result<
    Option<SnapshotView>,
    Failure,
> {
    if !present {
        Ok::<Option<SnapshotView>, Failure>(None)
    } else {
        match staged {
            None => Err(
                (
                    "recovery_needed"@,
                    "transaction has an unauthenticated generation stage"@,
                ),
            ),
            Some(s) => Ok(Some(s)),
        }
    }
}

/// The stage of the generation that is left to be removed.
pub fn leftover_generation_stage(t: &InstallTransaction, stage_present: bool) -> (r: ManagedResult<
    Option<StageSnapshot>,
>)
    ensures
        snapshot_outcome(r) == generation_stage_left(opt_snapshot(t.generation_stage_snapshot), stage_present),
{
    if !stage_present {
        return Ok(None);
    }
    match &t.generation_stage_snapshot {
        None => fail(
            "recovery_needed",
            "transaction has an unauthenticated generation stage",
        ),
        Some(s) => Ok(Some(s.copy())),
    }
}

/// What proves that everything is as it was before.
pub open spec fn prior_proof(
    t: InstallTransaction,
    removed_check: Option<Failure>,
    record_check: Option<Failure>,
    record_exists: bool,
    helper_exists: bool,
    pointer_exists: bool,
) -> Option<Failure> {
    match opt_record(t.prior_record) {
        Some(record) => if record.state == InstallState::Removed {
            removed_check
        } else {
            record_check
        },
        None => if !record_exists && !helper_exists && !pointer_exists {
            None
        } else {
            unrecovered("first-install rollback is not exact"@)
        },
    }
}

/// Proves that everything is as it was before.
pub fn prove_prior_state(
    t: &InstallTransaction,
    removed_check: &ManagedResult<()>,
    record_check: &ManagedResult<()>,
    record_exists: bool,
    helper_exists: bool,
    pointer_exists: bool,
) -> (r: ManagedResult<()>)
    ensures
        failure(r) == prior_proof(
            *t,
            failure(*removed_check),
            failure(*record_check),
            record_exists,
            helper_exists,
            pointer_exists,
        ),
{
    let check = match &t.prior_record {
        Some(record) => if record.state == InstallState::Removed {
            removed_check
        } else {
            record_check
        },
        None => {
            if !record_exists && !helper_exists && !pointer_exists {
                return Ok(());
            }
            return fail("recovery_needed", "first-install rollback is not exact");
        },
    };
    match check {
        Ok(_) => Ok(()),
        Err(e) => Err(e.copy()),
    }
}

/// The tree of the generation of before that a finished installation removes.
pub open spec fn superseded(
    stable: Seq<u8>,
    prior: RecordView,
    current: RecordView,
    snapshot: Option<SnapshotView>,
    tree: ManagedResult<StageSnapshot>,
) -> Result<Option<SnapshotView>, Failure> {
    if prior.state == InstallState::Removed || same_path(
        prior.pi_package_source,
        current.pi_package_source,
    ) {
        Ok(None)
    } else {
        match parent(prior.pi_package_source) {
            None => Ok(None),
            Some(directory) => if !directly_in(directory, child(stable, "generations"@)) {
                Err(
                    (
                        "ownership_record_invalid"@,
                        "prior generation is outside the managed generations root"@,
                    ),
                )
            } else {
                match snapshot {
                    None => Err(
                        (
                            "recovery_needed"@,
                            "superseded generation has no authenticated inode snapshot"@,
                        ),
                    ),
                    Some(s) => match or_else(
                        prior_generation_failure(prior, s),
                        live_tree_failure(directory, s, tree),
                    ) {
                        Some(f) => Err(f),
                        None => Ok(Some(s)),
                    },
                }
            },
        }
    }
}

/// Finds the tree of the generation of before that a finished installation
/// removes.
pub fn remove_superseded_generation(
    stable_root: &FsPath,
    prior: &OwnershipRecord,
    current: &OwnershipRecord,
    snapshot: &Option<StageSnapshot>,
    tree: &ManagedResult<StageSnapshot>,
) -> (r: ManagedResult<Option<StageSnapshot>>)
    ensures
        snapshot_outcome(r) == superseded(
            stable_root@,
            prior@,
            current@,
            opt_snapshot(*snapshot),
            *tree,
        ),
{
    if prior.state == InstallState::Removed || prior.pi_package_source.same(
        &current.pi_package_source,
    ) {
        return Ok(None);
    }
    let Some(directory) = prior.pi_package_source.parent() else {
        return Ok(None);
    };
    if !is_directly_in(&directory, &stable_root.join("generations")) {
        return fail(
            "ownership_record_invalid",
            "prior generation is outside the managed generations root",
        );
    }
    let Some(snapshot) = snapshot else {
        return fail(
            "recovery_needed",
            "superseded generation has no authenticated inode snapshot",
        );
    };
    validate_prior_generation_snapshot_semantics(prior, snapshot)?;
    validate_stage_snapshot_live(&directory, snapshot, tree)?;
    Ok(Some(snapshot.copy()))
}

/// The tree of a generation that an undone installation removes.
pub open spec fn created_generation(
    t: InstallTransaction,
    present: bool,
    tree: ManagedResult<StageSnapshot>,
) -> Result<Option<SnapshotView>, Failure> {
    if !present {
        Ok(None)
    } else {
        match opt_snapshot(t.generation_stage_snapshot) {
            None => Err(
                (
                    "recovery_needed"@,
                    "transaction-created generation has no authenticated inode snapshot"@,
                ),
            ),
            Some(staged) => match relocation(staged, t.generation_stage@, t.generation@) {
                Err(f) => Err(f),
                Ok(published) => match live_tree_failure(t.generation@, published, tree) {
                    Some(f) => Err(f),
                    None => Ok(Some(published)),
                },
            },
        }
    }
}

/// Finds the tree of a generation that an undone installation removes.
pub fn remove_created_generation(
    t: &InstallTransaction,
    present: bool,
    tree: &ManagedResult<StageSnapshot>,
) -> (r: ManagedResult<Option<StageSnapshot>>)
    ensures
        snapshot_outcome(r) == created_generation(*t, present, *tree),
{
    if !present {
        return Ok(None);
    }
    let Some(staged) = &t.generation_stage_snapshot else {
        return fail(
            "recovery_needed",
            "transaction-created generation has no authenticated inode snapshot",
        );
    };
    let published = relocate_stage_snapshot(staged, &t.generation_stage, &t.generation)?;
    validate_stage_snapshot_live(&t.generation, &published, tree)?;
    Ok(Some(published))
}

/// How an interrupted installation is dealt with.
#[derive(Clone, Copy, Debug, PartialEq, Eq, Structural)]
pub enum ReconcileRoute {
    /// An older journal had published its rescue files: its record is made and
    /// committed.
    CompletePredecessor,
    /// An older journal had published everything but its record: that is
    /// committed.
    CompleteForward,
    /// The record is committed: what is left over is removed.
    FinishCommitted,
    /// Everything is put back as it was.
    RollBack,
}

/// The journal is an older one from after the change of the settings, for which
/// the rescue directory decides.
pub open spec fn rescue_decides(t: InstallTransaction) -> bool {
    t.schema_version == LEGACY_TRANSACTION_SCHEMA && t.phase == TransactionPhase::PiMutated
        && t.new_record is None && t.prior_record is Some
}

/// Whether the rescue directory decides over a journal.
pub fn needs_rescue_classification(t: &InstallTransaction) -> (r: bool)
    ensures
        r == rescue_decides(*t),
{
    t.schema_version == LEGACY_TRANSACTION_SCHEMA && t.phase == TransactionPhase::PiMutated
        && t.new_record.is_none() && t.prior_record.is_some()
}

/// How an interrupted installation is dealt with, given what an older journal
/// left in the rescue directory.
pub open spec fn route_of(t: InstallTransaction, legacy: LegacyPiMutatedRescueState) -> ReconcileRoute {
    if rescue_decides(t) && legacy == LegacyPiMutatedRescueState::PublishedNew {
        ReconcileRoute::CompletePredecessor
    } else if forward_commit(t) {
        ReconcileRoute::CompleteForward
    } else if t.phase == TransactionPhase::RecordCommitted {
        ReconcileRoute::FinishCommitted
    } else {
        ReconcileRoute::RollBack
    }
}

/// Decides how an interrupted installation is dealt with.
pub fn reconcile_route(t: &InstallTransaction, legacy: LegacyPiMutatedRescueState) -> (r:
    ReconcileRoute)
    ensures
        r == route_of(*t, legacy),
{
    if needs_rescue_classification(t) && legacy == LegacyPiMutatedRescueState::PublishedNew {
        ReconcileRoute::CompletePredecessor
    } else if is_predecessor_forward_commit(t) {
        ReconcileRoute::CompleteForward
    } else if t.phase == TransactionPhase::RecordCommitted {
        ReconcileRoute::FinishCommitted
    } else {
        ReconcileRoute::RollBack
    }
}

/// The steps by which an installation is undone.
#[derive(Clone, Copy, Debug, PartialEq, Eq, Structural)]
pub enum RollbackStep {
    RestorePredecessorRescue,
    RestoreRecord,
    RestorePi,
    RestorePlugin,
    RestoreRescue,
    RemoveGeneration,
    ProvePrior,
    ClearJournal,
}

/// The steps by which an installation is undone, in order.
pub open spec fn steps_of(t: InstallTransaction) -> Seq<RollbackStep> {
    let first = if t.schema_version == LEGACY_TRANSACTION_SCHEMA && t.phase
        == TransactionPhase::PiMutating && t.new_record is None && t.prior_record is Some {
        seq![RollbackStep::RestorePredecessorRescue]
    } else {
        Seq::empty()
    };
    let removal = if t.generation_created {
        seq![RollbackStep::RemoveGeneration]
    } else {
        Seq::empty()
    };
    first + seq![
        RollbackStep::RestoreRecord,
        RollbackStep::RestorePi,
        RollbackStep::RestorePlugin,
        RollbackStep::RestoreRescue,
    ] + removal + seq![RollbackStep::ProvePrior, RollbackStep::ClearJournal]
}

/// The steps by which an installation is undone, in order.
pub fn rollback_steps(t: &InstallTransaction) -> (r: Vec<RollbackStep>)
    ensures
        r@ == steps_of(*t),
{
    let mut steps: Vec<RollbackStep> = Vec::new();
    if t.schema_version == LEGACY_TRANSACTION_SCHEMA && t.phase == TransactionPhase::PiMutating
        && t.new_record.is_none() && t.prior_record.is_some() {
        steps.push(RollbackStep::RestorePredecessorRescue);
    }
    steps.push(RollbackStep::RestoreRecord);
    steps.push(RollbackStep::RestorePi);
    steps.push(RollbackStep::RestorePlugin);
    steps.push(RollbackStep::RestoreRescue);
    if t.generation_created {
        steps.push(RollbackStep::RemoveGeneration);
    }
    steps.push(RollbackStep::ProvePrior);
    steps.push(RollbackStep::ClearJournal);
    assert(steps@ =~= steps_of(*t));
    steps
}

/// A journal is only cleared after the state of before has been proved.
pub proof fn law_rollback_proves_before_it_forgets(t: InstallTransaction, i: int)
    requires
        0 <= i < steps_of(t).len(),
        steps_of(t)[i] == RollbackStep::ClearJournal,
    ensures
        i == steps_of(t).len() - 1,
        i > 0 && steps_of(t)[i - 1] == RollbackStep::ProvePrior,
{
}

/// Whether the record of an older journal is still to be written.
pub open spec fn forward_record(
    t: InstallTransaction,
    live: Option<RecordView>,
) -> Result<bool, Failure> {
    if same_opt_record(live, opt_record(t.prior_record)) {
        Ok(true)
    } else if live is Some && t.new_record is Some && same_record(live->0, t.new_record->0@) {
        Ok(false)
    } else {
        Err(
            (
                "recovery_needed"@,
                "predecessor forward transaction has an unexpected live record"@,
            ),
        )
    }
}

/// Tells whether the record of an older journal is still to be written.
pub fn plan_forward_record(t: &InstallTransaction, live: &Option<OwnershipRecord>) -> (r:
    ManagedResult<bool>)
    ensures
        match r {
            Ok(v) => forward_record(*t, opt_record(*live)) == Ok::<bool, Failure>(v),
            Err(e) => forward_record(*t, opt_record(*live)) == Err::<bool, Failure>(e@),
        },
{
    if opt_records_equal(live.as_ref(), t.prior_record.as_ref()) {
        return Ok(true);
    }
    let written = match (live, &t.new_record) {
        (Some(live), Some(new_record)) => live.same(new_record),
        _ => false,
    };
    if !written {
        return fail(
            "recovery_needed",
            "predecessor forward transaction has an unexpected live record",
        );
    }
    Ok(false)
}

/// The plugin stage that is left to be removed.
pub open spec fn plugin_stage_left(staged: Option<SnapshotView>, present: bool) -> Result<
    Option<SnapshotView>,
    Failure,
> {
    match staged {
        Some(s) => Ok::<Option<SnapshotView>, Failure>(Some(s)),
        None => if present {
            Err(
                (
                    "recovery_needed"@,
                    "transaction has an unauthenticated plugin stage"@,
                ),
            )
        } else {
            Ok(None)
        },
    }
}

/// The stage of the plugin files that is removed once an installation is committed.
pub fn cleanup_transaction_artifacts(t: &InstallTransaction, stage_present: bool) -> (r: ManagedResult<
    Option<StageSnapshot>,
>)
    ensures
        snapshot_outcome(r) == plugin_stage_left(opt_snapshot(t.plugin_stage_snapshot), stage_present),
{
    match &t.plugin_stage_snapshot {
        Some(s) => Ok(Some(s.copy())),
        None => {
            if stage_present {
                return fail(
                    "recovery_needed",
                    "transaction has an unauthenticated plugin stage",
                );
            }
            Ok(None)
        },
    }
}

/// Where an installation is undone the new package is taken out of the settings exactly
/// where one entry leads to it and the entries of before had none like it. It counts as
/// absent only where no entry leads to it, or where its entry was there before. Entries
/// that belong to neither package must be those of before.
pub proof fn law_rollback_takes_the_new_package_out(
    t: InstallTransaction,
    path: Seq<u8>,
    current: Seq<JsonView>,
    available: bool,
    i: int,
)
    ensures
        ({
            let source = child(t.generation@, "pi"@);
            let kind = leads_to(t.pi_config_path@, source);
            let prior = json_views(t.prior_pi_entries@);
            let plan = pi_rollback(t, path, current, available);
            &&& plan is Ok ==> parts(path) == parts(t.pi_config_path@)
            &&& plan == Ok::<PiRollback, Failure>(PiRollback::Unchanged) <==> parts(path) == parts(
                t.pi_config_path@,
            ) && same_entries(current, prior)
            &&& plan == Ok::<PiRollback, Failure>(PiRollback::NewAbsent) ==> none_of(current, kind)
                || has_json(prior, t.new_pi_entry@)
            &&& plan == Ok::<PiRollback, Failure>(PiRollback::RemoveNew) ==> exists|k: int|
                sole(current, kind, k) && entry_allowed(current[k], t.pi_config_path@, source)
                    == Ok::<bool, Failure>(true)
            &&& plan == Ok::<PiRollback, Failure>(PiRollback::RemoveNew) ==> !has_json(
                prior,
                t.new_pi_entry@,
            )
            &&& plan is Ok && !same_entries(current, prior) ==> available && prior_source(t) is Ok
                && same_entries(
                current.filter(unrelated_to(t.pi_config_path@, source, prior_source(t)->Ok_0)),
                prior.filter(unrelated_to(t.pi_config_path@, source, prior_source(t)->Ok_0)),
            )
            &&& plan is Ok && !same_entries(current, prior) && !has_json(prior, t.new_pi_entry@)
                && sole(current, kind, i) ==> plan == Ok::<PiRollback, Failure>(
                PiRollback::RemoveNew,
            )
        }),
{
    let source = child(t.generation@, "pi"@);
    let config = t.pi_config_path@;
    let kind = leads_to(config, source);
    assert(kind =~= (|entry: JsonView| entry_matches(entry, config, source)));
    lemma_filter_none(current, kind);
    if sole(current, kind, i) {
        lemma_filter_sole(current, kind, i);
    }
    if current.filter(kind).len() == 1 {
        lemma_one_is_sole(current, kind);
        let k = choose|k: int| sole(current, kind, k);
        lemma_filter_sole(current, kind, k);
        assert(seq![current[k]][0] == current[k]);
    }
}

/// An entry belongs to neither package exactly where it leads to none of the two.
pub proof fn law_unrelated_entries_lead_elsewhere(
    config: Seq<u8>,
    new_source: Seq<u8>,
    old: Option<Seq<u8>>,
    entry: JsonView,
)
    ensures
        unrelated_to(config, new_source, old)(entry) == !(entry_matches(entry, config, new_source)
            || (old is Some && entry_matches(entry, config, old->0))),
{
}

/// The owned package of before is installed again exactly where no entry leads to it any
/// more; an entry that leads to it must be the owned one and the only one.
pub proof fn law_the_package_of_before_is_installed_again(
    t: InstallTransaction,
    current: Seq<JsonView>,
)
    ensures
        ({
            let owned = opt_json(t.prior_owned_pi_entry);
            let plan = pi_reinstall(t, current);
            &&& owned is None ==> plan == Ok::<Option<Seq<u8>>, Failure>(None)
            &&& owned is Some && plan is Ok ==> ({
                let source = entry_path(t.pi_config_path@, owned->0);
                let kind = leads_to(t.pi_config_path@, source->Ok_0);
                &&& source is Ok
                &&& plan->Ok_0 is Some <==> none_of(current, kind)
                &&& plan->Ok_0 is Some ==> plan->Ok_0->0 == source->Ok_0
                &&& plan->Ok_0 is None ==> exists|k: int|
                    sole(current, kind, k) && same_json(owned->0, current[k])
            })
            &&& owned is Some && entry_path(t.pi_config_path@, owned->0) is Ok && none_of(
                current,
                leads_to(t.pi_config_path@, entry_path(t.pi_config_path@, owned->0)->Ok_0),
            ) ==> plan == Ok::<Option<Seq<u8>>, Failure>(
                Some(entry_path(t.pi_config_path@, owned->0)->Ok_0),
            )
        }),
{
    let owned = opt_json(t.prior_owned_pi_entry);
    if owned is Some && entry_path(t.pi_config_path@, owned->0) is Ok {
        let config = t.pi_config_path@;
        let source = entry_path(config, owned->0)->Ok_0;
        let kind = leads_to(config, source);
        assert(kind =~= (|entry: JsonView| entry_matches(entry, config, source)));
        lemma_filter_none(current, kind);
        if current.filter(kind).len() == 1 {
            lemma_one_is_sole(current, kind);
            let k = choose|k: int| sole(current, kind, k);
            lemma_filter_sole(current, kind, k);
            assert(seq![current[k]][0] == current[k]);
        }
    }
}

/// The entries once the new package was taken out, where the plan says so, and the one of
/// before was installed again, where that is to be.
pub open spec fn entries_put_back(
    t: InstallTransaction,
    current: Seq<JsonView>,
    plan: PiRollback,
) -> Seq<JsonView> {
    let taken_out = if plan == PiRollback::RemoveNew {
        current.filter(
            |e: JsonView| !entry_matches(e, t.pi_config_path@, child(t.generation@, "pi"@)),
        )
    } else {
        current
    };
    if pi_reinstall(t, taken_out) is Ok && pi_reinstall(t, taken_out)->Ok_0 is Some {
        taken_out.push(opt_json(t.prior_owned_pi_entry)->0)
    } else {
        taken_out
    }
}

proof fn lemma_parts_of_entries(
    s: Seq<JsonView>,
    config: Seq<u8>,
    new_source: Seq<u8>,
    old: Option<Seq<u8>>,
)
    requires
        none_of(s, leads_to(config, new_source)),
    ensures
        encodings(s).to_multiset() == encodings(
            s.filter(unrelated_to(config, new_source, old)),
        ).to_multiset().add(
            if old is Some {
                encodings(s.filter(leads_to(config, old->0))).to_multiset()
            } else {
                Multiset::empty()
            },
        ),
{
    let f = |entry: JsonView| json_encoded(entry);
    let kind = leads_to(config, new_source);
    let unrelated = unrelated_to(config, new_source, old);
    let related = |x: JsonView| !unrelated(x);
    lemma_filter_parts(s, unrelated, f);
    assert(encodings(s) =~= s.map_values(f));
    assert(encodings(s.filter(unrelated)) =~= s.filter(unrelated).map_values(f));
    if old is Some {
        let owned = leads_to(config, old->0);
        assert forall|i: int| 0 <= i < s.len() implies related(#[trigger] s[i]) == owned(s[i]) by {
            assert(!kind(s[i]));
        }
        lemma_filter_alike(s, related, owned);
        assert(encodings(s.filter(owned)) =~= s.filter(owned).map_values(f));
    } else {
        assert forall|i: int| 0 <= i < s.len() implies !related(#[trigger] s[i]) by {
            assert(!kind(s[i]));
        }
        lemma_filter_none(s, related);
        assert(s.filter(related).map_values(f) =~= Seq::empty());
        assert(s.filter(related).map_values(f).to_multiset() =~= Multiset::empty()) by {
            broadcast use vstd::seq_lib::group_to_multiset_ensures;

            assert(Seq::<Seq<u8>>::empty().to_multiset().len() == 0);
        }
    }
}

/// Carrying out the plan brings the settings back: once the new package was taken out and
/// the owned one of before is in again, the entries are those of before, each as often.
pub proof fn law_rollback_restores_the_entries(
    t: InstallTransaction,
    path: Seq<u8>,
    current: Seq<JsonView>,
    i: int,
)
    requires
        pi_rollback(t, path, current, true) is Ok,
        ({
            let prior = json_views(t.prior_pi_entries@);
            let source = child(t.generation@, "pi"@);
            let owned = opt_json(t.prior_owned_pi_entry);
            &&& none_of(prior, leads_to(t.pi_config_path@, source))
            &&& entry_matches(t.new_pi_entry@, t.pi_config_path@, source)
            &&& owned is Some ==> entry_path(t.pi_config_path@, owned->0) is Ok && parts(
                entry_path(t.pi_config_path@, owned->0)->Ok_0,
            ) != parts(source) && sole(
                prior,
                leads_to(t.pi_config_path@, entry_path(t.pi_config_path@, owned->0)->Ok_0),
                i,
            ) && prior[i] == owned->0
            &&& owned is Some ==> forall|k: int|
                0 <= k < current.len() && same_json(owned->0, #[trigger] current[k])
                    ==> current[k] == owned->0
        }),
        ({
            let plan = pi_rollback(t, path, current, true)->Ok_0;
            plan != PiRollback::Unchanged ==> pi_reinstall(
                t,
                if plan == PiRollback::RemoveNew {
                    current.filter(
                        |e: JsonView|
                            !entry_matches(e, t.pi_config_path@, child(t.generation@, "pi"@)),
                    )
                } else {
                    current
                },
            ) is Ok
        }),
    ensures
        ({
            let plan = pi_rollback(t, path, current, true)->Ok_0;
            same_entries(
                if plan == PiRollback::Unchanged {
                    current
                } else {
                    entries_put_back(t, current, plan)
                },
                json_views(t.prior_pi_entries@),
            )
        }),
{
    broadcast use vstd::seq_lib::group_to_multiset_ensures;

    let plan = pi_rollback(t, path, current, true)->Ok_0;
    let prior = json_views(t.prior_pi_entries@);
    let config = t.pi_config_path@;
    let source = child(t.generation@, "pi"@);
    let kind = leads_to(config, source);
    let other = |e: JsonView| !entry_matches(e, config, source);
    let others = |e: JsonView| !kind(e);
    assert(other =~= others);
    assert(kind =~= (|entry: JsonView| entry_matches(entry, config, source)));
    let owned = opt_json(t.prior_owned_pi_entry);
    let old = prior_source(t)->Ok_0;
    if plan != PiRollback::Unchanged {
        assert(!has_json(prior, t.new_pi_entry@)) by {
            if has_json(prior, t.new_pi_entry@) {
                let k = choose|k: int|
                    0 <= k < prior.len() && same_json(#[trigger] prior[k], t.new_pi_entry@);
                law_equal_entries_lead_alike(prior[k], t.new_pi_entry@, config, source);
                assert(kind(prior[k]));
            }
        }
        let out = if plan == PiRollback::RemoveNew {
            current.filter(other)
        } else {
            current
        };
        lemma_filter_none(current, kind);
        assert(none_of(out, kind)) by {
            assert forall|k: int| 0 <= k < out.len() implies !kind(#[trigger] out[k]) by {
                if plan == PiRollback::RemoveNew {
                    lemma_filter_has(current, other, out[k]);
                    assert(out.contains(out[k]));
                }
            }
        }
        let unrelated = unrelated_to(config, source, old);
        assert(out.filter(unrelated) == current.filter(unrelated)) by {
            if plan == PiRollback::RemoveNew {
                lemma_filter_twice(current, other, unrelated, unrelated);
            }
        }
        lemma_parts_of_entries(out, config, source, old);
        lemma_parts_of_entries(prior, config, source, old);
        if owned is Some {
            let back = leads_to(config, old->0);
            assert(back =~= (|entry: JsonView| entry_matches(entry, config, old->0)));
            lemma_filter_sole(prior, back, i);
            assert(encodings(seq![owned->0]) =~= seq![json_encoded(owned->0)]);
            lemma_filter_none(out, back);
            let again = pi_reinstall(t, out)->Ok_0;
            if again is Some {
                assert(out.filter(back) =~= Seq::empty());
                assert(encodings(out.filter(back)) =~= Seq::empty());
                assert(encodings(out.push(owned->0)) =~= encodings(out).push(
                    json_encoded(owned->0),
                ));
                assert(seq![json_encoded(owned->0)] =~= Seq::<Seq<u8>>::empty().push(
                    json_encoded(owned->0),
                ));
                assert(encodings(out.push(owned->0)).to_multiset() =~= encodings(
                    prior,
                ).to_multiset());
            } else {
                lemma_one_is_sole(out, back);
                let k = choose|k: int| sole(out, back, k);
                lemma_filter_sole(out, back, k);
                assert(seq![out[k]][0] == out[k]);
                assert(same_json(owned->0, out[k]));
                assert(out[k] == owned->0) by {
                    lemma_filter_has(current, other, out[k]);
                    assert(out.contains(out[k]));
                    let j = choose|j: int| 0 <= j < current.len() && current[j] == out[k];
                    assert(same_json(owned->0, current[j]));
                }
                assert(encodings(out).to_multiset() =~= encodings(prior).to_multiset());
            }
        } else {
            assert(encodings(out).to_multiset() =~= encodings(prior).to_multiset());
        }
    }
}

/// The steps that undo an installation put back the record, the settings of Pi, the plugin
/// files and the rescue files, in this order; they remove the generation exactly where the
/// installation made it, and they forget the journal last.
pub proof fn law_rollback_puts_everything_back(t: InstallTransaction)
    ensures
        ({
            let s = steps_of(t);
            let first: int = if s[0] == RollbackStep::RestorePredecessorRescue {
                1
            } else {
                0
            };
            &&& s[first] == RollbackStep::RestoreRecord
            &&& s[first + 1] == RollbackStep::RestorePi
            &&& s[first + 2] == RollbackStep::RestorePlugin
            &&& s[first + 3] == RollbackStep::RestoreRescue
            &&& t.generation_created ==> s[first + 4] == RollbackStep::RemoveGeneration && s.len()
                == first + 7
            &&& !t.generation_created ==> s.len() == first + 6
            &&& s[s.len() - 2] == RollbackStep::ProvePrior
            &&& s[s.len() - 1] == RollbackStep::ClearJournal
            &&& first == 1 <==> t.schema_version == LEGACY_TRANSACTION_SCHEMA && t.phase
                == TransactionPhase::PiMutating && t.new_record is None && t.prior_record is Some
        }),
{
}

/// An installation whose record is committed is never undone, and one whose record is not
/// is undone, unless it is an older one that had nothing left but to commit.
pub proof fn law_only_uncommitted_journals_roll_back(
    t: InstallTransaction,
    legacy: LegacyPiMutatedRescueState,
)
    ensures
        route_of(t, legacy) == ReconcileRoute::RollBack ==> t.phase
            != TransactionPhase::RecordCommitted,
        t.phase == TransactionPhase::RecordCommitted ==> route_of(t, legacy)
            == ReconcileRoute::FinishCommitted,
        t.schema_version != LEGACY_TRANSACTION_SCHEMA && t.phase
            != TransactionPhase::RecordCommitted ==> route_of(t, legacy)
            == ReconcileRoute::RollBack,
        route_of(t, legacy) == ReconcileRoute::CompletePredecessor ==> t.phase
            == TransactionPhase::PiMutated && t.prior_record is Some && t.new_record is None
            && legacy == LegacyPiMutatedRescueState::PublishedNew,
        route_of(t, legacy) == ReconcileRoute::CompleteForward ==> t.phase
            == TransactionPhase::RecordCommitting && t.new_record is Some && t.prior_record is Some
            && t.prior_record->0.state != InstallState::Removed && t.prior_rescue_notice is None
            && t.prior_rescue_marker is None,
        rescue_decides(t) && legacy == LegacyPiMutatedRescueState::LivePrior ==> route_of(t, legacy)
            == ReconcileRoute::RollBack,
{
}

/// The state of before is proved by the check of its record; without a record there must
/// be none now, and neither of the plugin files.
pub proof fn law_the_state_of_before_is_proved(
    t: InstallTransaction,
    removed_check: Option<Failure>,
    record_check: Option<Failure>,
    record_exists: bool,
    helper_exists: bool,
    pointer_exists: bool,
)
    ensures
        ({
            let proof_failure = prior_proof(
                t,
                removed_check,
                record_check,
                record_exists,
                helper_exists,
                pointer_exists,
            );
            &&& t.prior_record is None ==> (proof_failure is None <==> !record_exists
                && !helper_exists && !pointer_exists)
            &&& t.prior_record is Some && t.prior_record->0.state == InstallState::Removed
                ==> proof_failure == removed_check
            &&& t.prior_record is Some && t.prior_record->0.state != InstallState::Removed
                ==> proof_failure == record_check
        }),
{
}

/// A tree is removed only where it is, entry by entry, the one that was recorded: the
/// generation that an undone installation made, and the generation that a finished one has
/// replaced. Nothing is removed of a generation that is still in use.
pub proof fn law_only_recorded_generations_are_removed(
    t: InstallTransaction,
    present: bool,
    stable: Seq<u8>,
    prior: RecordView,
    current: RecordView,
    snapshot: Option<SnapshotView>,
    tree: ManagedResult<StageSnapshot>,
)
    ensures
        created_generation(t, present, tree) is Ok ==> (created_generation(t, present, tree)->Ok_0
            is Some <==> present),
        created_generation(t, present, tree) is Ok && present ==> tree is Ok && same_snapshot(
            tree->Ok_0@,
            created_generation(t, present, tree)->Ok_0->0,
        ) && t.generation_stage_snapshot is Some && relocation(
            t.generation_stage_snapshot->0@,
            t.generation_stage@,
            t.generation@,
        ) == Ok::<SnapshotView, Failure>(created_generation(t, present, tree)->Ok_0->0),
        superseded(stable, prior, current, snapshot, tree) is Ok ==> ({
            let gone = superseded(stable, prior, current, snapshot, tree)->Ok_0;
            &&& prior.state == InstallState::Removed || parts(prior.pi_package_source) == parts(
                current.pi_package_source,
            ) ==> gone is None
            &&& gone is Some ==> gone == snapshot && tree is Ok && same_snapshot(
                tree->Ok_0@,
                gone->0,
            ) && parent(prior.pi_package_source) is Some && directly_in(
                parent(prior.pi_package_source)->0,
                child(stable, "generations"@),
            )
            &&& prior.state != InstallState::Removed && parts(prior.pi_package_source) != parts(
                current.pi_package_source,
            ) && parent(prior.pi_package_source) is Some ==> gone is Some
        }),
{
}

/// The rescue files are kept only where both are those that the record of before vouches
/// for; they are removed only where there was no installation before, and then exactly
/// those that were found, as the new record has them. A file that neither record vouches
/// for stops everything.
pub proof fn law_the_rescue_files_of_before_come_back(
    t: InstallTransaction,
    stable: Seq<u8>,
    found: RescueFound,
    source_notice: ManagedResult<Vec<u8>>,
)
    requires
        restore_plan(t, stable, found, source_notice) is Ok,
    ensures
        ({
            let plan = restore_plan(t, stable, found, source_notice)->Ok_0;
            let notice = rescue_notice(stable);
            let marker = rescue_marker_file(stable);
            let live = path_views(found.files->Ok_0@);
            let prior = live_prior(t);
            &&& t.new_record is None <==> plan is Untouched || plan is Predecessor
            &&& t.new_record is Some ==> found.files is Ok && (forall|i: int|
                0 <= i < live.len() ==> parts(#[trigger] live[i]) == parts(notice) || parts(live[i])
                    == parts(marker))
            &&& plan is Retire ==> prior is None
            &&& plan is Keep || plan is Rewrite ==> prior is Some && live.len() == 2
            &&& plan is Keep ==> ({
                let kept_notice = owned_for(prior->0.owned_files, notice);
                let kept_marker = owned_for(prior->0.owned_files, marker);
                &&& kept_notice is Some && kept_marker is Some
                &&& found.notice is Some && found.notice->0.sha256@ == kept_notice->0.sha256
                    && found.notice->0.mode == kept_notice->0.mode
                &&& found.marker is Some && found.marker->0.sha256@ == kept_marker->0.sha256
                    && found.marker->0.mode == kept_marker->0.mode
            })
            &&& t.new_record is Some && lists(live, notice) ==> vouched(
                opt_record(t.prior_record),
                notice,
                found.notice,
            ) || vouched(opt_record(t.new_record), notice, found.notice)
            &&& t.new_record is Some && lists(live, marker) ==> vouched(
                opt_record(t.prior_record),
                marker,
                found.marker,
            ) || vouched(opt_record(t.new_record), marker, found.marker)
            &&& plan is Retire ==> ({
                let files = plan->Retire_0;
                let listed = t.new_record->0@.owned_files;
                &&& files.len() == (if lists(live, marker) {
                    1int
                } else {
                    0
                }) + (if lists(live, notice) {
                    1int
                } else {
                    0
                })
                &&& lists(live, marker) ==> owned_for(listed, marker) == Some(files[0])
                &&& lists(live, notice) ==> owned_for(listed, notice) == Some(files.last())
            })
        }),
{
    if t.new_record is Some {
        let notice = rescue_notice(stable);
        let marker = rescue_marker_file(stable);
        let live = path_views(found.files->Ok_0@);
        assert forall|i: int| 0 <= i < live.len() implies parts(#[trigger] live[i]) == parts(notice)
            || parts(live[i]) == parts(marker) by {
            if !same_path(live[i], notice) && !same_path(live[i], marker) {
                assert(rollback_inventory_failure(t, stable, live, found) is Some);
            }
        }
    }
}

/// A found file is vouched for exactly where the record has an entry for its path with the
/// mode and the digest that were found.
pub proof fn law_vouching_compares_mode_and_digest(
    record: Option<RecordView>,
    path: Seq<u8>,
    found: Option<FileDigest>,
)
    ensures
        vouched(record, path, found) <==> record is Some && found is Some && owned_for(
            record->0.owned_files,
            path,
        ) is Some && owned_for(record->0.owned_files, path)->0.mode == found->0.mode && owned_for(
            record->0.owned_files,
            path,
        )->0.sha256 == found->0.sha256@,
{
}

/// What an older journal left in the rescue directory is kept or written again only as the
/// record of before vouches for it, and never without a record in use.
pub proof fn law_an_older_rescue_comes_back_as_recorded(
    t: InstallTransaction,
    stable: Seq<u8>,
    found: RescueFound,
    interrupted: Option<Failure>,
    source_notice: ManagedResult<Vec<u8>>,
)
    requires
        predecessor_plan(t, stable, found, interrupted, source_notice) is Ok,
    ensures
        ({
            let plan = predecessor_plan(t, stable, found, interrupted, source_notice)->Ok_0;
            let prior = t.prior_record->0@;
            let notice = owned_for(prior.owned_files, rescue_notice(stable));
            let marker = owned_for(prior.owned_files, rescue_marker_file(stable));
            &&& t.prior_record is Some && prior.state != InstallState::Removed
            &&& notice is Some && marker is Some
            &&& plan is Keep || plan is Rewrite
            &&& plan is Keep ==> found.notice is Some && found.notice->0.sha256@
                == notice->0.sha256 && found.marker is Some && found.marker->0.sha256@
                == marker->0.sha256
            &&& plan is Rewrite ==> interrupted is None && sha256_text(plan->notice)
                == notice->0.sha256 && sha256_text(plan->marker) == marker->0.sha256
                && source_notice is Ok && source_notice->Ok_0@ == plan->notice
        }),
{
}

/// Rescue files count as published by a record only where the directory has exactly the
/// two files, and each is the one that was made, private and as the record lists it.
pub proof fn law_published_rescue_files_are_the_made_ones(
    record: RecordView,
    expected: PreparedRescueAssets,
    found: RescueFound,
)
    requires
        published_rescue_failure(record, expected, found) is None,
    ensures
        found.files is Ok,
        all_parts(path_views(found.files->Ok_0@)) == all_parts(
            planned_order(seq![expected.rescue@, expected.marker@]),
        ),
        found.notice is Some && found.notice->0.mode == 0o600 && found.notice->0.sha256@
            == sha256_text(expected.notice@),
        found.marker is Some && found.marker->0.mode == 0o600 && found.marker->0.sha256@
            == sha256_text(expected.marker_bytes@),
        owned_for(record.owned_files, expected.rescue@) is Some && owned_for(
            record.owned_files,
            expected.rescue@,
        )->0.sha256 == sha256_text(expected.notice@),
        owned_for(record.owned_files, expected.marker@) is Some && owned_for(
            record.owned_files,
            expected.marker@,
        )->0.sha256 == sha256_text(expected.marker_bytes@),
{
}

/// The rescue files in place count as those of before only where both were read with the
/// digests that the record of before has.
pub proof fn law_live_rescue_files_are_the_recorded_ones(
    stable: Seq<u8>,
    prior: RecordView,
    files: ManagedResult<Vec<FsPath>>,
    notice: ManagedResult<Vec<u8>>,
    marker: ManagedResult<Vec<u8>>,
)
    requires
        live_rescue_failure(stable, prior, files, notice, marker) is None,
        prior.state != InstallState::Removed,
    ensures
        files is Ok && all_parts(path_views(files->Ok_0@)) == all_parts(
            planned_order(seq![rescue_notice(stable), rescue_marker_file(stable)]),
        ),
        notice is Ok && owned_for(prior.owned_files, rescue_notice(stable)) is Some && sha256_text(
            notice->Ok_0@,
        ) == owned_for(prior.owned_files, rescue_notice(stable))->0.sha256,
        marker is Ok && owned_for(prior.owned_files, rescue_marker_file(stable)) is Some
            && sha256_text(marker->Ok_0@) == owned_for(
            prior.owned_files,
            rescue_marker_file(stable),
        )->0.sha256,
{
}

/// A plugin stage is taken for a left-over only where it is exactly what a publication
/// that stopped would leave: all, only the pointer, or no file; and nothing is taken where
/// there is no stage.
pub proof fn law_a_left_plugin_stage_is_a_reachable_one(
    t: InstallTransaction,
    stage_present: bool,
    tree: ManagedResult<StageSnapshot>,
)
    requires
        live_plugin_stage(t, stage_present, tree) is Ok,
    ensures
        ({
            let left = live_plugin_stage(t, stage_present, tree)->Ok_0;
            &&& left is Some <==> stage_present
            &&& left is Some ==> t.plugin_stage_snapshot is Some && tree is Ok && same_snapshot(
                tree->Ok_0@,
                left->0,
            ) && left->0.directories == t.plugin_stage_snapshot->0@.directories
            &&& left is Some ==> ({
                let all = t.plugin_stage_snapshot->0@.files;
                let helper = child(t.plugin_stage@, "libexec/herdr-a2a-dispatch"@);
                let pointer = child(t.plugin_stage@, "stable-bin-path"@);
                let is_helper = |f: StageFileView| same_path(f.path, helper);
                let is_pointer = |f: StageFileView| same_path(f.path, pointer);
                let is_either = |f: StageFileView| is_helper(f) || is_pointer(f);
                left->0.files == all.filter(is_either) || left->0.files == all.filter(is_pointer)
                    || left->0.files.len() == 0
            })
        }),
{
    if stage_present && t.plugin_stage_snapshot is Some {
        let all = t.plugin_stage_snapshot->0@.files;
        let stage = t.plugin_stage@;
        let helper = child(stage, "libexec/herdr-a2a-dispatch"@);
        let pointer = child(stage, "stable-bin-path"@);
        let is_helper = |f: StageFileView| same_path(f.path, helper);
        let is_pointer = |f: StageFileView| same_path(f.path, pointer);
        let is_either = |f: StageFileView| is_helper(f) || is_pointer(f);
        lemma_filter_alike(all, crate::rollback::unpublished(stage, true, true), is_either);
        lemma_filter_alike(all, crate::rollback::unpublished(stage, false, true), is_pointer);
        lemma_filter_none(all, crate::rollback::unpublished(stage, false, false));
    }
}

/// The record of an older journal is written exactly where the one of before is still in
/// place; where the new one is, it is not written again, and any other record stops it.
pub proof fn law_an_older_record_is_written_once(t: InstallTransaction, live: Option<RecordView>)
    ensures
        forward_record(t, live) == Ok::<bool, Failure>(true) <==> same_opt_record(
            live,
            opt_record(t.prior_record),
        ),
        forward_record(t, live) == Ok::<bool, Failure>(false) <==> !same_opt_record(
            live,
            opt_record(t.prior_record),
        ) && live is Some && t.new_record is Some && same_record(live->0, t.new_record->0@),
{
}

/// A plugin file comes back from its backup where there is one; without a backup it goes
/// where there was none before, stays where it is the one of before, and is missed where
/// that is gone.
pub proof fn law_a_backup_always_comes_back(backup: bool, existed: bool, target: bool)
    ensures
        backup ==> file_restore(backup, existed, target) == Ok::<FileRestore, Failure>(
            FileRestore::RestoreBackup,
        ),
        !backup && !existed ==> file_restore(backup, existed, target) == Ok::<FileRestore, Failure>(
            FileRestore::RemoveTarget,
        ),
        !backup && existed && target ==> file_restore(backup, existed, target) == Ok::<
            FileRestore,
            Failure,
        >(FileRestore::Keep),
        !backup && existed && !target ==> file_restore(backup, existed, target) is Err,
{
}

/// A stage is removed only by the snapshot that was recorded of it; one that is there
/// without a snapshot is left for somebody to look at.
pub proof fn law_only_recorded_stages_are_removed(staged: Option<SnapshotView>, present: bool)
    ensures
        generation_stage_left(staged, present) is Err <==> present && staged is None,
        plugin_stage_left(staged, present) is Err <==> present && staged is None,
        generation_stage_left(staged, present) is Ok ==> generation_stage_left(
            staged,
            present,
        )->Ok_0 == (if present {
            staged
        } else {
            None
        }),
        plugin_stage_left(staged, present) is Ok ==> plugin_stage_left(staged, present)->Ok_0
            == staged,
{
}

/// The rescue files of before are kept just where there is a live installation, and a
/// removed one has none to keep.
pub proof fn law_only_live_rescue_files_are_kept(
    prior: Option<RecordView>,
    stable: Seq<u8>,
    notice: ManagedResult<Vec<u8>>,
    marker: ManagedResult<Vec<u8>>,
)
    ensures
        prior is None || prior->0.state is Removed ==> uncaptured(prior, stable, notice, marker)
            is None,
        prior is Some && !(prior->0.state is Removed) ==> uncaptured(prior, stable, notice, marker)
            == capture_failure(prior->0, stable, notice, marker),
{
}

/// The rescue files of before can be kept just when both are recorded, were read within
/// their limit and have the recorded digests, and the record vouches for the marker.
pub proof fn law_kept_rescue_files_have_their_digests(
    prior: RecordView,
    stable: Seq<u8>,
    notice: ManagedResult<Vec<u8>>,
    marker: ManagedResult<Vec<u8>>,
)
    ensures
        capture_failure(prior, stable, notice, marker) is None <==> ({
            let n = owned_for(prior.owned_files, rescue_notice(stable));
            let m = owned_for(prior.owned_files, rescue_marker_file(stable));
            &&& n is Some && m is Some
            &&& notice is Ok && notice->Ok_0@.len() <= 65536 && sha256_text(notice->Ok_0@)
                == n->0.sha256
            &&& marker is Ok && marker->Ok_0@.len() <= 65536 && sha256_text(marker->Ok_0@)
                == m->0.sha256
            &&& marker_authenticated(prior, m->0, marker->Ok_0@)
        }),
{
}

/// The rescue files of before are left where both are in place with their modes and digests
/// and nothing else is there; otherwise they are written again from bytes that the record
/// of before vouches for, and nothing else is ever written.
pub proof fn law_rescue_files_of_before_are_kept_or_rewritten(
    t: InstallTransaction,
    prior: RecordView,
    stable: Seq<u8>,
    live: Seq<Seq<u8>>,
    found: RescueFound,
    source_notice: ManagedResult<Vec<u8>>,
)
    ensures
        ({
            let n = owned_for(prior.owned_files, rescue_notice(stable));
            let m = owned_for(prior.owned_files, rescue_marker_file(stable));
            let r = restore_prior(t, prior, stable, live, found, source_notice);
            let in_place = live.len() == 2 && found.notice is Some && found.marker is Some && (
            found.notice->0.mode, found.notice->0.sha256@) == (n->0.mode, n->0.sha256) && (
            found.marker->0.mode, found.marker->0.sha256@) == (m->0.mode, m->0.sha256);
            let bytes = bytes_of_before(t, prior, stable, source_notice);
            &&& n is None || m is None ==> r is Err
            &&& n is Some && m is Some ==> (r == Ok::<RestoreView, Failure>(RestoreView::Keep)
                <==> in_place)
            &&& r is Ok && !in_place ==> bytes is Ok && r->Ok_0 == (RestoreView::Rewrite {
                notice: bytes->Ok_0.0,
                marker: bytes->Ok_0.1,
            }) && sha256_text(bytes->Ok_0.0) == n->0.sha256 && sha256_text(bytes->Ok_0.1)
                == m->0.sha256
            &&& n is Some && m is Some && !in_place && bytes is Ok && kept_rescue_failure(
                prior,
                stable,
                bytes->Ok_0.0,
                bytes->Ok_0.1,
                unrecovered("prior rescue snapshot cannot be restored exactly"@),
            ) is None ==> r is Ok
        }),
{
}

/// The bytes of the rescue files of before are those that the journal keeps, both of them;
/// a journal that keeps none has them made again just while its record is committed or
/// renamed.
pub proof fn law_bytes_of_before_come_from_the_journal(
    t: InstallTransaction,
    prior: RecordView,
    stable: Seq<u8>,
    source_notice: ManagedResult<Vec<u8>>,
)
    ensures
        ({
            let r = bytes_of_before(t, prior, stable, source_notice);
            let notice = t.prior_rescue_notice;
            let marker = t.prior_rescue_marker;
            &&& notice is Some && marker is Some ==> r == Ok::<(Seq<u8>, Seq<u8>), Failure>(
                (notice->0@, marker->0@),
            )
            &&& notice is Some != marker is Some ==> r is Err
            &&& notice is None && marker is None && !(t.phase is RecordCommitting || t.phase
                is RecordRenaming) ==> r is Err
            &&& notice is None && marker is None && (t.phase is RecordCommitting || t.phase
                is RecordRenaming) ==> (r is Ok <==> source_notice is Ok && marker_of(
                unmarked(prior, stable),
                stable,
            ) is Ok)
            &&& notice is None && marker is None && r is Ok ==> r->Ok_0.0 == source_notice->Ok_0@
                && r->Ok_0.1 == utf8(marker_of(unmarked(prior, stable), stable)->Ok_0)
        }),
{
}

/// A first installation that is rolled back takes away the rescue files that are there, the
/// marker before the notice, each as the new record lists it.
pub proof fn law_new_rescue_files_are_retired(
    new_record: RecordView,
    stable: Seq<u8>,
    live: Seq<Seq<u8>>,
)
    ensures
        ({
            let r = retired(new_record, stable, live);
            let m = owned_for(new_record.owned_files, rescue_marker_file(stable));
            let n = owned_for(new_record.owned_files, rescue_notice(stable));
            let has_m = lists(live, rescue_marker_file(stable));
            let has_n = lists(live, rescue_notice(stable));
            &&& r is Ok <==> (has_m ==> m is Some) && (has_n ==> n is Some)
            &&& r is Ok && has_m && has_n ==> r->Ok_0 == seq![m->0, n->0]
            &&& r is Ok && has_m && !has_n ==> r->Ok_0 == seq![m->0]
            &&& r is Ok && !has_m && has_n ==> r->Ok_0 == seq![n->0]
            &&& r is Ok && !has_m && !has_n ==> r->Ok_0.len() == 0
        }),
{
    let r = retired(new_record, stable, live);
    let m = owned_for(new_record.owned_files, rescue_marker_file(stable));
    let n = owned_for(new_record.owned_files, rescue_notice(stable));
    if r is Ok {
        assert(r->Ok_0.len() == 2 ==> r->Ok_0 =~= seq![m->0, n->0]);
        assert(r->Ok_0.len() == 1 ==> r->Ok_0 =~= seq![m->0] || r->Ok_0 =~= seq![n->0]);
        assert(Seq::<OwnedFileView>::empty().push(n->0) =~= seq![n->0]);
        assert(seq![m->0].push(n->0) =~= seq![m->0, n->0]);
    }
}

/// The rescue directory is rolled back just when it holds nothing but the notice and the
/// marker, both of them over a live installation, and each is one that a record vouches for.
pub proof fn law_only_vouched_rescue_files_are_rolled_back(
    t: InstallTransaction,
    stable: Seq<u8>,
    live: Seq<Seq<u8>>,
    found: RescueFound,
)
    ensures
        rollback_inventory_failure(t, stable, live, found) is None <==> {
            &&& forall|i: int|
                0 <= i < live.len() ==> parts(#[trigger] live[i]) == parts(rescue_notice(stable))
                    || parts(live[i]) == parts(rescue_marker_file(stable))
            &&& live_prior(t) is Some ==> live.len() == 2
            &&& lists(live, rescue_notice(stable)) ==> vouched(
                opt_record(t.prior_record),
                rescue_notice(stable),
                found.notice,
            ) || vouched(opt_record(t.new_record), rescue_notice(stable), found.notice)
            &&& lists(live, rescue_marker_file(stable)) ==> vouched(
                opt_record(t.prior_record),
                rescue_marker_file(stable),
                found.marker,
            ) || vouched(opt_record(t.new_record), rescue_marker_file(stable), found.marker)
        },
{
}

} // verus!
