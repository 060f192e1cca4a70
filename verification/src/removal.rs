//! The removal of an installation: what it may remove, and in which steps.

use vstd::prelude::*;
use vstd::string::*;
use crate::error::{
    fail, failure, failure_text, or_else, outcome, recoded, Failure, ManagedError, ManagedResult,
};
use crate::json::{json_views, same_json, JsonView};
use crate::layout::{
    helper_path, itself, law_marking_keeps_a_record_accepted, path_views, pointer_path,
    record_failure, removal_directories, removal_dirs, restated, validate_record_semantics,
};
use crate::order::{lemma_sorted_map, location_key, sort_located, sorted_by, SortOrder};
use crate::lists::{
    lemma_filter_has, lemma_filter_none, lemma_filter_sole, lemma_joined_has, lemma_one_is_sole,
    none_of, sole,
};
use crate::path::{child, parts, path_under, same_path, FsPath};
use crate::pathset::all_parts;
use crate::pi::{entry_matches, inspect_matching, leads_to, matching, PiSettings};
use crate::record::{
    copy_owned_files, opt_record, owned_for, owned_key, owned_views, record_owned_file,
    removal_in_progress, InstallState, OwnedFile, OwnedFileView, OwnershipRecord, RecordView,
};
use crate::recovery::opt_str;
use crate::rollback::{check_all, first_failure};
use crate::snapshot::{same_snapshot, SnapshotView, StageSnapshot};
use crate::text::text_eq;

verus! {

/// The schema of the journal of a purge.
pub const REMOVAL_TRANSACTION_SCHEMA: u32 = 1;

/// The most plugin registrations that a listing may hold.
pub const MAX_HERDR_PLUGIN_REGISTRATIONS: usize = 8;

/// What a removal reports.
#[derive(Debug)]
pub struct RemovalResult {
    pub state: &'static str,
    pub retained_data: bool,
}

/// What a removal reports: data is retained unless it was purged.
pub fn removal_result(purge: bool) -> (r: RemovalResult)
    ensures
        r.state@ == "removed"@,
        r.retained_data == !purge,
{
    RemovalResult { state: "removed", retained_data: !purge }
}

/// How far a purge has come.
#[derive(Clone, Copy, Debug, PartialEq, Eq, Structural)]
pub enum RemovalTransactionPhase {
    Intent,
    Deleting,
    Deleted,
}

/// The journal of a purge.
#[derive(Debug)]
pub struct RemovalTransaction {
    pub schema_version: u32,
    pub phase: RemovalTransactionPhase,
    pub purge_root: FsPath,
    pub purge_snapshot: StageSnapshot,
    pub skip_herdr_unregister: bool,
}

/// The journal of a purge is for the state directory of a record, and everything
/// in it lies there.
pub open spec fn purge_journal_ok(t: RemovalTransaction, record: RecordView, skip: bool) -> bool {
    let s = t.purge_snapshot@;
    &&& t.schema_version == REMOVAL_TRANSACTION_SCHEMA
    &&& record.purge_authority
    &&& same_path(t.purge_root@, record.plugin_state_root)
    &&& t.skip_herdr_unregister == skip
    &&& crate::snapshot::lists_root(s, t.purge_root@)
    &&& crate::snapshot::all_under(s, t.purge_root@)
}

fn is_all_under(s: &StageSnapshot, base: &FsPath) -> (r: (bool, bool))
    ensures
        r.0 == crate::snapshot::lists_root(s@, base@),
        r.1 == crate::snapshot::all_under(s@, base@),
{
    let mut listed = false;
    let mut under = true;
    let mut i: usize = 0;
    while i < s.directories.len()
        invariant
            i <= s.directories.len(),
            listed == exists|k: int|
                0 <= k < i && same_path(#[trigger] s@.directories[k].path, base@),
            under == forall|k: int|
                0 <= k < i ==> path_under((#[trigger] s@.directories[k]).path, base@),
        decreases s.directories.len() - i,
    {
        assert(s@.directories[i as int] == s.directories@[i as int]@);
        if s.directories[i].path.same(base) {
            assert(same_path(s@.directories[i as int].path, base@));
            listed = true;
        }
        if !s.directories[i].path.starts_with(base) {
            assert(!path_under(s@.directories[i as int].path, base@));
            under = false;
        }
        i += 1;
    }
    let mut files_under = true;
    let mut j: usize = 0;
    while j < s.files.len()
        invariant
            j <= s.files.len(),
            files_under == forall|k: int|
                0 <= k < j ==> path_under((#[trigger] s@.files[k]).path, base@),
        decreases s.files.len() - j,
    {
        assert(s@.files[j as int] == s.files@[j as int]@);
        if !s.files[j].path.starts_with(base) {
            assert(!path_under(s@.files[j as int].path, base@));
            files_under = false;
        }
        j += 1;
    }
    assert(s@.directories.len() == s.directories@.len());
    assert(s@.files.len() == s.files@.len());
    (listed, under && files_under)
}

/// Checks the journal of a purge against the record.
pub fn validate_removal_transaction(
    t: &RemovalTransaction,
    record: &OwnershipRecord,
    skip_herdr_unregister: bool,
) -> (r: ManagedResult<()>)
    ensures
        failure(r) == if purge_journal_ok(*t, record@, skip_herdr_unregister) {
            None
        } else {
            Some(
                (
                    "recovery_needed"@,
                    "the durable purge transaction does not match authenticated ownership"@,
                ),
            )
        },
{
    let (listed, under) = is_all_under(&t.purge_snapshot, &t.purge_root);
    if t.schema_version != REMOVAL_TRANSACTION_SCHEMA || !record.purge_authority
        || !t.purge_root.same(&record.plugin_state_root) || t.skip_herdr_unregister
        != skip_herdr_unregister || !listed || !under {
        return fail(
            "recovery_needed",
            "the durable purge transaction does not match authenticated ownership",
        );
    }
    Ok(())
}

/// What was found at the root of a purge.
#[derive(Debug)]
pub enum PurgeRootFound {
    Absent,
    Present(ManagedResult<StageSnapshot>),
    /// The operating system's error.
    Unknown(String),
}

/// What a purge has to do.
#[derive(Debug)]
pub enum PurgePlan {
    /// There is no purge.
    Skip,
    /// The purge of a journal goes on; the tree is still there or not.
    Resume { present: bool },
    /// A purge begins with this root and this tree.
    Begin { root: FsPath, snapshot: StageSnapshot },
}

/// What a purge has to do.
pub enum PurgeView {
    Skip,
    Resume { present: bool },
    Begin { root: Seq<u8>, snapshot: SnapshotView },
}

impl View for PurgePlan {
    type V = PurgeView;

    open spec fn view(&self) -> PurgeView {
        match self {
            PurgePlan::Skip => PurgeView::Skip,
            PurgePlan::Resume { present } => PurgeView::Resume { present: *present },
            PurgePlan::Begin { root, snapshot } => PurgeView::Begin {
                root: root@,
                snapshot: snapshot@,
            },
        }
    }
}

/// How the purge of a journal goes on, or why it cannot.
pub open spec fn resumed_purge(
    t: RemovalTransaction,
    record: RecordView,
    skip: bool,
    found: PurgeRootFound,
) -> Result<PurgeView, Failure> {
    if !purge_journal_ok(t, record, skip) {
        Err(
            (
                "recovery_needed"@,
                "the durable purge transaction does not match authenticated ownership"@,
            ),
        )
    } else {
        match found {
            PurgeRootFound::Present(tree) => if t.phase == RemovalTransactionPhase::Deleted {
                Err(
                    (
                        "unsafe_owned_state"@,
                        "a deleted authenticated purge root unexpectedly reappeared"@,
                    ),
                )
            } else {
                match tree {
                    Err(e) => Err(("unsafe_owned_state"@, failure_text(e@))),
                    Ok(live) => if same_snapshot(live@, t.purge_snapshot@) {
                        Ok(PurgeView::Resume { present: true })
                    } else {
                        Err(
                            (
                                "unsafe_owned_state"@,
                                "the authenticated purge tree changed during recovery"@,
                            ),
                        )
                    },
                }
            },
            PurgeRootFound::Absent => if t.phase == RemovalTransactionPhase::Intent {
                Err(
                    (
                        "unsafe_owned_state"@,
                        "the purge root disappeared before deletion was authorized"@,
                    ),
                )
            } else {
                Ok(PurgeView::Resume { present: false })
            },
            PurgeRootFound::Unknown(e) => Err(
                (
                    "unsafe_owned_state"@,
                    "cannot inspect authenticated purge recovery root"@ + ": "@ + e@,
                ),
            ),
        }
    }
}

/// What a removal has to do about purging, or why it cannot.
pub open spec fn purge_plan(
    purge: bool,
    existing: Option<RemovalTransaction>,
    record: RecordView,
    skip: bool,
    found: PurgeRootFound,
    fresh_root: ManagedResult<FsPath>,
    fresh_tree: ManagedResult<StageSnapshot>,
) -> Result<PurgeView, Failure> {
    match existing {
        Some(t) => if !purge {
            Err(
                (
                    "recovery_needed"@,
                    "an authenticated purge must be resumed with --purge"@,
                ),
            )
        } else {
            resumed_purge(t, record, skip, found)
        },
        None => if !purge {
            Ok(PurgeView::Skip)
        } else {
            match fresh_root {
                Err(e) => Err(e@),
                Ok(root) => match fresh_tree {
                    Err(e) => Err(("unsafe_owned_state"@, failure_text(e@))),
                    Ok(snapshot) => Ok(PurgeView::Begin { root: root@, snapshot: snapshot@ }),
                },
            }
        },
    }
}

/// Plans what a removal has to do about purging.
pub fn plan_purge(
    purge: bool,
    existing: &Option<RemovalTransaction>,
    record: &OwnershipRecord,
    skip_herdr_unregister: bool,
    found: &PurgeRootFound,
    fresh_root: &ManagedResult<FsPath>,
    fresh_tree: &ManagedResult<StageSnapshot>,
) -> (r: ManagedResult<PurgePlan>)
    ensures
        outcome(r) == purge_plan(
            purge,
            *existing,
            record@,
            skip_herdr_unregister,
            *found,
            *fresh_root,
            *fresh_tree,
        ),
{
    let Some(t) = existing else {
        if !purge {
            return Ok(PurgePlan::Skip);
        }
        let root = match fresh_root {
            Ok(root) => root.copy(),
            Err(e) => {
                return Err(e.copy());
            },
        };
        let snapshot = match fresh_tree {
            Ok(snapshot) => snapshot.copy(),
            Err(e) => {
                return Err(e.copy().recode("unsafe_owned_state"));
            },
        };
        return Ok(PurgePlan::Begin { root, snapshot });
    };
    if !purge {
        return fail("recovery_needed", "an authenticated purge must be resumed with --purge");
    }
    validate_removal_transaction(t, record, skip_herdr_unregister)?;
    match found {
        PurgeRootFound::Present(tree) => {
            if t.phase == RemovalTransactionPhase::Deleted {
                return fail(
                    "unsafe_owned_state",
                    "a deleted authenticated purge root unexpectedly reappeared",
                );
            }
            match tree {
                Err(e) => Err(e.copy().recode("unsafe_owned_state")),
                Ok(live) => {
                    if !live.same(&t.purge_snapshot) {
                        return fail(
                            "unsafe_owned_state",
                            "the authenticated purge tree changed during recovery",
                        );
                    }
                    Ok(PurgePlan::Resume { present: true })
                },
            }
        },
        PurgeRootFound::Absent => {
            if t.phase == RemovalTransactionPhase::Intent {
                return fail(
                    "unsafe_owned_state",
                    "the purge root disappeared before deletion was authorized",
                );
            }
            Ok(PurgePlan::Resume { present: false })
        },
        PurgeRootFound::Unknown(e) => Err(
            ManagedError::io(
                "unsafe_owned_state",
                "cannot inspect authenticated purge recovery root",
                e.as_str(),
            ),
        ),
    }
}

/// The journal of a purge that begins with a root and the tree that was found there.
pub fn begin_purge(root: FsPath, snapshot: StageSnapshot, skip_herdr_unregister: bool) -> (r:
    RemovalTransaction)
    ensures
        r.schema_version == REMOVAL_TRANSACTION_SCHEMA,
        r.phase == RemovalTransactionPhase::Intent,
        r.purge_root == root,
        r.purge_snapshot == snapshot,
        r.skip_herdr_unregister == skip_herdr_unregister,
{
    RemovalTransaction {
        schema_version: REMOVAL_TRANSACTION_SCHEMA,
        phase: RemovalTransactionPhase::Intent,
        purge_root: root,
        purge_snapshot: snapshot,
        skip_herdr_unregister,
    }
}

/// A purge that begins can be resumed: its journal is accepted for the record that it
/// began with, and while the tree is untouched the purge goes on with it.
pub proof fn law_begun_purge_can_be_resumed(
    t: RemovalTransaction,
    record: RecordView,
    skip: bool,
    tree: StageSnapshot,
)
    requires
        t.schema_version == REMOVAL_TRANSACTION_SCHEMA,
        t.phase == RemovalTransactionPhase::Intent,
        t.skip_herdr_unregister == skip,
        record.purge_authority,
        same_path(t.purge_root@, record.plugin_state_root),
        crate::snapshot::lists_root(t.purge_snapshot@, t.purge_root@),
        crate::snapshot::all_under(t.purge_snapshot@, t.purge_root@),
        crate::snapshot::same_snapshot(tree@, t.purge_snapshot@),
    ensures
        purge_journal_ok(t, record, skip),
        resumed_purge(t, record, skip, PurgeRootFound::Present(Ok(tree))) == Ok::<
            PurgeView,
            Failure,
        >(PurgeView::Resume { present: true }),
{
}

/// A purge never begins or goes on without the recorded authority.
pub proof fn law_resumed_purge_has_authority(
    t: RemovalTransaction,
    record: RecordView,
    skip: bool,
    found: PurgeRootFound,
)
    requires
        resumed_purge(t, record, skip, found) is Ok,
    ensures
        record.purge_authority,
        same_path(t.purge_root@, record.plugin_state_root),
        crate::snapshot::all_under(t.purge_snapshot@, t.purge_root@),
{
}

/// The files that stay until the plugin is unregistered: the binary, the helper
/// and the pointer.
pub open spec fn retained_paths(record: RecordView) -> Seq<Seq<u8>> {
    seq![record.stable_binary, helper_path(record.plugin_root), pointer_path(record.plugin_root)]
}

/// Why unregistering cannot keep the files that it needs.
pub open spec fn retained_missing(record: RecordView) -> Option<Failure> {
    if forall|i: int|
        0 <= i < 3 ==> owned_for(
            record.owned_files,
            #[trigger] retained_paths(record)[i],
        ) is Some {
        None
    } else {
        Some(
            (
                "ownership_record_missing"@,
                "the stable unregister helper inventory is incomplete"@,
            ),
        )
    }
}

/// The files that stay until the plugin is unregistered, if the record has them.
pub fn unregister_retained_paths(record: &OwnershipRecord) -> (r: ManagedResult<Vec<FsPath>>)
    ensures
        failure(r) == retained_missing(record@),
        r is Ok ==> path_views(r->Ok_0@) == retained_paths(record@),
{
    let mut paths: Vec<FsPath> = Vec::new();
    paths.push(record.stable_binary.copy());
    paths.push(record.plugin_root.join("libexec/herdr-a2a-dispatch"));
    paths.push(record.plugin_root.join("stable-bin-path"));
    assert(path_views(paths@) =~= retained_paths(record@));
    let mut i: usize = 0;
    while i < 3
        invariant
            i <= 3,
            paths@.len() == 3,
            path_views(paths@) == retained_paths(record@),
            forall|k: int|
                0 <= k < i ==> owned_for(
                    record@.owned_files,
                    #[trigger] retained_paths(record@)[k],
                ) is Some,
        decreases 3 - i,
    {
        assert(retained_paths(record@)[i as int] == paths@[i as int]@);
        if record_owned_file(record, &paths[i]).is_none() {
            assert(owned_for(record@.owned_files, retained_paths(record@)[i as int]) is None);
            return fail(
                "ownership_record_missing",
                "the stable unregister helper inventory is incomplete",
            );
        }
        i += 1;
    }
    Ok(paths)
}

/// A file is not among the retained ones.
pub open spec fn not_retained(retained: Seq<Seq<u8>>) -> spec_fn(OwnedFileView) -> bool {
    |f: OwnedFileView| !all_parts(retained).contains(parts(f.path))
}

/// The files that a removal unlinks: deepest first, without the retained ones.
pub open spec fn files_to_unlink(record: RecordView, retained: Seq<Seq<u8>>) -> Seq<OwnedFileView> {
    sorted_by(SortOrder::DeepestFirst, record.owned_files, owned_key()).filter(
        not_retained(retained),
    )
}

/// A directory holds none of the retained files.
pub open spec fn holds_none(retained: Seq<Seq<u8>>) -> spec_fn(Seq<u8>) -> bool {
    |d: Seq<u8>|
        forall|i: int| 0 <= i < retained.len() ==> !path_under(#[trigger] retained[i], d)
}

/// The directories that a removal removes once they are empty: deepest first,
/// without those that hold retained files.
pub open spec fn dirs_to_remove(dirs: Seq<Seq<u8>>, retained: Seq<Seq<u8>>) -> Seq<Seq<u8>> {
    sorted_by(SortOrder::DeepestFirst, dirs, itself()).filter(holds_none(retained))
}

fn is_listed(paths: &Vec<FsPath>, p: &FsPath) -> (r: bool)
    ensures
        r == all_parts(path_views(paths@)).contains(parts(p@)),
{
    let ghost all = all_parts(path_views(paths@));
    let mut i: usize = 0;
    while i < paths.len()
        invariant
            i <= paths.len(),
            all == all_parts(path_views(paths@)),
            forall|k: int| 0 <= k < i ==> #[trigger] all[k] != parts(p@),
        decreases paths.len() - i,
    {
        assert(all[i as int] == parts(paths@[i as int]@));
        if paths[i].same(p) {
            return true;
        }
        i += 1;
    }
    false
}

fn holds_any(retained: &Vec<FsPath>, d: &FsPath) -> (r: bool)
    ensures
        r == !holds_none(path_views(retained@))(d@),
{
    let ghost views = path_views(retained@);
    let mut i: usize = 0;
    while i < retained.len()
        invariant
            i <= retained.len(),
            views == path_views(retained@),
            forall|k: int| 0 <= k < i ==> !path_under(#[trigger] views[k], d@),
        decreases retained.len() - i,
    {
        assert(views[i as int] == retained@[i as int]@);
        if retained[i].starts_with(d) {
            return true;
        }
        i += 1;
    }
    false
}

/// The files that a removal unlinks, in order.
pub fn plan_unlinks(record: &OwnershipRecord, retained: &Vec<FsPath>) -> (r: Vec<OwnedFile>)
    ensures
        owned_views(r@) == files_to_unlink(record@, path_views(retained@)),
{
    let copied = copy_owned_files(&record.owned_files);
    proof {
        lemma_sorted_map(
            SortOrder::DeepestFirst,
            copied@,
            |f: OwnedFile| f@,
            location_key::<OwnedFile>(),
            owned_key(),
        );
    }
    let ordered = sort_located(SortOrder::DeepestFirst, copied);
    let ghost views = owned_views(ordered@);
    let ghost keep = not_retained(path_views(retained@));
    let mut out: Vec<OwnedFile> = Vec::new();
    let mut i: usize = 0;
    proof {
        reveal(Seq::filter);
        assert(owned_views(out@) =~= views.take(0).filter(keep));
    }
    while i < ordered.len()
        invariant
            i <= ordered.len(),
            views == owned_views(ordered@),
            keep == not_retained(path_views(retained@)),
            owned_views(out@) == views.take(i as int).filter(keep),
        decreases ordered.len() - i,
    {
        let ghost before = out@;
        proof {
            crate::pi::lemma_filter_next(views, keep, i as int);
            assert(views[i as int] == ordered@[i as int]@);
        }
        if !is_listed(retained, &ordered[i].path) {
            out.push(ordered[i].copy());
            assert(owned_views(out@) =~= owned_views(before).push(views[i as int]));
        }
        i += 1;
    }
    assert(views.take(i as int) =~= views);
    out
}

/// The directories that a removal removes, beside those of retained files.
pub open spec fn directories_left(dirs: Result<Seq<Seq<u8>>, Failure>, retained: Seq<Seq<u8>>) -> Result<
    Seq<Seq<u8>>,
    Failure,
> {
    match dirs {
        Ok(all) => Ok(dirs_to_remove(all, retained)),
        Err(f) => Err(f),
    }
}

/// The directories that a removal removes once they are empty, in order.
pub fn plan_directory_removals(
    record: &OwnershipRecord,
    stable_root: &FsPath,
    retained: &Vec<FsPath>,
) -> (r: ManagedResult<Vec<FsPath>>)
    ensures
        (match r {
            Ok(v) => Ok::<Seq<Seq<u8>>, Failure>(path_views(v@)),
            Err(e) => Err(e@),
        }) == directories_left(removal_dirs(record@, stable_root@), path_views(retained@)),
{
    let listed = removal_directories(record, stable_root)?;
    proof {
        lemma_sorted_map(
            SortOrder::DeepestFirst,
            listed@,
            |p: FsPath| p@,
            location_key::<FsPath>(),
            itself(),
        );
    }
    let ordered = sort_located(SortOrder::DeepestFirst, listed);
    let ghost views = path_views(ordered@);
    let ghost keep = holds_none(path_views(retained@));
    let mut out: Vec<FsPath> = Vec::new();
    let mut i: usize = 0;
    proof {
        reveal(Seq::filter);
        assert(path_views(out@) =~= views.take(0).filter(keep));
    }
    while i < ordered.len()
        invariant
            i <= ordered.len(),
            views == path_views(ordered@),
            keep == holds_none(path_views(retained@)),
            path_views(out@) == views.take(i as int).filter(keep),
        decreases ordered.len() - i,
    {
        let ghost before = out@;
        proof {
            crate::pi::lemma_filter_next(views, keep, i as int);
            assert(views[i as int] == ordered@[i as int]@);
        }
        if !holds_any(retained, &ordered[i]) {
            out.push(ordered[i].copy());
            assert(path_views(out@) =~= path_views(before).push(views[i as int]));
        }
        i += 1;
    }
    assert(views.take(i as int) =~= views);
    Ok(out)
}

/// A removal unlinks nothing but files that the record owns.
pub proof fn law_removal_unlinks_only_owned_files(
    record: RecordView,
    retained: Seq<Seq<u8>>,
    i: int,
)
    requires
        0 <= i < files_to_unlink(record, retained).len(),
    ensures
        record.owned_files.contains(files_to_unlink(record, retained)[i]),
        !all_parts(retained).contains(parts(files_to_unlink(record, retained)[i].path)),
{
    let sorted = sorted_by(SortOrder::DeepestFirst, record.owned_files, owned_key());
    crate::transaction::lemma_filter_members(sorted, not_retained(retained), i);
    crate::order::lemma_sorting_keeps_items(
        SortOrder::DeepestFirst,
        record.owned_files,
        owned_key(),
    );
    let f = files_to_unlink(record, retained)[i];
    vstd::seq_lib::to_multiset_contains(sorted, f);
    vstd::seq_lib::to_multiset_contains(record.owned_files, f);
}

/// The last part of a removal leaves no owned file behind: every one is unlinked
/// once nothing is retained any more.
pub proof fn law_removal_reaches_every_owned_file(record: RecordView, i: int)
    requires
        0 <= i < record.owned_files.len(),
    ensures
        files_to_unlink(record, Seq::empty()).contains(record.owned_files[i]),
{
    let sorted = sorted_by(SortOrder::DeepestFirst, record.owned_files, owned_key());
    crate::order::lemma_sorting_keeps_items(
        SortOrder::DeepestFirst,
        record.owned_files,
        owned_key(),
    );
    let f = record.owned_files[i];
    vstd::seq_lib::to_multiset_contains(sorted, f);
    vstd::seq_lib::to_multiset_contains(record.owned_files, f);
    assert(record.owned_files.contains(f));
    assert(all_parts(Seq::empty()).len() == 0);
    lemma_filter_keeps(sorted, not_retained(Seq::empty()), f);
}

proof fn lemma_filter_keeps<T>(s: Seq<T>, p: spec_fn(T) -> bool, x: T)
    requires
        s.contains(x),
        p(x),
    ensures
        s.filter(p).contains(x),
    decreases s.len(),
{
    reveal(Seq::filter);
    let rest = s.drop_last();
    if s.last() == x {
        assert(s.filter(p)[s.filter(p).len() - 1] == x);
    } else {
        let k = choose|k: int| 0 <= k < s.len() && s[k] == x;
        assert(rest[k] == x);
        lemma_filter_keeps(rest, p, x);
        let j = choose|j: int| 0 <= j < rest.filter(p).len() && rest.filter(p)[j] == x;
        assert(s.filter(p)[j] == x);
    }
}

/// What is wrong with the inventory of a removal that is resumed.
pub open spec fn removal_inventory_failure(
    record: RecordView,
    stable: Seq<u8>,
    settings: Result<Seq<u8>, Failure>,
    checks: Seq<ManagedResult<()>>,
) -> Option<Failure> {
    or_else(
        recoded(
            record_failure(record, stable, record.plugin_root, settings),
            "ownership_record_missing"@,
        ),
        first_failure(checks),
    )
}

/// Checks the inventory of a removal that is resumed. The checks are those of the
/// owned files that are still there.
pub fn validate_removal_inventory(
    record: &OwnershipRecord,
    stable_root: &FsPath,
    pi_settings: &ManagedResult<FsPath>,
    checks: &Vec<ManagedResult<()>>,
) -> (r: ManagedResult<()>)
    ensures
        failure(r) == removal_inventory_failure(
            record@,
            stable_root@,
            outcome(*pi_settings),
            checks@,
        ),
{
    match validate_record_semantics(record, stable_root, &record.plugin_root, pi_settings) {
        Ok(_) => {},
        Err(e) => {
            return Err(e.recode("ownership_record_missing"));
        },
    }
    check_all(checks)
}

/// A plugin as the host lists it.
#[derive(Debug)]
pub struct HerdrPluginRegistration {
    pub plugin_id: String,
    pub enabled: bool,
    pub plugin_root: FsPath,
}

/// The listing of plugins by the host.
#[derive(Debug)]
pub struct HerdrPluginListResponse {
    pub id: String,
    pub result_type: String,
    pub plugins: Vec<HerdrPluginRegistration>,
}

/// Whether the plugin is registered with the host.
#[derive(Clone, Copy, Debug, PartialEq, Eq, Structural)]
pub enum PluginRegistrationState {
    Absent,
    Present,
}

/// Whether a listing has the plugin of a record, or what is wrong with it.
pub open spec fn registration_of(response: HerdrPluginListResponse, record: RecordView) -> Result<
    PluginRegistrationState,
    Failure,
> {
    if response.id@ != "cli:plugin"@ || response.result_type@ != "plugin_list"@
        || response.plugins@.len() > MAX_HERDR_PLUGIN_REGISTRATIONS {
        Err(
            (
                "herdr_status_invalid"@,
                "Herdr plugin status was not an exact registration listing"@,
            ),
        )
    } else if response.plugins@.len() == 0 {
        Ok(PluginRegistrationState::Absent)
    } else if response.plugins@.len() == 1 && response.plugins@[0].plugin_id@ == "herdr.a2a"@
        && response.plugins@[0].enabled {
        if same_path(response.plugins@[0].plugin_root@, record.plugin_root) {
            Ok(PluginRegistrationState::Present)
        } else {
            Err(
                (
                    "ownership_conflict"@,
                    "Herdr plugin registration belongs to a different root"@,
                ),
            )
        }
    } else {
        Err(
            (
                "herdr_status_invalid"@,
                "Herdr plugin status did not contain one exact enabled registration"@,
            ),
        )
    }
}

/// Tells whether a listing has the plugin of a record. A listing that could not be
/// decoded is none.
pub fn decode_exact_plugin_registration(
    response: &Option<HerdrPluginListResponse>,
    record: &OwnershipRecord,
) -> (r: ManagedResult<PluginRegistrationState>)
    ensures
        (match r {
            Ok(v) => Ok::<PluginRegistrationState, Failure>(v),
            Err(e) => Err(e@),
        }) == match response {
            None => Err(
                (
                    "herdr_status_invalid"@,
                    "Herdr plugin status was not an exact JSON response"@,
                ),
            ),
            Some(response) => registration_of(*response, record@),
        },
{
    let Some(response) = response else {
        return fail(
            "herdr_status_invalid",
            "Herdr plugin status was not an exact JSON response",
        );
    };
    if !text_eq(response.id.as_str(), "cli:plugin") || !text_eq(
        response.result_type.as_str(),
        "plugin_list",
    ) || response.plugins.len() > MAX_HERDR_PLUGIN_REGISTRATIONS {
        return fail(
            "herdr_status_invalid",
            "Herdr plugin status was not an exact registration listing",
        );
    }
    if response.plugins.len() == 0 {
        return Ok(PluginRegistrationState::Absent);
    }
    if response.plugins.len() == 1 && text_eq(response.plugins[0].plugin_id.as_str(), "herdr.a2a")
        && response.plugins[0].enabled {
        if !response.plugins[0].plugin_root.same(&record.plugin_root) {
            return fail(
                "ownership_conflict",
                "Herdr plugin registration belongs to a different root",
            );
        }
        return Ok(PluginRegistrationState::Present);
    }
    fail(
        "herdr_status_invalid",
        "Herdr plugin status did not contain one exact enabled registration",
    )
}

/// What is done about the record before the files of an installation are touched.
#[derive(Clone, Copy, Debug, PartialEq, Eq, Structural)]
pub enum RemovalEntry {
    /// A removal begins: the whole installation is checked.
    Begin,
    /// A removal is resumed: what is left is checked.
    Resume,
}

/// Why an installation cannot be removed.
pub open spec fn unremovable(record: Option<RecordView>) -> Option<Failure> {
    match record {
        None => Some(
            ("ownership_record_missing"@, "managed ownership record is absent"@),
        ),
        Some(v) => if v.state == InstallState::Removed {
            Some(("already_removed"@, "managed installation was already removed"@))
        } else {
            None
        },
    }
}

/// Decides how a removal starts.
pub fn enter_removal(record: &Option<OwnershipRecord>) -> (r: ManagedResult<RemovalEntry>)
    ensures
        failure(r) == unremovable(opt_record(*record)),
        r is Ok ==> (r->Ok_0 == RemovalEntry::Resume) == removal_in_progress(record->0.state),
{
    let Some(record) = record else {
        return fail("ownership_record_missing", "managed ownership record is absent");
    };
    if record.state == InstallState::Removed {
        return fail("already_removed", "managed installation was already removed");
    }
    if crate::record::is_removal_in_progress(record.state) {
        Ok(RemovalEntry::Resume)
    } else {
        Ok(RemovalEntry::Begin)
    }
}

/// Why a program may not remove an installation.
pub open spec fn executable_mismatch(current: Seq<char>, recorded: Seq<char>) -> Option<Failure> {
    if current == recorded {
        None
    } else {
        Some(
            (
                "owned_process_mismatch"@,
                "removal executable does not match the recorded managed binary digest"@,
            ),
        )
    }
}

/// Checks that the program that removes an installation is the one that was
/// installed.
pub fn validate_removal_executable(current_digest: &str, record: &OwnershipRecord) -> (r:
    ManagedResult<()>)
    ensures
        failure(r) == executable_mismatch(current_digest@, record.broker_digest@),
{
    if !text_eq(current_digest, record.broker_digest.as_str()) {
        return fail(
            "owned_process_mismatch",
            "removal executable does not match the recorded managed binary digest",
        );
    }
    Ok(())
}

/// Why a removal cannot go on after the processes were stopped.
pub open spec fn still_running(resumed: RecordView, record: RecordView, registered: usize, starting: usize) -> Option<Failure> {
    if crate::record::same_record(resumed, record) && registered == 0
        && starting == 0 {
        None
    } else {
        Some(
            (
                "owned_process_mismatch"@,
                "managed process registry changed during coordinated stop"@,
            ),
        )
    }
}

/// Checks that nothing changed while the processes of an installation were being
/// stopped.
pub fn check_stopped(
    resumed: &OwnershipRecord,
    record: &OwnershipRecord,
    registered: usize,
    starting: usize,
) -> (r: ManagedResult<()>)
    ensures
        failure(r) == still_running(resumed@, record@, registered, starting),
{
    if !resumed.same(record) || registered != 0 || starting != 0 {
        return fail(
            "owned_process_mismatch",
            "managed process registry changed during coordinated stop",
        );
    }
    Ok(())
}

/// What Pi has to do about its entry when an installation is removed.
#[derive(Clone, Copy, Debug, PartialEq, Eq, Structural)]
pub enum PiEntryRemoval {
    Nothing,
    Remove,
}

/// What Pi has to do about its entry, or why the entry is not ours to remove.
pub open spec fn pi_entry_removal(
    record: RecordView,
    path: Seq<u8>,
    entries: Seq<JsonView>,
    available: bool,
) -> Result<PiEntryRemoval, Failure> {
    let found = matching(entries, path, record.pi_package_source);
    if found.len() == 0 {
        Ok(PiEntryRemoval::Nothing)
    } else if found.len() != 1 || !same_json(found[0], record.pi_package_entry) {
        Err(
            (
                "ownership_conflict"@,
                "Pi entry no longer matches exact managed ownership"@,
            ),
        )
    } else if !available {
        Err(
            (
                "pi_configuration_failed"@,
                "Pi is required to remove its exact managed package entry"@,
            ),
        )
    } else {
        Ok(PiEntryRemoval::Remove)
    }
}

/// Plans what Pi has to do about its entry when an installation is removed.
pub fn remove_exact_pi_entry(record: &OwnershipRecord, settings: &PiSettings, available: bool) -> (r:
    ManagedResult<PiEntryRemoval>)
    ensures
        (match r {
            Ok(v) => Ok::<PiEntryRemoval, Failure>(v),
            Err(e) => Err(e@),
        }) == pi_entry_removal(
            record@,
            settings.path@,
            json_views(settings.entries@),
            available,
        ),
{
    let (conflict, present) = inspect_matching(
        settings,
        &record.pi_package_source,
        &record.pi_package_entry,
    );
    if !present {
        return Ok(PiEntryRemoval::Nothing);
    }
    if conflict {
        return fail("ownership_conflict", "Pi entry no longer matches exact managed ownership");
    }
    if !available {
        return fail(
            "pi_configuration_failed",
            "Pi is required to remove its exact managed package entry",
        );
    }
    Ok(PiEntryRemoval::Remove)
}

/// Checks that Pi has removed its entry.
pub fn check_pi_entry_removed(record: &OwnershipRecord, settings: &PiSettings) -> (r: ManagedResult<
    (),
>)
    ensures
        failure(r) == if matching(
            json_views(settings.entries@),
            settings.path@,
            record.pi_package_source@,
        ).len() > 0 {
            Some(
                (
                    "pi_configuration_failed"@,
                    "Pi retained the exact managed package after removal"@,
                ),
            )
        } else {
            None
        },
{
    let (_, present) = inspect_matching(
        settings,
        &record.pi_package_source,
        &record.pi_package_entry,
    );
    if present {
        return fail(
            "pi_configuration_failed",
            "Pi retained the exact managed package after removal",
        );
    }
    Ok(())
}

/// One step of the unregistration of the plugin.
#[derive(Clone, Copy, Debug, PartialEq, Eq, Structural)]
pub enum UnregisterStep {
    /// The files that are not needed for it are gone: the record says so.
    Pend,
    /// The host is asked to unregister the plugin, and then whether it has.
    Ask,
    /// It was asked before: it is only asked whether it has.
    Observe,
    /// It has: what is left of the installation goes.
    Finalize,
}

/// The next step of the unregistration in a state of the record.
pub open spec fn unregister_step(state: InstallState) -> Option<UnregisterStep> {
    match state {
        InstallState::Removing => Some(UnregisterStep::Pend),
        InstallState::UnregisterPending => Some(UnregisterStep::Ask),
        InstallState::Unregistering => Some(UnregisterStep::Observe),
        InstallState::FinalizingRemoval => Some(UnregisterStep::Finalize),
        _ => None,
    }
}

/// The state in which the record is written before a step is taken.
pub open spec fn state_for(step: UnregisterStep) -> InstallState {
    match step {
        UnregisterStep::Pend => InstallState::UnregisterPending,
        UnregisterStep::Ask => InstallState::Unregistering,
        UnregisterStep::Observe => InstallState::Unregistering,
        UnregisterStep::Finalize => InstallState::Removed,
    }
}

/// The next step of the unregistration, and the state in which the record is
/// written for it.
pub fn next_unregister_step(state: InstallState) -> (r: ManagedResult<(UnregisterStep, InstallState)>)
    ensures
        r is Ok == unregister_step(state) is Some,
        r is Ok ==> Some(r->Ok_0.0) == unregister_step(state) && r->Ok_0.1 == state_for(r->Ok_0.0),
        r is Err ==> failure(r) == Some(
            (
                "ownership_record_invalid"@,
                "managed removal reached an invalid unregister state"@,
            ),
        ),
{
    match state {
        InstallState::Removing => Ok((UnregisterStep::Pend, InstallState::UnregisterPending)),
        InstallState::UnregisterPending => Ok((UnregisterStep::Ask, InstallState::Unregistering)),
        InstallState::Unregistering => Ok((UnregisterStep::Observe, InstallState::Unregistering)),
        InstallState::FinalizingRemoval => Ok((UnregisterStep::Finalize, InstallState::Removed)),
        _ => fail(
            "ownership_record_invalid",
            "managed removal reached an invalid unregister state",
        ),
    }
}

/// The state of the record once it is known whether the plugin is registered.
pub open spec fn observed_state(observed: PluginRegistrationState) -> InstallState {
    match observed {
        PluginRegistrationState::Absent => InstallState::FinalizingRemoval,
        PluginRegistrationState::Present => InstallState::UnregisterPending,
    }
}

/// The state of the record once it is known whether the plugin is registered.
pub fn reconcile_unregistering(observed: PluginRegistrationState) -> (r: InstallState)
    ensures
        r == observed_state(observed),
{
    match observed {
        PluginRegistrationState::Absent => InstallState::FinalizingRemoval,
        PluginRegistrationState::Present => InstallState::UnregisterPending,
    }
}

/// The failure that an error is, if there is one.
pub open spec fn opt_failure(e: Option<ManagedError>) -> Option<Failure> {
    match e {
        Some(e) => Some(e@),
        None => None,
    }
}

/// Why a plugin does not count as given up.
pub open spec fn still_registered(
    observed: PluginRegistrationState,
    asked: bool,
    external: Option<Failure>,
) -> Option<Failure> {
    match observed {
        PluginRegistrationState::Absent => None,
        PluginRegistrationState::Present => if !asked {
            Some(
                ("herdr_uninstall_failed"@, "Herdr plugin unregister remains pending"@),
            )
        } else {
            match external {
                Some(f) => Some(f),
                None => Some(
                    (
                        "herdr_uninstall_failed"@,
                        "Herdr plugin unregister command did not remove its exact registration"@,
                    ),
                ),
            }
        },
    }
}

/// Tells why a removal stops with the plugin still registered: the host's own
/// error where it was just asked and gave one.
pub fn check_unregistered(
    observed: PluginRegistrationState,
    asked: bool,
    external: Option<ManagedError>,
) -> (r: ManagedResult<()>)
    ensures
        failure(r) == still_registered(observed, asked, opt_failure(external)),
{
    match observed {
        PluginRegistrationState::Absent => Ok(()),
        PluginRegistrationState::Present => {
            if !asked {
                return fail("herdr_uninstall_failed", "Herdr plugin unregister remains pending");
            }
            match external {
                Some(e) => Err(e),
                None => fail(
                    "herdr_uninstall_failed",
                    "Herdr plugin unregister command did not remove its exact registration",
                ),
            }
        },
    }
}

/// How far a removal has come, by the state of the record.
pub open spec fn removal_rank(state: InstallState) -> int {
    match state {
        InstallState::Removing => 1,
        InstallState::UnregisterPending => 2,
        InstallState::Unregistering => 3,
        InstallState::FinalizingRemoval => 4,
        InstallState::Removed => 5,
        _ => 0,
    }
}

/// A removal only goes forward, except that a plugin that is still registered
/// leads back to asking again; and the record says removed only after the plugin
/// was seen to be unregistered.
pub proof fn law_removal_goes_forward(state: InstallState)
    requires
        unregister_step(state) is Some,
    ensures
        removal_rank(state_for(unregister_step(state)->0)) >= removal_rank(state),
        state_for(unregister_step(state)->0) == InstallState::Removed ==> state
            == InstallState::FinalizingRemoval,
        observed_state(PluginRegistrationState::Absent) == InstallState::FinalizingRemoval,
        removal_rank(observed_state(PluginRegistrationState::Present)) < removal_rank(
            InstallState::FinalizingRemoval,
        ),
{
}

/// The steps of a removal, once its record was checked.
#[derive(Clone, Copy, Debug, PartialEq, Eq, Structural)]
pub enum RemovalStep {
    /// The journal of a purge is written with a phase.
    JournalPurge(RemovalTransactionPhase),
    /// The program that removes is compared with the installed one.
    CheckExecutable,
    /// The record is written in a state.
    Mark(InstallState),
    /// The registered processes are stopped.
    StopProcesses,
    /// Pi gives up its entry.
    RemovePiEntry,
    /// The files that unregistering does not need go.
    UnlinkUnneeded,
    /// The registries of the processes go.
    DropRegistries,
    /// The tree of the purge goes.
    DeletePurgeRoot,
    /// The host is asked to unregister the plugin.
    AskHost,
    /// The host is asked whether the plugin is registered, and the state follows
    /// the answer.
    ObserveHost,
    /// All files that are left go.
    UnlinkAll,
    /// The journal of the purge goes.
    ClearPurgeJournal,
}

/// What a purge still has to do.
#[derive(Clone, Copy, Debug, PartialEq, Eq, Structural)]
pub enum PurgeWork {
    /// There is no purge.
    Skip,
    /// The purge begins.
    Begin,
    /// The purge of a journal goes on, with its tree in place.
    Delete,
    /// The tree is gone, and the journal does not say so yet.
    Confirm,
    /// The journal says that the tree is gone.
    Done,
}

/// What a purge still has to do, by its plan and the phase of its journal.
pub open spec fn purge_work(plan: PurgeView, phase: RemovalTransactionPhase) -> PurgeWork {
    match plan {
        PurgeView::Skip => PurgeWork::Skip,
        PurgeView::Begin { .. } => PurgeWork::Begin,
        PurgeView::Resume { present } => if phase == RemovalTransactionPhase::Deleted {
            PurgeWork::Done
        } else if present {
            PurgeWork::Delete
        } else {
            PurgeWork::Confirm
        },
    }
}

/// Tells what a purge still has to do.
pub fn plan_purge_work(plan: &PurgePlan, phase: RemovalTransactionPhase) -> (r: PurgeWork)
    ensures
        r == purge_work(plan@, phase),
{
    match plan {
        PurgePlan::Skip => PurgeWork::Skip,
        PurgePlan::Begin { .. } => PurgeWork::Begin,
        PurgePlan::Resume { present } => if phase == RemovalTransactionPhase::Deleted {
            PurgeWork::Done
        } else if *present {
            PurgeWork::Delete
        } else {
            PurgeWork::Confirm
        },
    }
}

/// The steps up to the files that unregistering does not need.
pub open spec fn stopping_steps(state: InstallState, work: PurgeWork) -> Seq<RemovalStep> {
    let journal = if work == PurgeWork::Begin {
        seq![RemovalStep::JournalPurge(RemovalTransactionPhase::Intent)]
    } else {
        Seq::empty()
    };
    let mark = if removal_in_progress(state) {
        Seq::empty()
    } else {
        seq![RemovalStep::Mark(InstallState::Removing)]
    };
    journal + seq![RemovalStep::CheckExecutable] + mark + seq![
        RemovalStep::StopProcesses,
        RemovalStep::RemovePiEntry,
        RemovalStep::UnlinkUnneeded,
        RemovalStep::DropRegistries,
    ]
}

/// The steps of the purge itself.
pub open spec fn purging_steps(work: PurgeWork) -> Seq<RemovalStep> {
    match work {
        PurgeWork::Skip | PurgeWork::Done => Seq::empty(),
        PurgeWork::Begin | PurgeWork::Delete => seq![
            RemovalStep::JournalPurge(RemovalTransactionPhase::Deleting),
            RemovalStep::DeletePurgeRoot,
            RemovalStep::JournalPurge(RemovalTransactionPhase::Deleted),
        ],
        PurgeWork::Confirm => seq![
            RemovalStep::JournalPurge(RemovalTransactionPhase::Deleting),
            RemovalStep::JournalPurge(RemovalTransactionPhase::Deleted),
        ],
    }
}

/// The steps of the unregistration, from the state that the record was found in.
pub open spec fn unregistering_steps(state: InstallState, skip: bool) -> Seq<RemovalStep> {
    let asking = if skip {
        seq![RemovalStep::Mark(InstallState::Unregistering), RemovalStep::ObserveHost]
    } else {
        seq![
            RemovalStep::Mark(InstallState::Unregistering),
            RemovalStep::AskHost,
            RemovalStep::ObserveHost,
        ]
    };
    match state {
        InstallState::FinalizingRemoval => Seq::empty(),
        InstallState::Unregistering => seq![RemovalStep::ObserveHost],
        InstallState::UnregisterPending => asking,
        _ => seq![RemovalStep::Mark(InstallState::UnregisterPending)] + asking,
    }
}

/// The steps that end a removal.
pub open spec fn ending_steps(work: PurgeWork) -> Seq<RemovalStep> {
    let removed = seq![RemovalStep::UnlinkAll, RemovalStep::Mark(InstallState::Removed)];
    if work == PurgeWork::Skip {
        removed
    } else {
        removed + seq![RemovalStep::ClearPurgeJournal]
    }
}

/// The steps of a removal, in order. It stops at a step that fails, and where the
/// host still has the plugin when it is asked.
pub open spec fn removal_steps(state: InstallState, work: PurgeWork, skip: bool) -> Seq<RemovalStep> {
    stopping_steps(state, work) + purging_steps(work) + unregistering_steps(state, skip)
        + ending_steps(work)
}

fn plan_stopping_steps(state: InstallState, work: PurgeWork) -> (r: Vec<RemovalStep>)
    ensures
        r@ == stopping_steps(state, work),
{
    let mut steps: Vec<RemovalStep> = Vec::new();
    if work == PurgeWork::Begin {
        steps.push(RemovalStep::JournalPurge(RemovalTransactionPhase::Intent));
    }
    steps.push(RemovalStep::CheckExecutable);
    if !crate::record::is_removal_in_progress(state) {
        steps.push(RemovalStep::Mark(InstallState::Removing));
    }
    steps.push(RemovalStep::StopProcesses);
    steps.push(RemovalStep::RemovePiEntry);
    steps.push(RemovalStep::UnlinkUnneeded);
    steps.push(RemovalStep::DropRegistries);
    assert(steps@ =~= stopping_steps(state, work));
    steps
}

fn plan_purging_steps(work: PurgeWork) -> (r: Vec<RemovalStep>)
    ensures
        r@ == purging_steps(work),
{
    let mut steps: Vec<RemovalStep> = Vec::new();
    if work != PurgeWork::Skip && work != PurgeWork::Done {
        steps.push(RemovalStep::JournalPurge(RemovalTransactionPhase::Deleting));
        if work != PurgeWork::Confirm {
            steps.push(RemovalStep::DeletePurgeRoot);
        }
        steps.push(RemovalStep::JournalPurge(RemovalTransactionPhase::Deleted));
    }
    assert(steps@ =~= purging_steps(work));
    steps
}

fn plan_unregistering_steps(state: InstallState, skip: bool) -> (r: Vec<RemovalStep>)
    ensures
        r@ == unregistering_steps(state, skip),
{
    let mut steps: Vec<RemovalStep> = Vec::new();
    if state == InstallState::FinalizingRemoval {
        assert(steps@ =~= unregistering_steps(state, skip));
        return steps;
    }
    if state != InstallState::Unregistering {
        if state != InstallState::UnregisterPending {
            steps.push(RemovalStep::Mark(InstallState::UnregisterPending));
        }
        steps.push(RemovalStep::Mark(InstallState::Unregistering));
        if !skip {
            steps.push(RemovalStep::AskHost);
        }
    }
    steps.push(RemovalStep::ObserveHost);
    assert(steps@ =~= unregistering_steps(state, skip));
    steps
}

fn plan_ending_steps(work: PurgeWork) -> (r: Vec<RemovalStep>)
    ensures
        r@ == ending_steps(work),
{
    let mut steps: Vec<RemovalStep> = Vec::new();
    steps.push(RemovalStep::UnlinkAll);
    steps.push(RemovalStep::Mark(InstallState::Removed));
    if work != PurgeWork::Skip {
        steps.push(RemovalStep::ClearPurgeJournal);
    }
    assert(steps@ =~= ending_steps(work));
    steps
}

/// The steps of a removal, in order.
pub fn plan_removal_steps(state: InstallState, work: PurgeWork, skip: bool) -> (r: Vec<RemovalStep>)
    ensures
        r@ == removal_steps(state, work, skip),
{
    let mut steps = plan_stopping_steps(state, work);
    let mut purging = plan_purging_steps(work);
    steps.append(&mut purging);
    let mut unregistering = plan_unregistering_steps(state, skip);
    steps.append(&mut unregistering);
    let mut ending = plan_ending_steps(work);
    steps.append(&mut ending);
    steps
}

/// A step is taken before a place of a removal.
pub open spec fn comes_before(steps: Seq<RemovalStep>, first: RemovalStep, i: int) -> bool {
    exists|k: int| 0 <= k < i && #[trigger] steps[k] == first
}

/// Nothing of an installation goes before its processes are stopped, and the
/// program that removes it was seen to be the installed one before that.
pub proof fn law_processes_stop_before_files_go(
    state: InstallState,
    work: PurgeWork,
    skip: bool,
    i: int,
)
    requires
        0 <= i < removal_steps(state, work, skip).len(),
        removal_steps(state, work, skip)[i] == RemovalStep::UnlinkUnneeded || removal_steps(
            state,
            work,
            skip,
        )[i] == RemovalStep::UnlinkAll || removal_steps(state, work, skip)[i]
            == RemovalStep::DeletePurgeRoot || removal_steps(state, work, skip)[i]
            == RemovalStep::AskHost,
    ensures
        comes_before(removal_steps(state, work, skip), RemovalStep::CheckExecutable, i),
        comes_before(removal_steps(state, work, skip), RemovalStep::StopProcesses, i),
{
    let s = removal_steps(state, work, skip);
    let a: int = if work == PurgeWork::Begin {
        1
    } else {
        0
    };
    let b: int = if removal_in_progress(state) {
        a + 1
    } else {
        a + 2
    };
    assert(s[a] == RemovalStep::CheckExecutable);
    assert(s[b] == RemovalStep::StopProcesses);
}

/// The data of the plugin goes only in a purge, and only after the journal says so.
pub proof fn law_data_goes_only_when_journaled(
    state: InstallState,
    work: PurgeWork,
    skip: bool,
    i: int,
)
    requires
        0 <= i < removal_steps(state, work, skip).len(),
        removal_steps(state, work, skip)[i] == RemovalStep::DeletePurgeRoot,
    ensures
        work == PurgeWork::Begin || work == PurgeWork::Delete,
        i > 0,
        removal_steps(state, work, skip)[i - 1] == RemovalStep::JournalPurge(
            RemovalTransactionPhase::Deleting,
        ),
        i + 1 < removal_steps(state, work, skip).len(),
        removal_steps(state, work, skip)[i + 1] == RemovalStep::JournalPurge(
            RemovalTransactionPhase::Deleted,
        ),
{
    let a = stopping_steps(state, work);
    let b = purging_steps(work);
    let c = unregistering_steps(state, skip);
    let d = ending_steps(work);
    let s = removal_steps(state, work, skip);
    let n = a.len() as int;
    if i < n {
        assert(s[i] == a[i]);
        assert(a.contains(a[i]));
        lemma_stopping_holds_none(state, work, RemovalStep::DeletePurgeRoot);
    } else if i < n + b.len() {
        assert(s[i] == b[i - n]);
        assert(b.contains(b[i - n]));
        lemma_purging_holds(work, RemovalStep::DeletePurgeRoot);
        assert(i - n == 1);
        assert(s[i - 1] == b[0]);
        assert(s[i + 1] == b[2]);
    } else if i < n + b.len() + c.len() {
        assert(s[i] == c[i - n - b.len()]);
        assert(c.contains(c[i - n - b.len()]));
        lemma_unregistering_holds(state, skip, RemovalStep::DeletePurgeRoot);
    } else {
        assert(s[i] == d[i - n - b.len() - c.len()]);
        assert(d.contains(d[i - n - b.len() - c.len()]));
        lemma_ending_holds(work, RemovalStep::DeletePurgeRoot);
    }
}

proof fn lemma_stopping_holds_none(state: InstallState, work: PurgeWork, x: RemovalStep)
    requires
        x is DeletePurgeRoot || x is AskHost || x is ObserveHost || x is ClearPurgeJournal || x
            is UnlinkAll || x == RemovalStep::JournalPurge(RemovalTransactionPhase::Deleted),
    ensures
        !stopping_steps(state, work).contains(x),
{
}

proof fn lemma_purging_holds(work: PurgeWork, x: RemovalStep)
    ensures
        purging_steps(work).contains(x) ==> x is DeletePurgeRoot || x is JournalPurge,
        purging_steps(work).contains(RemovalStep::DeletePurgeRoot) <==> work == PurgeWork::Begin
            || work == PurgeWork::Delete,
        purging_steps(work).contains(RemovalStep::JournalPurge(RemovalTransactionPhase::Deleted))
            <==> work == PurgeWork::Begin || work == PurgeWork::Delete || work
            == PurgeWork::Confirm,
{
    let b = purging_steps(work);
    if work == PurgeWork::Begin || work == PurgeWork::Delete {
        assert(b[1] == RemovalStep::DeletePurgeRoot);
        assert(b[2] == RemovalStep::JournalPurge(RemovalTransactionPhase::Deleted));
    }
    if work == PurgeWork::Confirm {
        assert(b[1] == RemovalStep::JournalPurge(RemovalTransactionPhase::Deleted));
    }
}

proof fn lemma_unregistering_holds(state: InstallState, skip: bool, x: RemovalStep)
    ensures
        unregistering_steps(state, skip).contains(x) ==> x is Mark || x is AskHost || x
            is ObserveHost,
        unregistering_steps(state, skip).contains(RemovalStep::AskHost) <==> !skip && state
            != InstallState::Unregistering && state != InstallState::FinalizingRemoval,
        unregistering_steps(state, skip).contains(RemovalStep::ObserveHost) <==> state
            != InstallState::FinalizingRemoval,
{
    let c = unregistering_steps(state, skip);
    if state != InstallState::FinalizingRemoval {
        assert(c[c.len() - 1] == RemovalStep::ObserveHost);
    }
    if !skip && state != InstallState::Unregistering && state != InstallState::FinalizingRemoval {
        assert(c[c.len() - 2] == RemovalStep::AskHost);
    }
}

proof fn lemma_ending_holds(work: PurgeWork, x: RemovalStep)
    ensures
        ending_steps(work).contains(x) ==> x is UnlinkAll || x is Mark || x is ClearPurgeJournal,
        ending_steps(work).contains(RemovalStep::UnlinkAll),
        ending_steps(work).contains(RemovalStep::ClearPurgeJournal) <==> work != PurgeWork::Skip,
{
    let d = ending_steps(work);
    assert(d[0] == RemovalStep::UnlinkAll);
    if work != PurgeWork::Skip {
        assert(d[2] == RemovalStep::ClearPurgeJournal);
    }
}

proof fn lemma_step_in_part(state: InstallState, work: PurgeWork, skip: bool, x: RemovalStep)
    ensures
        removal_steps(state, work, skip).contains(x) <==> stopping_steps(state, work).contains(x)
            || purging_steps(work).contains(x) || unregistering_steps(state, skip).contains(x)
            || ending_steps(work).contains(x),
{
    let a = stopping_steps(state, work);
    let b = purging_steps(work);
    let c = unregistering_steps(state, skip);
    lemma_joined_has(a, b, x);
    lemma_joined_has(a + b, c, x);
    lemma_joined_has(a + b + c, ending_steps(work), x);
    lemma_purging_holds(work, x);
    lemma_unregistering_holds(state, skip, x);
    lemma_ending_holds(work, x);
}

/// The host is asked to unregister the plugin last: the entry of Pi and every file
/// that unregistering does not need went before, the data too where it goes, and
/// after it only the files that it needed go.
pub proof fn law_unregistering_comes_last(
    state: InstallState,
    work: PurgeWork,
    skip: bool,
    i: int,
    j: int,
)
    requires
        0 <= i < removal_steps(state, work, skip).len(),
        0 <= j < removal_steps(state, work, skip).len(),
        removal_steps(state, work, skip)[i] == RemovalStep::AskHost,
    ensures
        comes_before(removal_steps(state, work, skip), RemovalStep::RemovePiEntry, i),
        comes_before(removal_steps(state, work, skip), RemovalStep::UnlinkUnneeded, i),
        removal_steps(state, work, skip)[j] == RemovalStep::DeletePurgeRoot ==> j < i,
        j > i ==> (match removal_steps(state, work, skip)[j] {
            RemovalStep::ObserveHost | RemovalStep::UnlinkAll | RemovalStep::ClearPurgeJournal => true,
            RemovalStep::Mark(s) => s == InstallState::Removed,
            _ => false,
        }),
{
    let s = removal_steps(state, work, skip);
    let a: int = if work == PurgeWork::Begin {
        1
    } else {
        0
    };
    let b: int = if removal_in_progress(state) {
        a + 1
    } else {
        a + 2
    };
    assert(s[b + 1] == RemovalStep::RemovePiEntry);
    assert(s[b + 2] == RemovalStep::UnlinkUnneeded);
}

/// A removal ends with the record saying so, after every recorded file went; and
/// the journal of its purge outlives the installation.
pub proof fn law_removed_is_said_last(state: InstallState, work: PurgeWork, skip: bool)
    ensures
        ({
            let s = removal_steps(state, work, skip);
            let last = if work == PurgeWork::Skip {
                s.len() - 1
            } else {
                s.len() - 2
            };
            &&& last >= 1
            &&& s[last] == RemovalStep::Mark(InstallState::Removed)
            &&& s[last - 1] == RemovalStep::UnlinkAll
            &&& work != PurgeWork::Skip ==> s[last + 1] == RemovalStep::ClearPurgeJournal
        }),
{
}

/// What was found of an installation that was removed before.
#[derive(Debug)]
pub struct RemovedFound {
    /// For each owned file: whether nothing is there.
    pub owned: Vec<ManagedResult<()>>,
    /// The rescue directory: whether it is absent, or private and empty.
    pub rescue: ManagedResult<()>,
    /// The process registry: whether nothing is there.
    pub registry: ManagedResult<()>,
}

/// What is wrong with a file that must be gone.
pub open spec fn asset_left(present: bool, error: Option<Seq<char>>) -> Option<Failure> {
    match error {
        Some(e) => Some(
            ("ownership_conflict"@, "cannot inspect a removed managed asset"@ + ": "@ + e),
        ),
        None => if present {
            Some(
                (
                    "ownership_conflict"@,
                    "a removed managed asset is present before reinstall"@,
                ),
            )
        } else {
            None
        },
    }
}

/// The error for something that is there though it was removed.
pub fn removed_asset_check(present: bool, error: Option<&str>) -> (r: ManagedResult<()>)
    ensures
        failure(r) == asset_left(present, opt_str(error)),
{
    match error {
        Some(e) => Err(
            ManagedError::io("ownership_conflict", "cannot inspect a removed managed asset", e),
        ),
        None => {
            if present {
                return fail(
                    "ownership_conflict",
                    "a removed managed asset is present before reinstall",
                );
            }
            Ok(())
        },
    }
}

/// What stands in the way of installing again over a removed installation.
pub open spec fn reinstall_failure(
    record: RecordView,
    stable: Seq<u8>,
    settings_path: Result<Seq<u8>, Failure>,
    found: RemovedFound,
    path: Seq<u8>,
    entries: Seq<JsonView>,
) -> Option<Failure> {
    if record.state != InstallState::Removed {
        Some(
            (
                "ownership_record_invalid"@,
                "reinstall recovery requires a removed ownership record"@,
            ),
        )
    } else {
        or_else(
            record_failure(record, stable, record.plugin_root, settings_path),
            or_else(
                first_failure(found.owned@),
                or_else(
                    failure(found.rescue),
                    or_else(
                        failure(found.registry),
                        if !same_path(path, record.pi_config_path) || matching(
                            entries,
                            path,
                            record.pi_package_source,
                        ).len() > 0 {
                            Some(
                                (
                                    "ownership_conflict"@,
                                    "a removed installation still has its managed Pi entry"@,
                                ),
                            )
                        } else {
                            None
                        },
                    ),
                ),
            ),
        )
    }
}

/// What a removal leaves can be installed again: an accepted record that it marks as
/// removed, with every recorded file gone, nothing in the rescue directory, no
/// registry and no entry of Pi, does not stand in the way.
pub proof fn law_removed_installation_can_be_installed_again(
    record: RecordView,
    stable: Seq<u8>,
    settings_path: Seq<u8>,
    found: RemovedFound,
    path: Seq<u8>,
    entries: Seq<JsonView>,
)
    requires
        record_failure(
            record,
            stable,
            record.plugin_root,
            Ok::<Seq<u8>, Failure>(settings_path),
        ) is None,
        first_failure(found.owned@) is None,
        failure(found.rescue) is None,
        failure(found.registry) is None,
        same_path(path, settings_path),
        matching(entries, path, record.pi_package_source).len() == 0,
    ensures
        reinstall_failure(
            restated(record, InstallState::Removed, None),
            stable,
            Ok::<Seq<u8>, Failure>(settings_path),
            found,
            path,
            entries,
        ) is None,
{
    law_marking_keeps_a_record_accepted(
        record,
        InstallState::Removed,
        None,
        stable,
        record.plugin_root,
        Ok::<Seq<u8>, Failure>(settings_path),
    );
}

/// What is wrong with a rescue directory that must be gone or empty.
pub open spec fn rescue_left(
    present: bool,
    error: Option<Seq<char>>,
    private: ManagedResult<()>,
    files: ManagedResult<Vec<FsPath>>,
) -> Option<Failure> {
    match error {
        Some(e) => Some(
            (
                "ownership_conflict"@,
                "cannot inspect the removed rescue directory"@ + ": "@ + e,
            ),
        ),
        None => if !present {
            None
        } else if private is Err {
            failure(private)
        } else {
            match files {
                Err(e) => Some(e@),
                Ok(found) => if found@.len() > 0 {
                    Some(
                        (
                            "ownership_conflict"@,
                            "a removed installation has unowned rescue residue"@,
                        ),
                    )
                } else {
                    None
                },
            }
        },
    }
}

/// What is said of the rescue directory of an installation that was removed: it may
/// be there, and then is private and empty.
pub fn removed_rescue_check(
    present: bool,
    error: Option<&str>,
    private: &ManagedResult<()>,
    files: &ManagedResult<Vec<FsPath>>,
) -> (r: ManagedResult<()>)
    ensures
        failure(r) == rescue_left(present, opt_str(error), *private, *files),
{
    if let Some(e) = error {
        return Err(
            ManagedError::io(
                "ownership_conflict",
                "cannot inspect the removed rescue directory",
                e,
            ),
        );
    }
    if !present {
        return Ok(());
    }
    if let Err(e) = private {
        return Err(e.copy());
    }
    match files {
        Err(e) => Err(e.copy()),
        Ok(found) => {
            if found.len() > 0 {
                return fail(
                    "ownership_conflict",
                    "a removed installation has unowned rescue residue",
                );
            }
            Ok(())
        },
    }
}

/// What is wrong with a registry that must be gone.
pub open spec fn registry_left(present: bool, error: Option<Seq<char>>) -> Option<Failure> {
    match error {
        Some(e) => Some(
            (
                "owned_process_mismatch"@,
                "cannot inspect the removed process registry"@ + ": "@ + e,
            ),
        ),
        None => if present {
            Some(
                (
                    "owned_process_mismatch"@,
                    "a removed installation still has a process registry"@,
                ),
            )
        } else {
            None
        },
    }
}

/// What is said of the process registry of an installation that was removed: there
/// must be none.
pub fn removed_registry_check(present: bool, error: Option<&str>) -> (r: ManagedResult<()>)
    ensures
        failure(r) == registry_left(present, opt_str(error)),
{
    match error {
        Some(e) => Err(
            ManagedError::io(
                "owned_process_mismatch",
                "cannot inspect the removed process registry",
                e,
            ),
        ),
        None => {
            if present {
                return fail(
                    "owned_process_mismatch",
                    "a removed installation still has a process registry",
                );
            }
            Ok(())
        },
    }
}

/// Checks that nothing is left of a removed installation before it is installed
/// again.
pub fn validate_removed_record_for_reinstall(
    record: &OwnershipRecord,
    stable_root: &FsPath,
    pi_settings: &ManagedResult<FsPath>,
    found: &RemovedFound,
    settings: &PiSettings,
) -> (r: ManagedResult<()>)
    ensures
        failure(r) == reinstall_failure(
            record@,
            stable_root@,
            outcome(*pi_settings),
            *found,
            settings.path@,
            json_views(settings.entries@),
        ),
{
    if record.state != InstallState::Removed {
        return fail(
            "ownership_record_invalid",
            "reinstall recovery requires a removed ownership record",
        );
    }
    validate_record_semantics(record, stable_root, &record.plugin_root, pi_settings)?;
    check_all(&found.owned)?;
    match &found.rescue {
        Ok(_) => {},
        Err(e) => {
            return Err(e.copy());
        },
    }
    match &found.registry {
        Ok(_) => {},
        Err(e) => {
            return Err(e.copy());
        },
    }
    let (_, present) = inspect_matching(
        settings,
        &record.pi_package_source,
        &record.pi_package_entry,
    );
    if !settings.path.same(&record.pi_config_path) || present {
        return fail(
            "ownership_conflict",
            "a removed installation still has its managed Pi entry",
        );
    }
    Ok(())
}

/// What came of removing a directory that should be empty.
#[derive(Debug)]
pub enum DirectoryRemoval {
    Removed,
    Absent,
    NotEmpty,
    /// The operating system's error.
    Failed(String),
}

/// Why a directory that must be gone is not.
pub open spec fn kept_directory(outcome: DirectoryRemoval) -> Option<Failure> {
    match outcome {
        DirectoryRemoval::Removed => None,
        DirectoryRemoval::Absent => None,
        DirectoryRemoval::NotEmpty => Some(
            (
                "ownership_conflict"@,
                "an expected-empty owned directory contains an unrecorded entry"@,
            ),
        ),
        DirectoryRemoval::Failed(e) => Some(
            (
                "removal_failed"@,
                "cannot remove expected-empty owned directory"@ + ": "@ + e@,
            ),
        ),
    }
}

/// Tells what the removal of a directory that should be empty means.
pub fn check_directory_removed(outcome: &DirectoryRemoval) -> (r: ManagedResult<()>)
    ensures
        failure(r) == kept_directory(*outcome),
{
    match outcome {
        DirectoryRemoval::Removed => Ok(()),
        DirectoryRemoval::Absent => Ok(()),
        DirectoryRemoval::NotEmpty => fail(
            "ownership_conflict",
            "an expected-empty owned directory contains an unrecorded entry",
        ),
        DirectoryRemoval::Failed(e) => Err(
            ManagedError::io(
                "removal_failed",
                "cannot remove expected-empty owned directory",
                e.as_str(),
            ),
        ),
    }
}

/// A directory that holds a file which unregistering still needs is never removed, at any
/// depth above it; every other directory of the removal is.
pub proof fn law_directories_of_retained_files_stay(
    dirs: Seq<Seq<u8>>,
    retained: Seq<Seq<u8>>,
    d: Seq<u8>,
)
    ensures
        dirs_to_remove(dirs, retained).contains(d) <==> dirs.contains(d) && (forall|i: int|
            0 <= i < retained.len() ==> !parts(d).is_prefix_of(parts(#[trigger] retained[i]))),
        dirs_to_remove(dirs, retained).len() <= dirs.len(),
{
    let sorted = sorted_by(SortOrder::DeepestFirst, dirs, itself());
    crate::order::lemma_sorting_keeps_members(SortOrder::DeepestFirst, dirs, itself());
    crate::order::lemma_sorting_keeps_items(SortOrder::DeepestFirst, dirs, itself());
    assert(dirs.contains(d) == sorted.contains(d));
    lemma_filter_has(sorted, holds_none(retained), d);
    sorted.lemma_filter_len(holds_none(retained));
    let free = forall|i: int|
        0 <= i < retained.len() ==> !parts(d).is_prefix_of(parts(#[trigger] retained[i]));
    if holds_none(retained)(d) {
        assert forall|i: int| 0 <= i < retained.len() implies !parts(d).is_prefix_of(
            parts(#[trigger] retained[i]),
        ) by {
            assert(!path_under(retained[i], d));
        }
    }
    if free {
        assert forall|i: int| 0 <= i < retained.len() implies !path_under(
            #[trigger] retained[i],
            d,
        ) by {
            assert(!parts(d).is_prefix_of(parts(retained[i])));
        }
    }
}

/// A removal unlinks every owned file but those that are retained, and those are the
/// binary, the helper and the pointer.
pub proof fn law_all_but_retained_files_are_unlinked(
    record: RecordView,
    retained: Seq<Seq<u8>>,
    f: OwnedFileView,
)
    ensures
        files_to_unlink(record, retained).contains(f) <==> record.owned_files.contains(f) && (forall|
            i: int,
        |
            0 <= i < retained.len() ==> parts(#[trigger] retained[i]) != parts(f.path)),
        retained_paths(record).len() == 3,
        retained_paths(record)[0] == record.stable_binary,
        retained_paths(record)[1] == child(record.plugin_root, "libexec/herdr-a2a-dispatch"@),
        retained_paths(record)[2] == child(record.plugin_root, "stable-bin-path"@),
{
    let sorted = sorted_by(SortOrder::DeepestFirst, record.owned_files, owned_key());
    crate::order::lemma_sorting_keeps_members(
        SortOrder::DeepestFirst,
        record.owned_files,
        owned_key(),
    );
    assert(record.owned_files.contains(f) == sorted.contains(f));
    lemma_filter_has(sorted, not_retained(retained), f);
    let all = all_parts(retained);
    if all.contains(parts(f.path)) {
        let i = choose|i: int| 0 <= i < all.len() && all[i] == parts(f.path);
        assert(parts(retained[i]) == parts(f.path));
    }
    assert forall|i: int| 0 <= i < retained.len() && parts(#[trigger] retained[i]) == parts(
        f.path,
    ) implies all.contains(parts(f.path)) by {
        assert(all[i] == parts(f.path));
    }
}

/// Data is purged only where that was asked for. A purge begins with the root and the tree
/// that were found, a purge whose journal is there goes on only with the recorded tree, or
/// without one once its deletion was journaled, and never comes back to a tree that is
/// said to be deleted.
pub proof fn law_data_is_purged_only_when_asked(
    purge: bool,
    existing: Option<RemovalTransaction>,
    record: RecordView,
    skip: bool,
    found: PurgeRootFound,
    root: ManagedResult<FsPath>,
    tree: ManagedResult<StageSnapshot>,
)
    ensures
        ({
            let plan = purge_plan(purge, existing, record, skip, found, root, tree);
            &&& plan is Ok && existing is None && !purge ==> plan->Ok_0 is Skip
            &&& plan is Ok && existing is None && purge ==> root is Ok && tree is Ok && plan->Ok_0
                == (PurgeView::Begin { root: root->Ok_0@, snapshot: tree->Ok_0@ })
            &&& existing is None && (!purge || (root is Ok && tree is Ok)) ==> plan is Ok
            &&& existing is Some && !purge ==> plan is Err
            &&& plan is Ok && existing is Some ==> plan->Ok_0 is Resume && record.purge_authority
                && parts(existing->0.purge_root@) == parts(record.plugin_state_root)
                && existing->0.skip_herdr_unregister == skip && existing->0.schema_version
                == REMOVAL_TRANSACTION_SCHEMA
            &&& plan is Ok && existing is Some && plan->Ok_0->present ==> found is Present
                && found->Present_0 is Ok && same_snapshot(
                found->Present_0->Ok_0@,
                existing->0.purge_snapshot@,
            ) && existing->0.phase != RemovalTransactionPhase::Deleted
            &&& plan is Ok && existing is Some && !plan->Ok_0->present ==> found is Absent
                && existing->0.phase != RemovalTransactionPhase::Intent
        }),
{
}

/// The plugin counts as registered only where the host lists it alone, by its name,
/// enabled, at the recorded root; and as unregistered only where the host lists nothing.
pub proof fn law_registration_is_read_exactly(response: HerdrPluginListResponse, record: RecordView)
    ensures
        ({
            let state = registration_of(response, record);
            let listing = response.id@ == "cli:plugin"@ && response.result_type@ == "plugin_list"@;
            &&& state == Ok::<PluginRegistrationState, Failure>(PluginRegistrationState::Absent)
                <==> listing && response.plugins@.len() == 0
            &&& state == Ok::<PluginRegistrationState, Failure>(PluginRegistrationState::Present)
                <==> listing && response.plugins@.len() == 1 && response.plugins@[0].plugin_id@
                == "herdr.a2a"@ && response.plugins@[0].enabled && parts(
                response.plugins@[0].plugin_root@,
            ) == parts(record.plugin_root)
        }),
{
}

/// Pi gives up an entry exactly where one leads to the recorded package and it is the
/// recorded one; where none does there is nothing to do.
pub proof fn law_only_the_recorded_entry_is_given_up(
    record: RecordView,
    path: Seq<u8>,
    entries: Seq<JsonView>,
    available: bool,
)
    ensures
        ({
            let kind = leads_to(path, record.pi_package_source);
            let plan = pi_entry_removal(record, path, entries, available);
            let recorded = exists|i: int|
                sole(entries, kind, i) && same_json(entries[i], record.pi_package_entry);
            &&& plan == Ok::<PiEntryRemoval, Failure>(PiEntryRemoval::Nothing) <==> none_of(
                entries,
                kind,
            )
            &&& plan == Ok::<PiEntryRemoval, Failure>(PiEntryRemoval::Remove) <==> recorded
                && available
        }),
{
    let kind = leads_to(path, record.pi_package_source);
    assert(kind =~= (|entry: JsonView| entry_matches(entry, path, record.pi_package_source)));
    lemma_filter_none(entries, kind);
    if entries.filter(kind).len() == 1 {
        lemma_one_is_sole(entries, kind);
        let k = choose|k: int| sole(entries, kind, k);
        lemma_filter_sole(entries, kind, k);
        assert(seq![entries[k]][0] == entries[k]);
        if same_json(entries[k], record.pi_package_entry) {
            assert(sole(entries, kind, k) && same_json(entries[k], record.pi_package_entry));
        }
    }
    if exists|i: int| sole(entries, kind, i) && same_json(entries[i], record.pi_package_entry) {
        let k = choose|i: int|
            sole(entries, kind, i) && same_json(entries[i], record.pi_package_entry);
        lemma_filter_sole(entries, kind, k);
        assert(seq![entries[k]][0] == entries[k]);
    }
}

/// The unregistration runs through its states one by one: what is not needed goes, the
/// host is asked, it is looked whether it has done so, and only then the rest goes. A host
/// that still has the plugin is asked again.
pub proof fn law_unregistering_runs_through_its_states()
    ensures
        unregister_step(InstallState::Removing) == Some(UnregisterStep::Pend),
        unregister_step(state_for(UnregisterStep::Pend)) == Some(UnregisterStep::Ask),
        unregister_step(state_for(UnregisterStep::Ask)) == Some(UnregisterStep::Observe),
        unregister_step(state_for(UnregisterStep::Observe)) == Some(UnregisterStep::Observe),
        unregister_step(observed_state(PluginRegistrationState::Absent)) == Some(
            UnregisterStep::Finalize,
        ),
        unregister_step(observed_state(PluginRegistrationState::Present)) == Some(
            UnregisterStep::Ask,
        ),
        state_for(UnregisterStep::Finalize) == InstallState::Removed,
        unregister_step(InstallState::Removed) is None,
        unregister_step(InstallState::Ready) is None,
        unregister_step(InstallState::PiAdapterPending) is None,
        unregister_step(InstallState::Failed) is None,
{
}

/// Every removal checks the program, stops the processes, has Pi give up its entry, and
/// unlinks what is not needed and the registries, in this order; it marks the record first
/// where no removal was in progress; it journals a purge that begins before anything else,
/// deletes the data exactly where it is there to be deleted, and says in the journal that
/// it is gone; it asks the host unless it was told not to or has asked before; and it looks
/// whether the host has done so unless it has seen that before.
pub proof fn law_a_removal_does_all_of_its_work(state: InstallState, work: PurgeWork, skip: bool)
    ensures
        ({
            let s = removal_steps(state, work, skip);
            let begins: int = if work == PurgeWork::Begin {
                1
            } else {
                0
            };
            let progress = state == InstallState::Removing || state
                == InstallState::UnregisterPending || state == InstallState::Unregistering || state
                == InstallState::FinalizingRemoval;
            let at: int = if progress {
                begins + 1
            } else {
                begins + 2
            };
            &&& work == PurgeWork::Begin ==> s[0] == RemovalStep::JournalPurge(
                RemovalTransactionPhase::Intent,
            )
            &&& s[begins] == RemovalStep::CheckExecutable
            &&& !progress ==> s[begins + 1] == RemovalStep::Mark(InstallState::Removing)
            &&& s[at] == RemovalStep::StopProcesses
            &&& s[at + 1] == RemovalStep::RemovePiEntry
            &&& s[at + 2] == RemovalStep::UnlinkUnneeded
            &&& s[at + 3] == RemovalStep::DropRegistries
            &&& s.contains(RemovalStep::DeletePurgeRoot) <==> work == PurgeWork::Begin || work
                == PurgeWork::Delete
            &&& s.contains(RemovalStep::JournalPurge(RemovalTransactionPhase::Deleted)) <==> work
                == PurgeWork::Begin || work == PurgeWork::Delete || work == PurgeWork::Confirm
            &&& s.contains(RemovalStep::AskHost) <==> !skip && state != InstallState::Unregistering
                && state != InstallState::FinalizingRemoval
            &&& s.contains(RemovalStep::ObserveHost) <==> state != InstallState::FinalizingRemoval
            &&& s.contains(RemovalStep::ClearPurgeJournal) <==> work != PurgeWork::Skip
            &&& s.contains(RemovalStep::UnlinkAll)
        }),
{
    let s = removal_steps(state, work, skip);
    let a = stopping_steps(state, work);
    assert forall|i: int| 0 <= i < a.len() implies #[trigger] s[i] == a[i] by {
    }
    lemma_stopping_order(state, work);
    let gone = RemovalStep::JournalPurge(RemovalTransactionPhase::Deleted);
    lemma_step_in_part(state, work, skip, RemovalStep::DeletePurgeRoot);
    lemma_step_in_part(state, work, skip, gone);
    lemma_step_in_part(state, work, skip, RemovalStep::AskHost);
    lemma_step_in_part(state, work, skip, RemovalStep::ObserveHost);
    lemma_step_in_part(state, work, skip, RemovalStep::ClearPurgeJournal);
    lemma_step_in_part(state, work, skip, RemovalStep::UnlinkAll);
    lemma_stopping_holds_none(state, work, RemovalStep::DeletePurgeRoot);
    lemma_stopping_holds_none(state, work, gone);
    lemma_stopping_holds_none(state, work, RemovalStep::AskHost);
    lemma_stopping_holds_none(state, work, RemovalStep::ObserveHost);
    lemma_stopping_holds_none(state, work, RemovalStep::ClearPurgeJournal);
    lemma_purging_holds(work, RemovalStep::AskHost);
    lemma_purging_holds(work, RemovalStep::ObserveHost);
    lemma_purging_holds(work, RemovalStep::ClearPurgeJournal);
    lemma_unregistering_holds(state, skip, RemovalStep::DeletePurgeRoot);
    lemma_unregistering_holds(state, skip, gone);
    lemma_unregistering_holds(state, skip, RemovalStep::ClearPurgeJournal);
    lemma_ending_holds(work, RemovalStep::DeletePurgeRoot);
    lemma_ending_holds(work, gone);
    lemma_ending_holds(work, RemovalStep::AskHost);
    lemma_ending_holds(work, RemovalStep::ObserveHost);
}

proof fn lemma_stopping_order(state: InstallState, work: PurgeWork)
    ensures
        ({
            let a = stopping_steps(state, work);
            let begins: int = if work == PurgeWork::Begin {
                1
            } else {
                0
            };
            let at: int = if removal_in_progress(state) {
                begins + 1
            } else {
                begins + 2
            };
            &&& a.len() == at + 4
            &&& work == PurgeWork::Begin ==> a[0] == RemovalStep::JournalPurge(
                RemovalTransactionPhase::Intent,
            )
            &&& a[begins] == RemovalStep::CheckExecutable
            &&& !removal_in_progress(state) ==> a[begins + 1] == RemovalStep::Mark(
                InstallState::Removing,
            )
            &&& a[at] == RemovalStep::StopProcesses
            &&& a[at + 1] == RemovalStep::RemovePiEntry
            &&& a[at + 2] == RemovalStep::UnlinkUnneeded
            &&& a[at + 3] == RemovalStep::DropRegistries
        }),
{
}

/// A purge has to do what its journal says is still to be done.
pub proof fn law_a_purge_does_what_is_left(plan: PurgeView, phase: RemovalTransactionPhase)
    ensures
        plan is Skip <==> purge_work(plan, phase) == PurgeWork::Skip,
        plan is Begin <==> purge_work(plan, phase) == PurgeWork::Begin,
        plan is Resume && phase == RemovalTransactionPhase::Deleted <==> purge_work(plan, phase)
            == PurgeWork::Done,
        plan is Resume && phase != RemovalTransactionPhase::Deleted && plan->present
            <==> purge_work(plan, phase) == PurgeWork::Delete,
{
}

/// Installing again over a removed installation is refused unless its record says that it
/// was removed and is sound, every one of its files is gone, nothing is left of its rescue
/// files and of its registry, and no entry of Pi leads to its package.
pub proof fn law_reinstalling_finds_nothing_left(
    record: RecordView,
    stable: Seq<u8>,
    settings_path: Result<Seq<u8>, Failure>,
    found: RemovedFound,
    path: Seq<u8>,
    entries: Seq<JsonView>,
)
    requires
        reinstall_failure(record, stable, settings_path, found, path, entries) is None,
    ensures
        record.state == InstallState::Removed,
        record_failure(record, stable, record.plugin_root, settings_path) is None,
        forall|i: int| 0 <= i < found.owned@.len() ==> (#[trigger] found.owned@[i]) is Ok,
        found.rescue is Ok,
        found.registry is Ok,
        parts(path) == parts(record.pi_config_path),
        none_of(entries, leads_to(path, record.pi_package_source)),
{
    let kind = leads_to(path, record.pi_package_source);
    assert(kind =~= (|entry: JsonView| entry_matches(entry, path, record.pi_package_source)));
    lemma_filter_none(entries, kind);
    crate::rollback::law_checks_all_hold(found.owned@);
}

/// A removal that is resumed needs a sound record and every check of its inventory.
pub proof fn law_a_resumed_removal_is_checked(
    record: RecordView,
    stable: Seq<u8>,
    settings: Result<Seq<u8>, Failure>,
    checks: Seq<ManagedResult<()>>,
)
    ensures
        removal_inventory_failure(record, stable, settings, checks) is None <==> record_failure(
            record,
            stable,
            record.plugin_root,
            settings,
        ) is None && (forall|i: int| 0 <= i < checks.len() ==> (#[trigger] checks[i]) is Ok),
{
    crate::rollback::law_checks_all_hold(checks);
}

/// An installation is removed only by the program that is recorded, once no process is left
/// and the record says what it said.
pub proof fn law_removals_need_the_recorded_program(
    current: Seq<char>,
    recorded: Seq<char>,
    resumed: RecordView,
    record: RecordView,
    registered: usize,
    starting: usize,
)
    ensures
        executable_mismatch(current, recorded) is None <==> current == recorded,
        still_running(resumed, record, registered, starting) is None <==> (registered == 0
            && starting == 0 && crate::record::same_record(resumed, record)),
        executable_mismatch(current, recorded) is Some ==> (executable_mismatch(
            current,
            recorded,
        )->0).0 == "owned_process_mismatch"@,
{
}

/// A plugin counts as given up just when it is not registered any more, whatever the command
/// said; an error of the command is told only where it was asked and the plugin stayed.
pub proof fn law_given_up_means_not_registered(
    observed: PluginRegistrationState,
    asked: bool,
    external: Option<Failure>,
)
    ensures
        still_registered(observed, asked, external) is None <==> observed is Absent,
        observed is Present && asked && external is Some ==> still_registered(
            observed,
            asked,
            external,
        ) == external,
        observed is Present && !(asked && external is Some) ==> (still_registered(
            observed,
            asked,
            external,
        )->0).0 == "herdr_uninstall_failed"@,
{
}

/// A directory is gone just when it was removed or was not there; one that is not empty
/// holds what nobody recorded, and stays.
pub proof fn law_only_empty_directories_go(outcome: DirectoryRemoval)
    ensures
        kept_directory(outcome) is None <==> (outcome is Removed || outcome is Absent),
        outcome is NotEmpty ==> (kept_directory(outcome)->0).0 == "ownership_conflict"@,
        outcome is Failed ==> (kept_directory(outcome)->0).0 == "removal_failed"@,
{
}

/// What is removed is known to be gone: a file or a registry that is there, or that could
/// not be looked for, is not; a rescue directory may stay if it is private and empty.
pub proof fn law_removed_means_known_to_be_gone(
    present: bool,
    error: Option<Seq<char>>,
    private: ManagedResult<()>,
    files: ManagedResult<Vec<FsPath>>,
)
    ensures
        asset_left(present, error) is None <==> error is None && !present,
        registry_left(present, error) is None <==> error is None && !present,
        rescue_left(present, error, private, files) is None <==> (error is None && (!present || (
        private is Ok && files is Ok && files->Ok_0@.len() == 0))),
        asset_left(present, error) is Some ==> (asset_left(present, error)->0).0
            == "ownership_conflict"@,
        registry_left(present, error) is Some ==> (registry_left(present, error)->0).0
            == "owned_process_mismatch"@,
{
}

/// An installation is removed just when there is one that is not removed already.
pub proof fn law_only_what_is_installed_is_removed(record: Option<RecordView>)
    ensures
        unremovable(record) is None <==> record is Some && !(record->0.state is Removed),
        record is None ==> (unremovable(record)->0).0 == "ownership_record_missing"@,
        record is Some && record->0.state is Removed ==> (unremovable(record)->0).0
            == "already_removed"@,
{
}

/// Unregistering keeps what it needs only where all three files are recorded, and a removal
/// of directories fails just where they cannot be told.
pub proof fn law_unregistering_needs_its_files(
    record: RecordView,
    dirs: Result<Seq<Seq<u8>>, Failure>,
    retained: Seq<Seq<u8>>,
)
    ensures
        retained_missing(record) is None <==> (owned_for(
            record.owned_files,
            retained_paths(record)[0],
        ) is Some && owned_for(record.owned_files, retained_paths(record)[1]) is Some && owned_for(
            record.owned_files,
            retained_paths(record)[2],
        ) is Some),
        directories_left(dirs, retained) is Ok <==> dirs is Ok,
        dirs is Ok ==> directories_left(dirs, retained)->Ok_0 == dirs_to_remove(
            dirs->Ok_0,
            retained,
        ),
{
}

} // verus!
