//! The removal of a staged tree that may be gone in part.

use vstd::prelude::*;
use crate::error::{Failure, ManagedResult};
use crate::order::{
    distinct_by, law_deepest_first_empties_directories_before_they_go,
    lemma_sorting_keeps_distinct, lemma_sorting_keeps_items, lemma_sorting_keeps_members, SortOrder,
};
use crate::path::{parts, path_under, same_path};
use crate::rescue::{inexact, inexact_rescue_migration_state};
use crate::snapshot::{
    dir_key, dir_parts, dirs_failure, exact_subset, file_parts, files_failure, has_dir, has_file,
    law_subset_survives_removals, lemma_sound_dirs, opt_snapshot, planned_only,
    planned_stage_is_exact_subset, planned_subset, plans_dir, plans_file, removal_order,
    rescue_stage_snapshot_is_planned, same_dir, same_file, same_root, shallowest,
    snapshot_failure, snapshot_root, stage_is_exact_subset, stage_snapshot_root, DirView,
    SnapshotView, StageFileView, StageSnapshot,
};

verus! {

/// What is left to remove of a tree: nothing where it is gone, and all that is there
/// where that is part of what is expected.
pub open spec fn remaining(
    expected: SnapshotView,
    current: Option<SnapshotView>,
    part: spec_fn(SnapshotView, SnapshotView) -> bool,
) -> Result<Option<SnapshotView>, Failure> {
    if expected.directories.len() == 0 {
        Err(("recovery_needed"@, "stage snapshot is empty"@))
    } else {
        match current {
            None => Ok(None),
            Some(tree) => if part(expected, tree) {
                Ok(Some(tree))
            } else {
                Err(inexact())
            },
        }
    }
}

/// What is left to remove of a tree of which every entry is known.
pub open spec fn remaining_exact(expected: SnapshotView, current: Option<SnapshotView>) -> Result<
    Option<SnapshotView>,
    Failure,
> {
    remaining(expected, current, |e: SnapshotView, c: SnapshotView| exact_subset(e, c))
}

/// What is left to remove of a tree that was only planned.
pub open spec fn remaining_planned(expected: SnapshotView, current: Option<SnapshotView>) -> Result<
    Option<SnapshotView>,
    Failure,
> {
    remaining(expected, current, |e: SnapshotView, c: SnapshotView| planned_subset(e, c))
}

/// The tree that a removal is to remove, or why nothing is removed.
pub open spec fn to_remove(r: ManagedResult<Option<StageSnapshot>>) -> Result<
    Option<SnapshotView>,
    Failure,
> {
    match r {
        Ok(tree) => Ok(opt_snapshot(tree)),
        Err(e) => Err(e@),
    }
}

/// Decides what to remove of a tree, given what is in place of it now: all that is
/// left of it, and nothing where anything else is there.
pub fn remove_remaining_exact_stage(snapshot: &StageSnapshot, current: Option<StageSnapshot>) -> (r:
    ManagedResult<Option<StageSnapshot>>)
    ensures
        to_remove(r) == remaining_exact(snapshot@, opt_snapshot(current)),
        r is Ok ==> r->Ok_0 == current,
{
    stage_snapshot_root(snapshot)?;
    let Some(tree) = current else {
        return Ok(None);
    };
    if !stage_is_exact_subset(snapshot, &tree) {
        return Err(inexact_rescue_migration_state());
    }
    Ok(Some(tree))
}

/// Decides what to remove of a tree that was only planned, given what is in place of
/// it now.
pub fn remove_remaining_planned_stage(
    snapshot: &StageSnapshot,
    current: Option<StageSnapshot>,
) -> (r: ManagedResult<Option<StageSnapshot>>)
    ensures
        to_remove(r) == remaining_planned(snapshot@, opt_snapshot(current)),
        r is Ok ==> r->Ok_0 == current,
{
    stage_snapshot_root(snapshot)?;
    let Some(tree) = current else {
        return Ok(None);
    };
    if !planned_stage_is_exact_subset(snapshot, &tree) {
        return Err(inexact_rescue_migration_state());
    }
    Ok(Some(tree))
}

/// Decides what to remove of the stage of a migration, which was only planned or is
/// known entry by entry, given what is in place of it now.
pub fn remove_remaining_stage(snapshot: &StageSnapshot, current: Option<StageSnapshot>) -> (r:
    ManagedResult<Option<StageSnapshot>>)
    ensures
        to_remove(r) == if planned_only(snapshot@) {
            remaining_planned(snapshot@, opt_snapshot(current))
        } else {
            remaining_exact(snapshot@, opt_snapshot(current))
        },
        r is Ok ==> r->Ok_0 == current,
{
    if rescue_stage_snapshot_is_planned(snapshot) {
        remove_remaining_planned_stage(snapshot, current)
    } else {
        remove_remaining_exact_stage(snapshot, current)
    }
}

/// One removal: of a file, or of a directory that has become empty.
pub enum Removal {
    File(StageFileView),
    Directory(DirView),
}

/// The removals that take a tree away, in their order: the files, and then the
/// directories.
pub open spec fn removals(s: SnapshotView) -> Seq<Removal> {
    s.files.map_values(|f: StageFileView| Removal::File(f)) + removal_order(s).map_values(
        |d: DirView| Removal::Directory(d),
    )
}

/// The entries that are in place.
#[verifier::ext_equal]
pub struct Entries {
    pub files: Set<StageFileView>,
    pub directories: Set<DirView>,
}

/// The entries of a tree.
pub open spec fn entries_of(s: SnapshotView) -> Entries {
    Entries { files: s.files.to_set(), directories: s.directories.to_set() }
}

/// Nothing is in place.
pub open spec fn no_entries() -> Entries {
    Entries { files: Set::empty(), directories: Set::empty() }
}

/// A removal is possible: the entry is in place, and a directory holds nothing.
pub open spec fn can_remove(e: Entries, step: Removal) -> bool {
    match step {
        Removal::File(f) => e.files.contains(f),
        Removal::Directory(d) => {
            &&& e.directories.contains(d)
            &&& forall|f: StageFileView| #[trigger]
                e.files.contains(f) ==> !path_under(f.path, d.path)
            &&& forall|other: DirView| #[trigger]
                e.directories.contains(other) && path_under(other.path, d.path) ==> other == d
        },
    }
}

/// What is in place after a removal.
pub open spec fn removed(e: Entries, step: Removal) -> Entries {
    match step {
        Removal::File(f) => Entries { files: e.files.remove(f), ..e },
        Removal::Directory(d) => Entries { directories: e.directories.remove(d), ..e },
    }
}

/// What is in place of a tree after the first `n` of its removals.
pub open spec fn left(s: SnapshotView, n: int) -> Entries
    decreases n,
{
    if n <= 0 {
        entries_of(s)
    } else {
        removed(left(s, n - 1), removals(s)[n - 1])
    }
}

/// A removal of an entry that an expected tree lists.
pub open spec fn lists_removal(expected: SnapshotView, step: Removal) -> bool {
    match step {
        Removal::File(f) => has_file(expected.files, f),
        Removal::Directory(d) => has_dir(expected.directories, d),
    }
}

/// A removal of an entry that was planned.
pub open spec fn plans_removal(planned: SnapshotView, step: Removal) -> bool {
    match step {
        Removal::File(f) => plans_file(planned.files, f),
        Removal::Directory(d) => plans_dir(planned.directories, d),
    }
}

proof fn lemma_dirs_distinct(dirs: Seq<DirView>, root: Seq<u8>)
    requires
        dirs_failure(dirs, root) is None,
    ensures
        distinct_by(dirs, dir_key()),
    decreases dirs.len(),
{
    if dirs.len() > 0 {
        let front = dirs.drop_last();
        lemma_dirs_distinct(front, root);
        assert forall|i: int, j: int| 0 <= i < j < dirs.len() implies !same_path(
            dir_key()(#[trigger] dirs[i]),
            dir_key()(#[trigger] dirs[j]),
        ) by {
            assert(front[i] == dirs[i]);
            if j < front.len() {
                assert(front[j] == dirs[j]);
            } else {
                assert(dir_parts(front)[i] == parts(dirs[i].path));
            }
        }
    }
}

proof fn lemma_files_distinct(files: Seq<StageFileView>, dirs: Seq<DirView>, root: Seq<u8>)
    requires
        files_failure(files, dirs, root) is None,
    ensures
        forall|i: int, j: int|
            0 <= i < j < files.len() ==> #[trigger] files[i] != #[trigger] files[j],
    decreases files.len(),
{
    if files.len() > 0 {
        let front = files.drop_last();
        lemma_files_distinct(front, dirs, root);
        assert forall|i: int, j: int| 0 <= i < j < files.len() implies #[trigger] files[i]
            != #[trigger] files[j] by {
            assert(front[i] == files[i]);
            if j < front.len() {
                assert(front[j] == files[j]);
            } else {
                assert(file_parts(front)[i] == parts(files[i].path));
            }
        }
    }
}

/// Stands among the items from some place on.
pub open spec fn from_on<T>(s: Seq<T>, n: int, x: T) -> bool {
    exists|i: int| n <= i < s.len() && 0 <= i && #[trigger] s[i] == x
}

proof fn lemma_next_from_on<T>(s: Seq<T>, n: int, x: T)
    requires
        0 <= n < s.len(),
        forall|i: int, j: int| 0 <= i < j < s.len() ==> #[trigger] s[i] != #[trigger] s[j],
    ensures
        from_on(s, n + 1, x) == (from_on(s, n, x) && x != s[n]),
{
    if from_on(s, n, x) && x != s[n] {
        let i = choose|i: int| n <= i < s.len() && 0 <= i && #[trigger] s[i] == x;
        assert(s[i] == x);
    }
}

proof fn lemma_left(s: SnapshotView, root: Seq<u8>, n: int)
    requires
        snapshot_failure(root, s) is None,
        0 <= n <= removals(s).len(),
    ensures
        forall|f: StageFileView|
            left(s, n).files.contains(f) == #[trigger] from_on(s.files, n, f),
        forall|d: DirView|
            left(s, n).directories.contains(d) == #[trigger] from_on(
                removal_order(s),
                n - s.files.len(),
                d,
            ),
    decreases n,
{
    let order = removal_order(s);
    let count = s.files.len() as int;
    lemma_dirs_distinct(s.directories, root);
    lemma_files_distinct(s.files, s.directories, root);
    lemma_sorting_keeps_distinct(SortOrder::DeepestFirst, s.directories, dir_key());
    lemma_sorting_keeps_items(SortOrder::DeepestFirst, s.directories, dir_key());
    lemma_sorting_keeps_members(SortOrder::DeepestFirst, s.directories, dir_key());
    assert forall|i: int, j: int| 0 <= i < j < order.len() implies #[trigger] order[i]
        != #[trigger] order[j] by {
        assert(!same_path(dir_key()(order[i]), dir_key()(order[j])));
    }
    if n == 0 {
        assert forall|f: StageFileView| left(s, n).files.contains(f) == #[trigger] from_on(
            s.files,
            n,
            f,
        ) by {
            if s.files.contains(f) {
                let i = choose|i: int| 0 <= i < s.files.len() && s.files[i] == f;
                assert(s.files[i] == f);
            }
        }
        assert forall|d: DirView| left(s, n).directories.contains(d) == #[trigger] from_on(
            order,
            n - count,
            d,
        ) by {
            assert(s.directories.contains(d) == order.contains(d));
            if order.contains(d) {
                let i = choose|i: int| 0 <= i < order.len() && order[i] == d;
                assert(order[i] == d);
            }
        }
    } else {
        lemma_left(s, root, n - 1);
        let step = removals(s)[n - 1];
        assert forall|f: StageFileView| left(s, n).files.contains(f) == #[trigger] from_on(
            s.files,
            n,
            f,
        ) by {
            if n - 1 < count {
                assert(step == Removal::File(s.files[n - 1]));
                lemma_next_from_on(s.files, n - 1, f);
            } else {
                assert(!from_on(s.files, n - 1, f));
            }
        }
        assert forall|d: DirView| left(s, n).directories.contains(d) == #[trigger] from_on(
            order,
            n - count,
            d,
        ) by {
            if n - 1 >= count {
                assert(step == Removal::Directory(order[n - 1 - count]));
                lemma_next_from_on(order, n - 1 - count, d);
            } else {
                assert(step == Removal::File(s.files[n - 1]));
                assert(from_on(order, n - count, d) == from_on(order, n - 1 - count, d));
            }
        }
    }
}

/// Every removal that takes a tree away is possible when its turn comes: a directory is
/// empty by then. After all of them nothing is left.
pub proof fn law_cleanup_takes_the_tree_away(s: SnapshotView, root: Seq<u8>, n: int)
    requires
        snapshot_failure(root, s) is None,
        0 <= n < removals(s).len(),
    ensures
        can_remove(left(s, n), removals(s)[n]),
        left(s, removals(s).len() as int) == no_entries(),
{
    let order = removal_order(s);
    let count = s.files.len() as int;
    lemma_left(s, root, n);
    lemma_left(s, root, removals(s).len() as int);
    let all = removals(s).len() as int;
    let end = left(s, all);
    assert forall|f: StageFileView| !end.files.contains(f) by {
        assert(!from_on(s.files, all, f));
    }
    assert forall|d: DirView| !end.directories.contains(d) by {
        assert(!from_on(order, all - count, d));
    }
    assert(end.files =~= Set::empty());
    assert(end.directories =~= Set::empty());
    let here = left(s, n);
    if n < count {
        assert(removals(s)[n] == Removal::File(s.files[n]));
        assert(from_on(s.files, n, s.files[n]));
    } else {
        let d = order[n - count];
        assert(removals(s)[n] == Removal::Directory(d));
        assert(from_on(order, n - count, d));
        assert forall|f: StageFileView| #[trigger] here.files.contains(f) implies !path_under(
            f.path,
            d.path,
        ) by {
            assert(!from_on(s.files, n, f));
        }
        lemma_dirs_distinct(s.directories, root);
        lemma_sorting_keeps_distinct(SortOrder::DeepestFirst, s.directories, dir_key());
        assert forall|other: DirView| #[trigger]
            here.directories.contains(other) && path_under(other.path, d.path) implies other
            == d by {
            assert(from_on(order, n - count, other));
            let k = choose|k: int|
                n - count <= k < order.len() && 0 <= k && #[trigger] order[k] == other;
            if k != n - count {
                assert(!same_path(dir_key()(order[n - count]), dir_key()(order[k])));
                law_deepest_first_empties_directories_before_they_go(
                    s.directories,
                    dir_key(),
                    k,
                    n - count,
                );
            }
        }
    }
}

proof fn lemma_shallowest(dirs: Seq<DirView>, i: int)
    requires
        0 <= i < dirs.len(),
    ensures
        0 <= shallowest(dirs) < dirs.len(),
        parts(dirs[shallowest(dirs)].path).len() <= parts(dirs[i].path).len(),
    decreases dirs.len(),
{
    if dirs.len() > 1 {
        let front = dirs.drop_last();
        if i < front.len() {
            lemma_shallowest(front, i);
            assert(front[i] == dirs[i]);
        } else {
            lemma_shallowest(front, 0);
        }
        assert(front[shallowest(front)] == dirs[shallowest(front)]);
    }
}

proof fn lemma_root_of(s: SnapshotView, root: Seq<u8>, k: int)
    requires
        0 <= k < s.directories.len(),
        same_path(s.directories[k].path, root),
        forall|i: int|
            0 <= i < s.directories.len() ==> path_under((#[trigger] s.directories[i]).path, root),
    ensures
        snapshot_root(s) is Some,
        same_path(snapshot_root(s)->0, root),
{
    lemma_shallowest(s.directories, k);
    let best = s.directories[shallowest(s.directories)].path;
    assert(path_under(best, root));
    assert(parts(best).take(parts(root).len() as int) =~= parts(root));
    assert(parts(best) =~= parts(root));
}

proof fn lemma_rest_keeps_root(s: SnapshotView, root: Seq<u8>, n: int, later: SnapshotView)
    requires
        snapshot_failure(root, s) is None,
        0 <= n < removals(s).len(),
        entries_of(later) == left(s, n),
    ensures
        same_root(s, later),
        forall|i: int|
            0 <= i < later.directories.len() ==> s.directories.contains(
                #[trigger] later.directories[i],
            ),
        forall|i: int| 0 <= i < later.files.len() ==> s.files.contains(#[trigger] later.files[i]),
{
    let order = removal_order(s);
    let count = s.files.len() as int;
    lemma_left(s, root, n);
    lemma_dirs_distinct(s.directories, root);
    lemma_sorting_keeps_distinct(SortOrder::DeepestFirst, s.directories, dir_key());
    lemma_sorting_keeps_items(SortOrder::DeepestFirst, s.directories, dir_key());
    lemma_sorting_keeps_members(SortOrder::DeepestFirst, s.directories, dir_key());
    assert forall|i: int| 0 <= i < later.directories.len() implies s.directories.contains(
        #[trigger] later.directories[i],
    ) by {
        let d = later.directories[i];
        assert(later.directories.contains(d));
        assert(entries_of(later).directories.contains(d));
        assert(from_on(order, n - count, d));
        assert(order.contains(d));
    }
    assert forall|i: int| 0 <= i < later.files.len() implies s.files.contains(
        #[trigger] later.files[i],
    ) by {
        let f = later.files[i];
        assert(later.files.contains(f));
        assert(entries_of(later).files.contains(f));
        assert(from_on(s.files, n, f));
    }
    let k = choose|k: int|
        0 <= k < s.directories.len() && same_path(#[trigger] s.directories[k].path, root);
    let top = s.directories[k];
    assert forall|i: int| 0 <= i < s.directories.len() implies path_under(
        (#[trigger] s.directories[i]).path,
        root,
    ) by {
        lemma_sound_dirs(s.directories, root, i);
    }
    lemma_root_of(s, root, k);
    assert(s.directories.contains(top));
    assert(order.contains(top));
    let at = choose|at: int| 0 <= at < order.len() && order[at] == top;
    let last = order.len() - 1;
    if at != last {
        let other = order[last];
        assert(order.contains(other));
        assert(s.directories.contains(other));
        assert(path_under(other.path, top.path));
        assert(!same_path(dir_key()(order[at]), dir_key()(order[last])));
        law_deepest_first_empties_directories_before_they_go(s.directories, dir_key(), last, at);
    }
    assert(from_on(order, n - count, order[last]));
    assert(left(s, n).directories.contains(top));
    assert(later.directories.contains(top));
    let m = choose|m: int| 0 <= m < later.directories.len() && later.directories[m] == top;
    assert forall|i: int| 0 <= i < later.directories.len() implies path_under(
        (#[trigger] later.directories[i]).path,
        root,
    ) by {
        assert(s.directories.contains(later.directories[i]));
    }
    lemma_root_of(later, root, m);
}

/// A removal that stops after any of its steps can be taken up again: what is then left
/// is still part of what is expected, so all of it is removed. Only entries of the
/// expected tree are ever removed, and once all are gone there is nothing to do.
pub proof fn law_interrupted_cleanup_goes_on(
    expected: SnapshotView,
    current: SnapshotView,
    root: Seq<u8>,
    n: int,
    later: SnapshotView,
)
    requires
        snapshot_failure(root, current) is None,
        remaining_exact(expected, Some(current)) is Ok,
        0 <= n < removals(current).len(),
        entries_of(later) == left(current, n),
    ensures
        lists_removal(expected, removals(current)[n]),
        remaining_exact(expected, Some(later)) == Ok::<Option<SnapshotView>, Failure>(
            Some(later),
        ),
        remaining_exact(expected, None) == Ok::<Option<SnapshotView>, Failure>(None),
{
    lemma_rest_keeps_root(current, root, n, later);
    assert forall|i: int| 0 <= i < later.directories.len() implies has_dir(
        current.directories,
        #[trigger] later.directories[i],
    ) by {
        let d = later.directories[i];
        let j = choose|j: int| 0 <= j < current.directories.len() && current.directories[j] == d;
        assert(same_dir(current.directories[j], d));
    }
    assert forall|i: int| 0 <= i < later.files.len() implies has_file(
        current.files,
        #[trigger] later.files[i],
    ) by {
        let f = later.files[i];
        let j = choose|j: int| 0 <= j < current.files.len() && current.files[j] == f;
        assert(same_file(current.files[j], f));
    }
    law_subset_survives_removals(expected, current, later);
    lemma_step_entry(current, n);
}

proof fn lemma_step_entry(s: SnapshotView, n: int)
    requires
        0 <= n < removals(s).len(),
    ensures
        match removals(s)[n] {
            Removal::File(f) => exists|i: int| 0 <= i < s.files.len() && #[trigger] s.files[i] == f,
            Removal::Directory(d) => exists|i: int|
                0 <= i < s.directories.len() && #[trigger] s.directories[i] == d,
        },
{
    let order = removal_order(s);
    lemma_sorting_keeps_items(SortOrder::DeepestFirst, s.directories, dir_key());
    lemma_sorting_keeps_members(SortOrder::DeepestFirst, s.directories, dir_key());
    if n < s.files.len() {
        assert(removals(s)[n] == Removal::File(s.files[n]));
    } else {
        let d = order[n - s.files.len()];
        assert(removals(s)[n] == Removal::Directory(d));
        assert(order.contains(d));
        assert(s.directories.contains(d));
        let i = choose|i: int| 0 <= i < s.directories.len() && s.directories[i] == d;
        assert(s.directories[i] == d);
    }
}

/// The removal of a tree that was only planned can be taken up again in the same way,
/// and removes only what was planned.
pub proof fn law_interrupted_planned_cleanup_goes_on(
    planned: SnapshotView,
    current: SnapshotView,
    root: Seq<u8>,
    n: int,
    later: SnapshotView,
)
    requires
        snapshot_failure(root, current) is None,
        remaining_planned(planned, Some(current)) is Ok,
        0 <= n < removals(current).len(),
        entries_of(later) == left(current, n),
    ensures
        plans_removal(planned, removals(current)[n]),
        remaining_planned(planned, Some(later)) == Ok::<Option<SnapshotView>, Failure>(
            Some(later),
        ),
        remaining_planned(planned, None) == Ok::<Option<SnapshotView>, Failure>(None),
{
    lemma_rest_keeps_root(current, root, n, later);
    assert forall|i: int| 0 <= i < later.directories.len() implies plans_dir(
        planned.directories,
        #[trigger] later.directories[i],
    ) by {
        let d = later.directories[i];
        let j = choose|j: int| 0 <= j < current.directories.len() && current.directories[j] == d;
        assert(plans_dir(planned.directories, current.directories[j]));
    }
    assert forall|i: int| 0 <= i < later.files.len() implies plans_file(
        planned.files,
        #[trigger] later.files[i],
    ) by {
        let f = later.files[i];
        let j = choose|j: int| 0 <= j < current.files.len() && current.files[j] == f;
        assert(plans_file(planned.files, current.files[j]));
    }
    lemma_step_entry(current, n);
}

/// A tree is removed just when it is there and is part of what is expected; what is then
/// removed is the tree as it was found. One that is gone needs nothing, and an expectation
/// without a directory is none.
pub proof fn law_only_expected_trees_are_removed(
    expected: SnapshotView,
    current: Option<SnapshotView>,
)
    ensures
        ({
            let exact = remaining_exact(expected, current);
            let planned = remaining_planned(expected, current);
            &&& expected.directories.len() == 0 ==> exact is Err && planned is Err
            &&& exact is Ok ==> exact->Ok_0 == current
            &&& planned is Ok ==> planned->Ok_0 == current
            &&& expected.directories.len() > 0 && current is Some ==> (exact is Ok <==> exact_subset(
                expected,
                current->0,
            )) && (planned is Ok <==> planned_subset(expected, current->0))
            &&& expected.directories.len() > 0 && current is None ==> exact is Ok && planned is Ok
            &&& exact is Err ==> exact->Err_0.0 == "recovery_needed"@
        }),
{
}

} // verus!
