//! A migration of the rescue directory that begins is one that its recovery accepts.

use vstd::prelude::*;
use vstd::string::*;
use vstd::utf8::*;
use crate::accepted::{distinct_files, lemma_names_differ, lemma_rescue_places, named, storable};
use crate::digest::{hex_text, sha256_text};
use crate::error::Failure;
use crate::journaled::{lemma_prefixed, lemma_token_place};
use crate::layout::{
    distinct, layout_of, owned_failure, owned_parts, record_failure, rescue_dir, rescue_helper,
    rescue_marker_file, rescue_notice, RescueLayout,
};
use crate::order::{
    in_order, law_sorting_keeps_an_order, lemma_filtered_distinct, lemma_filtered_in_order,
    lemma_sorted_in_order, lemma_sorting_keeps_items, lemma_sorting_keeps_members,
    lemma_sorted_insert, place, sorted_by, SortOrder,
};
use crate::path::{
    absolute_normal, child, is_absolute, join, law_joining_a_name_appends_it,
    law_moving_keeps_what_is_below, ordinary_name, parts, path_under, same_path,
};
use crate::pathset::all_parts;
use crate::record::{
    lemma_first_for_path, outside_of, owned_for, owned_key, same_record, OwnedFileView, RecordView,
};
use crate::rescue::{
    last_owned, migrated_record, migration_backup, migration_failure, migration_places_ok,
    migration_records_failure, migration_snapshots_failure, migration_stage, migration_token,
    planned_file, planned_stage, recorded_file, rescue_snapshot_failure, stage_file_key,
    without_rescue, RescueMigration, RescueMigrationPhase, RESCUE_MIGRATION_SCHEMA,
};
use crate::snapshot::{
    law_moved_snapshot_stays_valid, moved, moved_snapshot, snapshot_failure, StageFileView,
};
use crate::text::utf8;
use crate::transaction::owned_below;

verus! {

/// The entry of the new notice.
spec fn notice_of(prior: RecordView, notice: Seq<u8>) -> OwnedFileView {
    OwnedFileView { path: prior.rescue_path, sha256: sha256_text(notice), mode: 0o600 }
}

/// The entry of the new marker.
spec fn marker_of_text(stable: Seq<u8>, marker: Seq<char>) -> OwnedFileView {
    OwnedFileView {
        path: rescue_marker_file(stable),
        sha256: sha256_text(utf8(marker)),
        mode: 0o600,
    }
}

proof fn lemma_below_rescue(stable: Seq<u8>)
    requires
        is_absolute(stable),
    ensures
        is_absolute(rescue_dir(stable)),
        path_under(rescue_notice(stable), rescue_dir(stable)),
        path_under(rescue_marker_file(stable), rescue_dir(stable)),
        path_under(rescue_helper(stable), rescue_dir(stable)),
        !same_path(rescue_notice(stable), rescue_marker_file(stable)),
        !same_path(rescue_helper(stable), rescue_notice(stable)),
        !same_path(rescue_helper(stable), rescue_marker_file(stable)),
        child(stable, "rescue/uninstall.sh"@) == rescue_notice(stable),
{
    crate::accepted::lemma_names();
    lemma_rescue_places(stable);
    lemma_names_differ();
    law_joining_a_name_appends_it(stable, utf8("rescue"@));
    law_joining_a_name_appends_it(rescue_dir(stable), utf8("uninstall.sh"@));
    law_joining_a_name_appends_it(rescue_dir(stable), utf8("owner-v1"@));
    law_joining_a_name_appends_it(rescue_dir(stable), utf8("herdr-a2a-rescue"@));
    let rescue = parts(stable).push(named("rescue"@));
    assert(rescue.push(named("uninstall.sh"@)).last() == named("uninstall.sh"@));
    assert(rescue.push(named("owner-v1"@)).last() == named("owner-v1"@));
    assert(rescue.push(named("herdr-a2a-rescue"@)).last() == named("herdr-a2a-rescue"@));
}

proof fn lemma_left_out(files: Seq<OwnedFileView>, at: int, f: OwnedFileView, base: Seq<u8>)
    requires
        0 <= at <= files.len(),
        path_under(f.path, base),
    ensures
        outside_of(files.insert(at, f), base) == outside_of(files, base),
{
    let keep = |f: OwnedFileView| !path_under(f.path, base);
    let a = files.take(at);
    let b = files.skip(at);
    reveal(Seq::filter);
    assert(files =~= a + b);
    assert(files.insert(at, f) =~= (a + seq![f]) + b);
    Seq::filter_distributes_over_add(a, b, keep);
    Seq::filter_distributes_over_add(a + seq![f], b, keep);
    Seq::filter_distributes_over_add(a, seq![f], keep);
    let one = seq![f];
    let none = Seq::<OwnedFileView>::empty();
    assert(one.drop_last() =~= none);
    assert(one.last() == f && !keep(f));
    assert(none.filter(keep) =~= none);
    assert(one.filter(keep) == one.drop_last().filter(keep));
    assert(seq![f].filter(keep) =~= Seq::<OwnedFileView>::empty());
    assert(a.filter(keep) + Seq::<OwnedFileView>::empty() =~= a.filter(keep));
}

proof fn lemma_outside_twice(files: Seq<OwnedFileView>, base: Seq<u8>)
    ensures
        outside_of(outside_of(files, base), base) == outside_of(files, base),
    decreases files.len(),
{
    reveal(Seq::filter);
    if files.len() > 0 {
        let front = files.drop_last();
        lemma_outside_twice(front, base);
        let kept = outside_of(front, base);
        if !path_under(files.last().path, base) {
            assert(outside_of(files, base) == kept.push(files.last()));
            assert(kept.push(files.last()).drop_last() =~= kept);
        }
    }
}

/// The entries of a migrated record: those outside the rescue directory, as they
/// were, and the two new ones.
proof fn lemma_migrated_entries(
    prior: RecordView,
    stable: Seq<u8>,
    notice: Seq<u8>,
    marker: Seq<char>,
)
    requires
        is_absolute(stable),
        same_path(prior.rescue_path, rescue_notice(stable)),
        in_order(SortOrder::ByPath, prior.owned_files, owned_key()),
    ensures
        ({
            let files = migrated_record(prior, stable, notice, marker).owned_files;
            let kept = outside_of(prior.owned_files, rescue_dir(stable));
            &&& outside_of(files, rescue_dir(stable)) == kept
            &&& forall|f: OwnedFileView| #[trigger]
                files.contains(f) <==> kept.contains(f) || f == notice_of(prior, notice) || f
                    == marker_of_text(stable, marker)
        }),
{
    let rescue = rescue_dir(stable);
    let kept = outside_of(prior.owned_files, rescue);
    let n = notice_of(prior, notice);
    let m = marker_of_text(stable, marker);
    lemma_below_rescue(stable);
    lemma_filtered_in_order(
        SortOrder::ByPath,
        prior.owned_files,
        owned_key(),
        |f: OwnedFileView| !path_under(f.path, rescue),
    );
    law_sorting_keeps_an_order(SortOrder::ByPath, kept, owned_key());
    let first = sorted_by(SortOrder::ByPath, kept.push(n), owned_key());
    lemma_sorted_insert(SortOrder::ByPath, kept, n, owned_key());
    lemma_left_out(kept, place(SortOrder::ByPath, kept, n, owned_key()), n, rescue);
    lemma_sorted_in_order(SortOrder::ByPath, kept.push(n), owned_key());
    law_sorting_keeps_an_order(SortOrder::ByPath, first, owned_key());
    lemma_sorted_insert(SortOrder::ByPath, first, m, owned_key());
    lemma_left_out(first, place(SortOrder::ByPath, first, m, owned_key()), m, rescue);
    lemma_outside_twice(prior.owned_files, rescue);
    lemma_sorting_keeps_members(SortOrder::ByPath, kept.push(n), owned_key());
    lemma_sorting_keeps_members(SortOrder::ByPath, first.push(m), owned_key());
    let files = migrated_record(prior, stable, notice, marker).owned_files;
    assert(files == sorted_by(SortOrder::ByPath, first.push(m), owned_key()));
    assert forall|f: OwnedFileView| #[trigger]
        files.contains(f) <==> kept.contains(f) || f == n || f == m by {
        assert(first.push(m).contains(f) == files.contains(f));
        lemma_pushed(first, m, f);
        assert(kept.push(n).contains(f) == first.contains(f));
        lemma_pushed(kept, n, f);
    }
}

proof fn lemma_pushed(files: Seq<OwnedFileView>, x: OwnedFileView, f: OwnedFileView)
    ensures
        files.push(x).contains(f) <==> files.contains(f) || f == x,
{
    assert(files.push(x)[files.len() as int] == x);
    if files.contains(f) {
        let k = choose|k: int| 0 <= k < files.len() && files[k] == f;
        assert(files.push(x)[k] == f);
    }
    if files.push(x).contains(f) {
        let k = choose|k: int| 0 <= k <= files.len() && files.push(x)[k] == f;
        if k < files.len() {
            assert(files[k] == f);
        }
    }
}

/// A migration changes a record in the rescue directory alone: everything else stays
/// as it was, in the same order, and the new layout is the one with a source notice.
pub proof fn law_migration_changes_the_rescue_alone(
    prior: RecordView,
    stable: Seq<u8>,
    notice: Seq<u8>,
    marker: Seq<char>,
)
    requires
        is_absolute(stable),
        same_path(prior.rescue_path, rescue_notice(stable)),
        in_order(SortOrder::ByPath, prior.owned_files, owned_key()),
    ensures
        ({
            let record = migrated_record(prior, stable, notice, marker);
            &&& same_record(
                without_rescue(prior, rescue_dir(stable)),
                without_rescue(record, rescue_dir(stable)),
            )
            &&& layout_of(record, stable) == Ok::<RescueLayout, Failure>(
                RescueLayout::SourceNotice,
            )
        }),
{
    let record = migrated_record(prior, stable, notice, marker);
    let files = record.owned_files;
    let rescue = rescue_dir(stable);
    let kept = outside_of(prior.owned_files, rescue);
    let n = notice_of(prior, notice);
    let m = marker_of_text(stable, marker);
    lemma_migrated_entries(prior, stable, notice, marker);
    lemma_below_rescue(stable);
    lemma_filtered_in_order(
        SortOrder::ByPath,
        prior.owned_files,
        owned_key(),
        |f: OwnedFileView| !path_under(f.path, rescue),
    );
    assert forall|i: int| 0 <= i < files.len() implies (same_path(
        (#[trigger] files[i]).path,
        record.rescue_path,
    ) ==> files[i] == n) && !same_path(files[i].path, rescue_helper(stable)) by {
        assert(files.contains(files[i]));
        if files[i] != n && files[i] != m {
            assert(kept.contains(files[i]));
            assert(!path_under(files[i].path, rescue));
        }
    }
    assert(files.contains(n));
    let k = choose|k: int| 0 <= k < files.len() && files[k] == n;
    lemma_first_for_path(files, record.rescue_path, k);
    assert(owned_for(files, rescue_helper(stable)) is None);
}

proof fn lemma_listed_apart(
    record: RecordView,
    stable: Seq<u8>,
    plugin_root: Seq<u8>,
    layout: RescueLayout,
    n: int,
)
    requires
        0 <= n <= record.owned_files.len(),
        owned_failure(record, stable, plugin_root, layout, n) is None,
    ensures
        distinct_files(record.owned_files.take(n)),
        forall|i: int| 0 <= i < n ==> absolute_normal((#[trigger] record.owned_files[i]).path),
    decreases n,
{
    if n > 0 {
        lemma_listed_apart(record, stable, plugin_root, layout, n - 1);
        let files = record.owned_files.take(n);
        let front = record.owned_files.take(n - 1);
        let f = record.owned_files[n - 1];
        assert forall|i: int, j: int| 0 <= i < j < files.len() implies !same_path(
            owned_key()(#[trigger] files[i]),
            owned_key()(#[trigger] files[j]),
        ) by {
            assert(files[i] == front[i]);
            if j < n - 1 {
                assert(files[j] == front[j]);
            } else {
                assert(owned_parts(front)[i] == parts(front[i].path));
                assert(!owned_parts(front).contains(parts(f.path)));
            }
        }
    }
}

proof fn lemma_last_is_the_one(files: Seq<OwnedFileView>, path: Seq<u8>, k: int)
    requires
        distinct_files(files),
        0 <= k < files.len(),
        same_path(files[k].path, path),
    ensures
        last_owned(files, path) == Some(files[k]),
    decreases files.len(),
{
    let last = files.len() - 1;
    if k < last {
        assert(!same_path(owned_key()(files[k]), owned_key()(files[last])));
        let front = files.drop_last();
        assert forall|i: int, j: int| 0 <= i < j < front.len() implies !same_path(
            owned_key()(#[trigger] front[i]),
            owned_key()(#[trigger] front[j]),
        ) by {
            assert(front[i] == files[i] && front[j] == files[j]);
        }
        assert(front[k] == files[k]);
        lemma_last_is_the_one(front, path, k);
    }
}

proof fn lemma_all_counted(files: Seq<OwnedFileView>)
    requires
        distinct_files(files),
    ensures
        distinct(files.map_values(|f: OwnedFileView| f.path)) == files.map_values(
            |f: OwnedFileView| f.path,
        ),
    decreases files.len(),
{
    let paths = files.map_values(|f: OwnedFileView| f.path);
    if files.len() > 0 {
        let front = files.drop_last();
        let last = files.len() - 1;
        let before = front.map_values(|f: OwnedFileView| f.path);
        assert(paths.drop_last() =~= before);
        assert forall|i: int, j: int| 0 <= i < j < front.len() implies !same_path(
            owned_key()(#[trigger] front[i]),
            owned_key()(#[trigger] front[j]),
        ) by {
            assert(front[i] == files[i] && front[j] == files[j]);
        }
        lemma_all_counted(front);
        if all_parts(before).contains(parts(paths.last())) {
            let k = choose|k: int|
                0 <= k < all_parts(before).len() && all_parts(before)[k] == parts(paths.last());
            assert(before[k] == files[k].path);
            assert(!same_path(owned_key()(files[k]), owned_key()(files[last])));
        }
        assert(before.push(paths.last()) =~= paths);
    } else {
        assert(distinct(paths) =~= paths);
    }
}

/// A path that is moved and moved back is the path that it was.
proof fn lemma_moved_back(p: Seq<u8>, source: Seq<u8>, destination: Seq<u8>)
    requires
        absolute_normal(p),
        absolute_normal(source),
        absolute_normal(destination),
        path_under(p, source),
    ensures
        same_path(moved(moved(p, source, destination), destination, source), p),
{
    let there = moved(p, source, destination);
    law_moving_keeps_what_is_below(p, source, destination);
    law_moving_keeps_what_is_below(there, destination, source);
    let n = parts(source).len() as int;
    let d = parts(destination);
    assert((d + parts(p).skip(n)).skip(d.len() as int) =~= parts(p).skip(n));
    assert(parts(p) =~= parts(source) + parts(p).skip(n)) by {
        assert(parts(p).take(n) =~= parts(source));
    }
}

/// The planned stage, published, is what a sound record lists of the rescue
/// directory.
proof fn lemma_planned_is_recorded(
    record: RecordView,
    stable: Seq<u8>,
    plugin_root: Seq<u8>,
    layout: RescueLayout,
    stage: Seq<u8>,
)
    requires
        absolute_normal(rescue_dir(stable)),
        absolute_normal(stage),
        owned_failure(
            record,
            stable,
            plugin_root,
            layout,
            record.owned_files.len() as int,
        ) is None,
        snapshot_failure(stage, planned_stage(record, rescue_dir(stable), stage)) is None,
    ensures
        rescue_snapshot_failure(
            record,
            rescue_dir(stable),
            moved_snapshot(
                planned_stage(record, rescue_dir(stable), stage),
                stage,
                rescue_dir(stable),
            ),
        ) is None,
{
    let rescue = rescue_dir(stable);
    let files = record.owned_files;
    let keep = |f: OwnedFileView| path_under(f.path, rescue);
    let below = files.filter(keep);
    let plan = |f: OwnedFileView| planned_file(f, rescue, stage);
    let planned = planned_stage(record, rescue, stage);
    let published = moved_snapshot(planned, stage, rescue);
    lemma_listed_apart(record, stable, plugin_root, layout, files.len() as int);
    assert(files.take(files.len() as int) =~= files);
    lemma_filtered_distinct(files, owned_key(), keep);
    lemma_all_counted(below);
    law_moved_snapshot_stays_valid(planned, stage, rescue);
    lemma_sorting_keeps_items(SortOrder::ByPath, below.map_values(plan), stage_file_key());
    lemma_sorting_keeps_members(SortOrder::ByPath, below.map_values(plan), stage_file_key());
    assert(owned_below(files, rescue) == below.map_values(|f: OwnedFileView| f.path));
    assert(published.files.len() == below.len());
    law_moving_keeps_what_is_below(stage, stage, rescue);
    assert(parts(stage).skip(parts(stage).len() as int) =~= Seq::empty());
    assert(parts(rescue) + Seq::empty() =~= parts(rescue));
    assert(published.directories[0].path == moved(stage, stage, rescue));
    assert forall|i: int| 0 <= i < published.files.len() implies recorded_file(
        record,
        #[trigger] published.files[i],
    ) by {
        let g = planned.files[i];
        assert(published.files[i] == (StageFileView { path: moved(g.path, stage, rescue), ..g }));
        assert(planned.files.contains(g));
        assert(below.map_values(plan).contains(g));
        let k = choose|k: int| 0 <= k < below.len() && below.map_values(plan)[k] == g;
        let o = below[k];
        assert(g == planned_file(o, rescue, stage));
        assert(below.contains(o));
        let at = choose|at: int| 0 <= at < files.len() && files[at] == o;
        assert(absolute_normal(files[at].path));
        lemma_moved_back(o.path, rescue, stage);
        lemma_last_is_the_one(files, published.files[i].path, at);
    }
}

/// A migration that begins is accepted when its journal is read back, where the
/// record of before was accepted, with its entries in the order of their paths.
pub proof fn law_begun_migration_is_accepted(
    m: RescueMigration,
    stable: Seq<u8>,
    random: Seq<u8>,
    notice: Seq<u8>,
    marker: Seq<char>,
    settings: Result<Seq<u8>, Failure>,
)
    requires
        random.len() == 16,
        storable(stable),
        m.schema_version == RESCUE_MIGRATION_SCHEMA,
        m.phase == RescueMigrationPhase::Intent,
        m.rescue@ == rescue_dir(stable),
        m.stage@ == migration_stage(stable, hex_text(random)),
        m.backup@ == migration_backup(stable, hex_text(random)),
        m.new_record@ == migrated_record(m.prior_record@, stable, notice, marker),
        m.new_snapshot@ == planned_stage(m.new_record@, m.rescue@, m.stage@),
        record_failure(m.prior_record@, stable, m.prior_record.plugin_root@, settings) is None,
        layout_of(m.prior_record@, stable) != Ok::<RescueLayout, Failure>(
            RescueLayout::SourceNotice,
        ),
        in_order(SortOrder::ByPath, m.prior_record@.owned_files, owned_key()),
        record_failure(m.new_record@, stable, m.new_record.plugin_root@, settings) is None,
        rescue_snapshot_failure(m.prior_record@, m.rescue@, m.prior_snapshot@) is None,
        snapshot_failure(m.stage@, m.new_snapshot@) is None,
    ensures
        migration_failure(m, stable, settings) is None,
{
    let prior = m.prior_record@;
    let token = utf8(hex_text(random));
    lemma_below_rescue(stable);
    law_migration_changes_the_rescue_alone(prior, stable, notice, marker);
    lemma_migration_places(m, stable, random);
    assert(migration_records_failure(m, stable) is None);
    lemma_planned_is_recorded(
        m.new_record@,
        stable,
        m.new_record.plugin_root@,
        RescueLayout::SourceNotice,
        m.stage@,
    );
    law_moved_snapshot_stays_valid(m.new_snapshot@, m.stage@, m.rescue@);
    crate::rescue::law_planned_stage_is_planned(m.new_record@, m.rescue@, m.stage@);
    assert(migration_snapshots_failure(m, stable) is None);
}

proof fn lemma_migration_places(m: RescueMigration, stable: Seq<u8>, random: Seq<u8>)
    requires
        random.len() == 16,
        absolute_normal(stable),
        m.schema_version == RESCUE_MIGRATION_SCHEMA,
        m.phase == RescueMigrationPhase::Intent,
        m.rescue@ == rescue_dir(stable),
        m.stage@ == migration_stage(stable, hex_text(random)),
        m.backup@ == migration_backup(stable, hex_text(random)),
    ensures
        migration_token(m) == Some(utf8(hex_text(random))),
        migration_places_ok(m, stable, utf8(hex_text(random))),
        absolute_normal(m.stage@),
        absolute_normal(m.rescue@),
{
    let text = hex_text(random);
    let token = utf8(text);
    reveal_strlit(".rescue-migration-stage-");
    reveal_strlit(".rescue-migration-backup-");
    lemma_prefixed(".rescue-migration-stage-"@, random);
    lemma_token_place(stable, ".rescue-migration-stage-"@, random);
    lemma_token_place(stable, ".rescue-migration-backup-"@, random);
    let prefix = utf8(".rescue-migration-stage-"@);
    assert(prefix.is_prefix_of(prefix + token));
    assert((prefix + token).skip(prefix.len() as int) =~= token);
    encode_utf8_valid_utf8(".rescue-migration-stage-"@ + text);
    lemma_name_keeps_normal(stable, utf8(".rescue-migration-stage-"@ + text));
    crate::accepted::lemma_names();
    lemma_name_keeps_normal(stable, utf8("rescue"@));
}

proof fn lemma_name_keeps_normal(above: Seq<u8>, name: Seq<u8>)
    requires
        absolute_normal(above),
        ordinary_name(name),
    ensures
        absolute_normal(join(above, name)),
{
    law_joining_a_name_appends_it(above, name);
    let there = join(above, name);
    assert forall|i: int| 0 <= i < parts(there).len() implies #[trigger] parts(there)[i]
        != crate::path::PathPart::Parent && parts(there)[i] != crate::path::PathPart::Current by {
        if i < parts(above).len() {
            assert(parts(there)[i] == parts(above)[i]);
        }
    }
}

} // verus!
