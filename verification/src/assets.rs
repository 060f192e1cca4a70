//! A record held against what was found on disk.

use vstd::prelude::*;
use vstd::string::*;
use vstd::utf8::*;
use crate::digest::{sha256_bytes, sha256_text};
use crate::error::{fail, failure, or_else, outcome, Failure, ManagedError, ManagedResult};
use crate::layout::{
    generation_layout_ok, helper_path, is_known_kind, known_kind,
    law_accepted_records_own_nothing_else, layout_of, marker_of,
    notice_mode_of, path_views, pointer_path, record_failure, rescue_helper, rescue_helper_path,
    rescue_layout, rescue_marker, rescue_marker_file, rescue_marker_path, validate_record_semantics,
    RescueLayout,
};
use crate::lists::{lemma_filter_has, lemma_joined_has};
use crate::order::{
    lemma_sorted_map, lemma_sorting_keeps_members, location_key, sort_located, sorted_by, Keyed, Located, SortOrder,
};
use crate::path::{
    check_stored_path, child, parent, parts, path_text, path_text_failure, path_under, same_path,
    stored_path_failure, FsPath, PathPart,
};
use crate::pathset::{all_parts, PathSet};
use crate::pi::{entry_allowed, is_allowed_managed_pi_entry};
use crate::record::{other_than, without_path, OwnershipRecord, RecordView, OWNERSHIP_SCHEMA};
use crate::text::{text_eq, text_join, utf8};

verus! {

/// A file that must be there, with its mode.
#[derive(Debug)]
pub struct ExpectedFile {
    pub path: FsPath,
    pub mode: u32,
}

impl View for ExpectedFile {
    type V = (Seq<u8>, u32);

    open spec fn view(&self) -> (Seq<u8>, u32) {
        (self.path@, self.mode)
    }
}

impl Keyed for ExpectedFile {
    open spec fn location(&self) -> Seq<u8> {
        self.path@
    }

    fn key_bytes(&self) -> (r: &[u8]) {
        self.path.bytes.as_slice()
    }
}

impl Located for ExpectedFile {
    fn path_ref(&self) -> (r: &FsPath) {
        &self.path
    }
}

/// The files that some values stand for.
pub open spec fn expected_views(files: Seq<ExpectedFile>) -> Seq<(Seq<u8>, u32)> {
    files.map_values(|f: ExpectedFile| f@)
}

/// The position of the first file at a path, or the number of files.
pub open spec fn slot(table: Seq<(Seq<u8>, u32)>, path: Seq<u8>) -> int
    decreases table.len(),
{
    if table.len() == 0 || same_path(table[0].0, path) {
        0
    } else {
        1 + slot(table.skip(1), path)
    }
}

/// A table with the mode of one file set; each path stands in it once.
pub open spec fn with_mode(table: Seq<(Seq<u8>, u32)>, path: Seq<u8>, mode: u32) -> Seq<
    (Seq<u8>, u32),
> {
    let at = slot(table, path);
    if at < table.len() {
        table.update(at, (table[at].0, mode))
    } else {
        table.push((path, mode))
    }
}

/// The table that some settings of modes lead to, one after the other.
pub open spec fn tabulated(plan: Seq<(Seq<u8>, u32)>) -> Seq<(Seq<u8>, u32)>
    decreases plan.len(),
{
    if plan.len() == 0 {
        plan
    } else {
        with_mode(tabulated(plan.drop_last()), plan.last().0, plan.last().1)
    }
}

/// The mode that a table has for a path.
pub open spec fn mode_in(table: Seq<(Seq<u8>, u32)>, path: Seq<u8>) -> Option<u32> {
    if slot(table, path) < table.len() {
        Some(table[slot(table, path)].1)
    } else {
        None
    }
}

fn find_slot(table: &Vec<ExpectedFile>, path: &FsPath) -> (r: usize)
    ensures
        r == slot(expected_views(table@), path@),
        r <= table.len(),
{
    let ghost views = expected_views(table@);
    let mut i: usize = 0;
    assert(views.skip(0) =~= views);
    while i < table.len()
        invariant
            i <= table.len(),
            views == expected_views(table@),
            slot(views, path@) == i + slot(views.skip(i as int), path@),
        decreases table.len() - i,
    {
        assert(views.skip(i as int)[0] == table@[i as int]@);
        assert(views.skip(i as int).skip(1) =~= views.skip(i + 1));
        if table[i].path.same(path) {
            return i;
        }
        i += 1;
    }
    i
}

fn put_mode(table: &mut Vec<ExpectedFile>, path: FsPath, mode: u32)
    ensures
        expected_views(final(table)@) == with_mode(expected_views(old(table)@), path@, mode),
{
    let ghost before = expected_views(table@);
    let at: usize = find_slot(table, &path);
    if at < table.len() {
        let kept = table[at].path.copy();
        table[at] = ExpectedFile { path: kept, mode };
        assert(expected_views(table@) =~= before.update(at as int, (before[at as int].0, mode)));
    } else {
        let ghost bytes = path@;
        table.push(ExpectedFile { path, mode });
        assert(expected_views(table@) =~= before.push((bytes, mode)));
    }
}

/// The files that the record of an installation must list, with their modes.
pub open spec fn expected_plan(
    record: RecordView,
    stable: Seq<u8>,
    layout: RescueLayout,
    package_files: Seq<Seq<u8>>,
) -> Seq<(Seq<u8>, u32)> {
    seq![(record.stable_binary, 0o700u32)] + package_files.map_values(
        |p: Seq<u8>| (p, 0o600u32),
    ) + seq![
        (helper_path(record.plugin_root), 0o700u32),
        (pointer_path(record.plugin_root), 0o600u32),
        (record.rescue_path, notice_mode_of(layout)),
    ] + (if layout == RescueLayout::LegacyHelper {
        seq![(rescue_helper(stable), 0o700u32)]
    } else {
        Seq::empty()
    }) + seq![(rescue_marker_file(stable), 0o600u32)]
}

/// The files that the record of an installation must list, each once.
pub open spec fn expected_table(
    record: RecordView,
    stable: Seq<u8>,
    layout: RescueLayout,
    package_files: Seq<Seq<u8>>,
) -> Seq<(Seq<u8>, u32)> {
    tabulated(expected_plan(record, stable, layout, package_files))
}

/// A table that grows setting by setting.
struct Tabulation {
    table: Vec<ExpectedFile>,
    plan: Ghost<Seq<(Seq<u8>, u32)>>,
}

impl Tabulation {
    spec fn wf(&self) -> bool {
        expected_views(self.table@) == tabulated(self.plan@)
    }

    fn new() -> (r: Tabulation)
        ensures
            r.wf(),
            r.plan@ == Seq::<(Seq<u8>, u32)>::empty(),
    {
        let r = Tabulation { table: Vec::new(), plan: Ghost(Seq::empty()) };
        assert(expected_views(r.table@) =~= tabulated(r.plan@));
        r
    }

    fn put(&mut self, path: FsPath, mode: u32)
        requires
            old(self).wf(),
        ensures
            final(self).wf(),
            final(self).plan@ == old(self).plan@.push((path@, mode)),
    {
        let ghost grown = self.plan@.push((path@, mode));
        assert(grown.drop_last() =~= self.plan@);
        put_mode(&mut self.table, path, mode);
        self.plan = Ghost(grown);
    }
}

fn build_table(
    record: &OwnershipRecord,
    stable_root: &FsPath,
    layout: RescueLayout,
    package_files: &Vec<FsPath>,
) -> (r: Vec<ExpectedFile>)
    ensures
        expected_views(r@) == expected_table(
            record@,
            stable_root@,
            layout,
            path_views(package_files@),
        ),
{
    let ghost files = path_views(package_files@);
    let ghost listed = files.map_values(|p: Seq<u8>| (p, 0o600u32));
    let mut t = Tabulation::new();
    t.put(record.stable_binary.copy(), 0o700);
    let ghost head = t.plan@;
    let mut i: usize = 0;
    assert(head + listed.take(0) =~= head);
    while i < package_files.len()
        invariant
            i <= package_files.len(),
            t.wf(),
            files == path_views(package_files@),
            listed == files.map_values(|p: Seq<u8>| (p, 0o600u32)),
            t.plan@ == head + listed.take(i as int),
        decreases package_files.len() - i,
    {
        t.put(package_files[i].copy(), 0o600);
        assert(listed[i as int] == (package_files@[i as int]@, 0o600u32));
        assert(head + listed.take(i + 1) =~= (head + listed.take(i as int)).push(
            listed[i as int],
        ));
        i += 1;
    }
    assert(listed.take(i as int) =~= listed);
    t.put(record.plugin_root.join("libexec/herdr-a2a-dispatch"), 0o700);
    t.put(record.plugin_root.join("stable-bin-path"), 0o600);
    t.put(record.rescue_path.copy(), layout.notice_mode());
    if layout == RescueLayout::LegacyHelper {
        t.put(rescue_helper_path(stable_root), 0o700);
    }
    t.put(rescue_marker_path(stable_root), 0o600);
    assert(t.plan@ =~= expected_plan(record@, stable_root@, layout, files));
    t.table
}

/// What was found on disk for a record: for each directory and file whether it
/// is safe and what it holds.
#[derive(Debug)]
pub struct RecordAssets {
    pub plugin_root: ManagedResult<()>,
    pub libexec: ManagedResult<()>,
    pub generation: ManagedResult<()>,
    pub state_root: ManagedResult<()>,
    pub binary_digest: ManagedResult<String>,
    pub package_digest: ManagedResult<String>,
    pub package_files: ManagedResult<Vec<FsPath>>,
    /// One for each entry of the record: whether the file has the recorded mode
    /// and digest.
    pub owned: Vec<ManagedResult<()>>,
    pub generation_files: ManagedResult<Vec<FsPath>>,
    pub helper_digest: ManagedResult<String>,
    pub pointer: ManagedResult<String>,
}

/// Hands a failure on.
fn pass(r: &ManagedResult<()>) -> (out: ManagedResult<()>)
    ensures
        failure(out) == failure(*r),
{
    match r {
        Ok(_) => Ok(()),
        Err(e) => Err(e.copy()),
    }
}

/// What is wrong with a digest that was found, where another was recorded.
pub open spec fn digest_failure(
    found: ManagedResult<String>,
    recorded: Seq<char>,
    refused: Failure,
) -> Option<Failure> {
    match found {
        Err(e) => Some(e@),
        Ok(digest) => if digest@ == recorded {
            None
        } else {
            Some(refused)
        },
    }
}

fn check_digest(
    found: &ManagedResult<String>,
    recorded: &str,
    code: &'static str,
    message: &str,
) -> (r: ManagedResult<()>)
    ensures
        failure(r) == digest_failure(*found, recorded@, (code@, message@)),
{
    match found {
        Err(e) => Err(e.copy()),
        Ok(digest) => {
            if !text_eq(digest.as_str(), recorded) {
                return fail(code, message);
            }
            Ok(())
        },
    }
}

/// What is wrong with the paths of a record that its files are looked up by.
pub open spec fn lookup_paths_failure(record: RecordView, stable: Seq<u8>) -> Option<Failure> {
    let label = "ownership path"@;
    or_else(
        stored_path_failure(stable, label),
        or_else(
            stored_path_failure(record.stable_binary, label),
            or_else(
                stored_path_failure(record.pi_package_source, label),
                or_else(
                    stored_path_failure(record.pi_config_path, label),
                    or_else(
                        stored_path_failure(record.plugin_root, label),
                        or_else(
                            stored_path_failure(record.ownership_path, label),
                            or_else(
                                stored_path_failure(record.rescue_path, label),
                                if record.purge_authority {
                                    stored_path_failure(record.plugin_state_root, label)
                                } else {
                                    None
                                },
                            ),
                        ),
                    ),
                ),
            ),
        ),
    )
}

/// What is wrong with a record before its files are looked at.
pub open spec fn record_shape_failure(
    record: RecordView,
    stable: Seq<u8>,
    settings: Result<Seq<u8>, Failure>,
) -> Option<Failure> {
    or_else(
        record_failure(record, stable, record.plugin_root, settings),
        match layout_of(record, stable) {
            Err(f) => Some(f),
            Ok(_) => if !((record.schema_version == 2 || record.schema_version == OWNERSHIP_SCHEMA)
                && same_path(record.ownership_path, child(stable, "ownership.json"@)) && same_path(
                record.rescue_path,
                child(stable, "rescue/uninstall.sh"@),
            ) && known_kind(record.install_kind)) {
                Some(
                    (
                        "ownership_record_invalid"@,
                        "ownership schema or absolute paths are invalid"@,
                    ),
                )
            } else {
                or_else(
                    lookup_paths_failure(record, stable),
                    match settings {
                        Err(f) => Some(f),
                        Ok(settings) => if !same_path(record.pi_config_path, settings) {
                            Some(
                                (
                                    "ownership_record_invalid"@,
                                    "Pi configuration path changed"@,
                                ),
                            )
                        } else {
                            match parent(record.pi_package_source) {
                                None => Some(
                                    (
                                        "ownership_record_invalid"@,
                                        "Pi source has no generation parent"@,
                                    ),
                                ),
                                Some(generation) => canonical_failure(record, generation, stable),
                            }
                        },
                    },
                )
            },
        },
    )
}

/// What is wrong with where the binary and the package of a record are.
pub open spec fn canonical_failure(
    record: RecordView,
    generation: Seq<u8>,
    stable: Seq<u8>,
) -> Option<Failure> {
    let refused = Some(
        ("ownership_record_invalid"@, "record path relationships are not canonical"@),
    );
    if !generation_layout_ok(record, generation, stable) {
        refused
    } else {
        match entry_allowed(
            record.pi_package_entry,
            record.pi_config_path,
            record.pi_package_source,
        ) {
            Err(f) => Some(f),
            Ok(allowed) => if allowed {
                None
            } else {
                refused
            },
        }
    }
}

/// What is wrong with the directories of an installation.
pub open spec fn directories_failure(
    record: RecordView,
    purge: bool,
    assets: RecordAssets,
) -> Option<Failure> {
    or_else(
        failure(assets.plugin_root),
        or_else(
            failure(assets.libexec),
            or_else(
                failure(assets.generation),
                if record.purge_authority && purge {
                    failure(assets.state_root)
                } else {
                    None
                },
            ),
        ),
    )
}

/// What is wrong with the first `n` entries of a record, by the files that must be
/// there and by what was found.
pub open spec fn entries_failure(
    record: RecordView,
    table: Seq<(Seq<u8>, u32)>,
    owned: Seq<ManagedResult<()>>,
    n: int,
) -> Option<Failure>
    decreases n,
{
    if n <= 0 {
        None
    } else {
        let f = record.owned_files[n - 1];
        or_else(
            entries_failure(record, table, owned, n - 1),
            or_else(
                path_text_failure(f.path),
                if crate::layout::owned_parts(record.owned_files.take(n - 1)).contains(
                    parts(f.path),
                ) || mode_in(table, f.path) != Some(f.mode) {
                    Some(
                        (
                            "ownership_record_invalid"@,
                            "owned paths or modes are not canonical and unique"@,
                        ),
                    )
                } else {
                    failure(owned[n - 1])
                },
            ),
        )
    }
}

/// The record without the entry of the marker.
pub open spec fn marker_record(record: RecordView, stable: Seq<u8>) -> RecordView {
    RecordView {
        owned_files: other_than(record.owned_files, rescue_marker_file(stable)),
        ..record
    }
}

/// What is wrong with the marker digest of an authoritative record of the older
/// schema.
pub open spec fn v2_marker_failure(record: RecordView, stable: Seq<u8>) -> Option<Failure> {
    if record.schema_version == 2 && record.purge_authority {
        match marker_of(marker_record(record, stable), stable) {
            Err(f) => Some(f),
            Ok(text) => if sha256_text(utf8(text)) == record.rescue_marker_digest {
                None
            } else {
                Some(
                    (
                        "ownership_record_invalid"@,
                        "authoritative schema v2 rescue marker does not match ownership"@,
                    ),
                )
            },
        }
    } else {
        None
    }
}

/// A file as its own key for sorting.
pub open spec fn expected_key() -> spec_fn((Seq<u8>, u32)) -> Seq<u8> {
    |f: (Seq<u8>, u32)| f.0
}

/// The component lists of the expected files at or below a directory, in the
/// order of their paths.
pub open spec fn expected_below(table: Seq<(Seq<u8>, u32)>, base: Seq<u8>) -> Seq<Seq<PathPart>> {
    sorted_by(SortOrder::ByPath, table, expected_key()).filter(
        |f: (Seq<u8>, u32)| path_under(f.0, base),
    ).map_values(|f: (Seq<u8>, u32)| parts(f.0))
}

/// What is wrong with the files that were found in the generation.
pub open spec fn generation_files_failure(
    found: ManagedResult<Vec<FsPath>>,
    table: Seq<(Seq<u8>, u32)>,
    generation: Seq<u8>,
) -> Option<Failure> {
    match found {
        Err(e) => Some(e@),
        Ok(files) => if all_parts(path_views(files@)) == expected_below(table, generation) {
            None
        } else {
            Some(("ownership_conflict"@, "generation contains unrecorded files"@))
        },
    }
}

/// What is wrong with the pointer that was found.
pub open spec fn pointer_failure(found: ManagedResult<String>, binary: Seq<u8>) -> Option<Failure> {
    match found {
        Err(e) => Some(e@),
        Ok(text) => or_else(
            path_text_failure(binary),
            if text@ == decode_utf8(binary) + "\n"@ {
                None
            } else {
                Some(
                    (
                        "owned_asset_modified"@,
                        "stable-bin-path no longer names the recorded binary exactly"@,
                    ),
                )
            },
        ),
    }
}

/// What is wrong with the files of an installation.
pub open spec fn files_failure(
    record: RecordView,
    stable: Seq<u8>,
    layout: RescueLayout,
    assets: RecordAssets,
) -> Option<Failure> {
    let aggregate = (
        "owned_asset_modified"@,
        "recorded aggregate digests do not match assets"@,
    );
    or_else(
        digest_failure(assets.binary_digest, record.broker_digest, aggregate),
        or_else(
            digest_failure(assets.package_digest, record.pi_package_digest, aggregate),
            match assets.package_files {
                Err(e) => Some(e@),
                Ok(files) => {
                    let table = expected_table(record, stable, layout, path_views(files@));
                    if record.owned_files.len() != table.len() {
                        Some(("ownership_record_invalid"@, "owned file set is not exact"@))
                    } else {
                        or_else(
                            entries_failure(
                                record,
                                table,
                                assets.owned@,
                                record.owned_files.len() as int,
                            ),
                            or_else(
                                v2_marker_failure(record, stable),
                                or_else(
                                    generation_files_failure(
                                        assets.generation_files,
                                        table,
                                        parent(record.pi_package_source)->0,
                                    ),
                                    or_else(
                                        digest_failure(
                                            assets.helper_digest,
                                            record.broker_digest,
                                            (
                                                "owned_asset_modified"@,
                                                "native helper does not match broker digest"@,
                                            ),
                                        ),
                                        pointer_failure(assets.pointer, record.stable_binary),
                                    ),
                                ),
                            ),
                        )
                    }
                },
            },
        ),
    )
}

/// What is wrong with a record and what was found for it.
pub open spec fn record_inner_failure(
    record: RecordView,
    stable: Seq<u8>,
    purge: bool,
    settings: Result<Seq<u8>, Failure>,
    assets: RecordAssets,
) -> Option<Failure> {
    or_else(
        record_shape_failure(record, stable, settings),
        or_else(
            directories_failure(record, purge, assets),
            files_failure(record, stable, layout_of(record, stable)->Ok_0, assets),
        ),
    )
}

/// A failure of a check of a record: for an authoritative record of the older
/// schema every failure is one of the record.
pub open spec fn record_check_failure(record: RecordView, f: Option<Failure>) -> Option<Failure> {
    if record.schema_version == 2 && record.purge_authority {
        crate::error::recoded(f, "ownership_record_invalid"@)
    } else {
        f
    }
}

fn check_lookup_paths(record: &OwnershipRecord, stable_root: &FsPath) -> (r: ManagedResult<()>)
    ensures
        failure(r) == lookup_paths_failure(record@, stable_root@),
{
    check_stored_path(stable_root, "ownership path")?;
    check_stored_path(&record.stable_binary, "ownership path")?;
    check_stored_path(&record.pi_package_source, "ownership path")?;
    check_stored_path(&record.pi_config_path, "ownership path")?;
    check_stored_path(&record.plugin_root, "ownership path")?;
    check_stored_path(&record.ownership_path, "ownership path")?;
    check_stored_path(&record.rescue_path, "ownership path")?;
    if record.purge_authority {
        check_stored_path(&record.plugin_state_root, "ownership path")?;
    }
    Ok(())
}

/// Checks a record before its files are looked at, and gives its layout and its
/// generation.
pub fn validate_record_shape(
    record: &OwnershipRecord,
    stable_root: &FsPath,
    pi_settings: &ManagedResult<FsPath>,
) -> (r: ManagedResult<(RescueLayout, FsPath)>)
    ensures
        failure(r) == record_shape_failure(record@, stable_root@, outcome(*pi_settings)),
        r is Ok ==> layout_of(record@, stable_root@) == Ok::<RescueLayout, Failure>(r->Ok_0.0)
            && parent(record.pi_package_source@) == Some(r->Ok_0.1@),
{
    validate_record_semantics(record, stable_root, &record.plugin_root, pi_settings)?;
    let layout = rescue_layout(record, stable_root)?;
    if !((record.schema_version == 2 || record.schema_version == OWNERSHIP_SCHEMA)
        && record.ownership_path.same(&stable_root.join("ownership.json"))
        && record.rescue_path.same(&stable_root.join("rescue/uninstall.sh")) && is_known_kind(
        record.install_kind.as_str(),
    )) {
        return fail(
            "ownership_record_invalid",
            "ownership schema or absolute paths are invalid",
        );
    }
    check_lookup_paths(record, stable_root)?;
    match pi_settings {
        Err(e) => {
            return Err(e.copy());
        },
        Ok(settings) => {
            if !record.pi_config_path.same(settings) {
                return fail("ownership_record_invalid", "Pi configuration path changed");
            }
        },
    }
    let Some(generation) = record.pi_package_source.parent() else {
        return fail("ownership_record_invalid", "Pi source has no generation parent");
    };
    let placed = match generation.parent() {
        Some(above) => above.same(&stable_root.join("generations")) && record.stable_binary.same(
            &generation.join("bin/herdr-a2a"),
        ),
        None => false,
    };
    if !placed {
        return fail("ownership_record_invalid", "record path relationships are not canonical");
    }
    if !is_allowed_managed_pi_entry(
        &record.pi_package_entry,
        &record.pi_config_path,
        &record.pi_package_source,
    )? {
        return fail("ownership_record_invalid", "record path relationships are not canonical");
    }
    Ok((layout, generation))
}

proof fn lemma_entries_failure_stays(
    record: RecordView,
    table: Seq<(Seq<u8>, u32)>,
    owned: Seq<ManagedResult<()>>,
    n: int,
    m: int,
)
    requires
        0 <= n <= m,
        entries_failure(record, table, owned, n) is Some,
    ensures
        entries_failure(record, table, owned, m) == entries_failure(record, table, owned, n),
    decreases m - n,
{
    if n < m {
        lemma_entries_failure_stays(record, table, owned, n, m - 1);
    }
}

fn check_entries(
    record: &OwnershipRecord,
    table: &Vec<ExpectedFile>,
    owned: &Vec<ManagedResult<()>>,
) -> (r: ManagedResult<()>)
    requires
        owned@.len() == record.owned_files@.len(),
    ensures
        failure(r) == entries_failure(
            record@,
            expected_views(table@),
            owned@,
            record.owned_files@.len() as int,
        ),
{
    let ghost v = record@;
    let ghost t = expected_views(table@);
    let mut seen = PathSet::new();
    let mut i: usize = 0;
    assert(seen@ =~= crate::layout::owned_parts(v.owned_files.take(0)));
    while i < record.owned_files.len()
        invariant
            i <= record.owned_files.len(),
            owned@.len() == record.owned_files@.len(),
            v == record@,
            t == expected_views(table@),
            seen@ == crate::layout::owned_parts(v.owned_files.take(i as int)),
            entries_failure(v, t, owned@, i as int) is None,
        decreases record.owned_files.len() - i,
    {
        let file = &record.owned_files[i];
        proof {
            assert(v.owned_files[i as int] == file@);
            assert(crate::layout::owned_parts(v.owned_files.take(i + 1))
                =~= crate::layout::owned_parts(v.owned_files.take(i as int)).push(
                parts(file.path@),
            ));
            if entries_failure(v, t, owned@, i + 1) is Some {
                lemma_entries_failure_stays(v, t, owned@, i + 1, v.owned_files.len() as int);
            }
        }
        match path_text(&file.path) {
            Ok(_) => {},
            Err(e) => {
                return Err(e);
            },
        }
        let fresh = seen.insert(&file.path);
        let at: usize = find_slot(table, &file.path);
        let listed = at < table.len() && table[at].mode == file.mode;
        proof {
            if at < table.len() {
                assert(t[at as int] == table@[at as int]@);
            }
        }
        if !fresh || !listed {
            return fail(
                "ownership_record_invalid",
                "owned paths or modes are not canonical and unique",
            );
        }
        pass(&owned[i])?;
        i += 1;
    }
    Ok(())
}

/// Checks the marker digest of an authoritative record of the older schema.
fn check_v2_marker(record: &OwnershipRecord, stable_root: &FsPath) -> (r: ManagedResult<()>)
    ensures
        failure(r) == v2_marker_failure(record@, stable_root@),
{
    if record.schema_version == 2 && record.purge_authority {
        let mut stripped = record.copy();
        let kept = without_path(&record.owned_files, &rescue_marker_path(stable_root));
        stripped.owned_files = kept;
        assert(stripped@ == marker_record(record@, stable_root@));
        let text = rescue_marker(&stripped, stable_root)?;
        let digest = sha256_bytes(text.as_str().as_bytes());
        if !text_eq(digest.as_str(), record.rescue_marker_digest.as_str()) {
            return fail(
                "ownership_record_invalid",
                "authoritative schema v2 rescue marker does not match ownership",
            );
        }
    }
    Ok(())
}

fn check_generation_files(
    found: &ManagedResult<Vec<FsPath>>,
    table: Vec<ExpectedFile>,
    generation: &FsPath,
) -> (r: ManagedResult<()>)
    ensures
        failure(r) == generation_files_failure(*found, expected_views(table@), generation@),
{
    let files = match found {
        Ok(files) => files,
        Err(e) => {
            return Err(e.copy());
        },
    };
    let ghost views = expected_views(table@);
    proof {
        lemma_sorted_map(
            SortOrder::ByPath,
            table@,
            |f: ExpectedFile| f@,
            location_key::<ExpectedFile>(),
            expected_key(),
        );
    }
    let sorted = sort_located(SortOrder::ByPath, table);
    let ghost ordered = expected_views(sorted@);
    let ghost below = |f: (Seq<u8>, u32)| path_under(f.0, generation@);
    let ghost wanted = expected_below(views, generation@);
    let ghost found_parts = all_parts(path_views(files@));
    let mut matched: usize = 0;
    let mut i: usize = 0;
    proof {
        reveal(Seq::filter);
        assert(ordered.take(0).filter(below) =~= Seq::empty());
        assert(found_parts.take(0) =~= ordered.take(0).filter(below).map_values(
            |f: (Seq<u8>, u32)| parts(f.0),
        ));
    }
    while i < sorted.len()
        invariant
            i <= sorted.len(),
            matched <= files.len(),
            *found == Ok::<Vec<FsPath>, ManagedError>(*files),
            ordered == expected_views(sorted@),
            ordered == sorted_by(SortOrder::ByPath, views, expected_key()),
            below == (|f: (Seq<u8>, u32)| path_under(f.0, generation@)),
            wanted == expected_below(views, generation@),
            found_parts == all_parts(path_views(files@)),
            views == expected_views(table@),
            found_parts.take(matched as int) == ordered.take(i as int).filter(below).map_values(
                |f: (Seq<u8>, u32)| parts(f.0),
            ),
        decreases sorted.len() - i,
    {
        let ghost so_far = ordered.take(i as int).filter(below);
        proof {
            crate::pi::lemma_filter_next(ordered, below, i as int);
            assert(ordered[i as int] == sorted@[i as int]@);
            lemma_filter_prefix(ordered, below, i + 1);
        }
        if sorted[i].path.starts_with(generation) {
            let ghost grown = so_far.push(ordered[i as int]);
            proof {
                assert(grown.map_values(|f: (Seq<u8>, u32)| parts(f.0)) =~= so_far.map_values(
                    |f: (Seq<u8>, u32)| parts(f.0),
                ).push(parts(ordered[i as int].0)));
                let whole = ordered.filter(below);
                assert(ordered.take(i + 1).filter(below) == grown);
                assert(grown.is_prefix_of(whole));
                assert(whole.len() >= grown.len());
                assert(whole.subrange(0, grown.len() as int)[so_far.len() as int]
                    == grown[so_far.len() as int]);
                assert(wanted =~= whole.map_values(|f: (Seq<u8>, u32)| parts(f.0)));
                assert(wanted.len() > so_far.len());
                assert(wanted[so_far.len() as int] == parts(whole[so_far.len() as int].0));
                assert(found_parts.take(matched as int).len() == so_far.len());
            }
            if matched >= files.len() {
                assert(found_parts.len() <= so_far.len());
                return fail("ownership_conflict", "generation contains unrecorded files");
            }
            if !files[matched].same(&sorted[i].path) {
                assert(found_parts[matched as int] != wanted[matched as int]);
                return fail("ownership_conflict", "generation contains unrecorded files");
            }
            assert(found_parts[matched as int] == parts(files@[matched as int]@));
            assert(found_parts.take(matched + 1) =~= found_parts.take(matched as int).push(
                found_parts[matched as int],
            ));
            matched += 1;
        }
        i += 1;
    }
    assert(ordered.take(i as int) =~= ordered);
    if matched != files.len() {
        assert(found_parts.len() != wanted.len());
        return fail("ownership_conflict", "generation contains unrecorded files");
    }
    assert(found_parts.take(matched as int) =~= found_parts);
    Ok(())
}

/// What a filter keeps of the first items is the start of what it keeps of all.
proof fn lemma_filter_prefix<T>(s: Seq<T>, p: spec_fn(T) -> bool, n: int)
    requires
        0 <= n <= s.len(),
    ensures
        s.take(n).filter(p).is_prefix_of(s.filter(p)),
    decreases s.len() - n,
{
    if n == s.len() {
        assert(s.take(n) =~= s);
    } else {
        crate::pi::lemma_filter_next(s, p, n);
        lemma_filter_prefix(s, p, n + 1);
        let shorter = s.take(n).filter(p);
        let longer = s.take(n + 1).filter(p);
        assert(shorter.is_prefix_of(longer));
    }
}

fn check_pointer(found: &ManagedResult<String>, binary: &FsPath) -> (r: ManagedResult<()>)
    ensures
        failure(r) == pointer_failure(*found, binary@),
{
    match found {
        Err(e) => Err(e.copy()),
        Ok(text) => {
            let path = path_text(binary)?;
            let line = text_join(path.as_str(), "\n");
            if !text_eq(text.as_str(), line.as_str()) {
                return fail(
                    "owned_asset_modified",
                    "stable-bin-path no longer names the recorded binary exactly",
                );
            }
            Ok(())
        },
    }
}

/// Checks a record and what was found for it on disk.
pub fn validate_record_inner(
    record: &OwnershipRecord,
    stable_root: &FsPath,
    validate_purge_root: bool,
    pi_settings: &ManagedResult<FsPath>,
    assets: &RecordAssets,
) -> (r: ManagedResult<()>)
    requires
        assets.owned@.len() == record.owned_files@.len(),
    ensures
        failure(r) == record_inner_failure(
            record@,
            stable_root@,
            validate_purge_root,
            outcome(*pi_settings),
            *assets,
        ),
{
    let (layout, generation) = validate_record_shape(record, stable_root, pi_settings)?;
    pass(&assets.plugin_root)?;
    pass(&assets.libexec)?;
    pass(&assets.generation)?;
    if record.purge_authority && validate_purge_root {
        pass(&assets.state_root)?;
    }
    check_digest(
        &assets.binary_digest,
        record.broker_digest.as_str(),
        "owned_asset_modified",
        "recorded aggregate digests do not match assets",
    )?;
    check_digest(
        &assets.package_digest,
        record.pi_package_digest.as_str(),
        "owned_asset_modified",
        "recorded aggregate digests do not match assets",
    )?;
    let package_files = match &assets.package_files {
        Ok(files) => files,
        Err(e) => {
            return Err(e.copy());
        },
    };
    let table = build_table(record, stable_root, layout, package_files);
    assert(expected_views(table@).len() == table@.len());
    assert(record@.owned_files.len() == record.owned_files@.len());
    if record.owned_files.len() != table.len() {
        return fail("ownership_record_invalid", "owned file set is not exact");
    }
    check_entries(record, &table, &assets.owned)?;
    check_v2_marker(record, stable_root)?;
    check_generation_files(&assets.generation_files, table, &generation)?;
    check_digest(
        &assets.helper_digest,
        record.broker_digest.as_str(),
        "owned_asset_modified",
        "native helper does not match broker digest",
    )?;
    check_pointer(&assets.pointer, &record.stable_binary)
}

/// Checks a record and what was found for it on disk. Every failure of an
/// authoritative record of the older schema counts as one of the record.
pub fn validate_record_for_removal(
    record: &OwnershipRecord,
    stable_root: &FsPath,
    purge: bool,
    pi_settings: &ManagedResult<FsPath>,
    assets: &RecordAssets,
) -> (r: ManagedResult<()>)
    requires
        assets.owned@.len() == record.owned_files@.len(),
    ensures
        failure(r) == record_check_failure(
            record@,
            record_inner_failure(record@, stable_root@, purge, outcome(*pi_settings), *assets),
        ),
{
    match validate_record_inner(record, stable_root, purge, pi_settings, assets) {
        Ok(_) => Ok(()),
        Err(e) => {
            if record.schema_version == 2 && record.purge_authority {
                Err(e.recode("ownership_record_invalid"))
            } else {
                Err(e)
            }
        },
    }
}

/// Checks a record and what was found for it on disk, its state root included.
pub fn validate_record(
    record: &OwnershipRecord,
    stable_root: &FsPath,
    pi_settings: &ManagedResult<FsPath>,
    assets: &RecordAssets,
) -> (r: ManagedResult<()>)
    requires
        assets.owned@.len() == record.owned_files@.len(),
    ensures
        failure(r) == record_check_failure(
            record@,
            record_inner_failure(record@, stable_root@, true, outcome(*pi_settings), *assets),
        ),
{
    validate_record_for_removal(record, stable_root, true, pi_settings, assets)
}

/// A table has for a path the mode that was set last for it, and none for a path that none
/// was set for.
pub proof fn law_the_last_mode_counts(plan: Seq<(Seq<u8>, u32)>, path: Seq<u8>, mode: u32, p: Seq<u8>)
    ensures
        mode_in(tabulated(plan.push((path, mode))), p) == (if parts(p) == parts(path) {
            Some(mode)
        } else {
            mode_in(tabulated(plan), p)
        }),
        mode_in(tabulated(Seq::empty()), p) is None,
        mode_in(tabulated(plan), p) is None <==> forall|i: int|
            0 <= i < plan.len() ==> parts((#[trigger] plan[i]).0) != parts(p),
    decreases plan.len(),
{
    assert(plan.push((path, mode)).drop_last() =~= plan);
    lemma_with_mode(tabulated(plan), path, mode, p);
    if plan.len() > 0 {
        let front = plan.drop_last();
        let last = plan.last();
        law_the_last_mode_counts(front, last.0, last.1, p);
        assert(front.push(last) =~= plan);
        if parts(p) == parts(last.0) {
            assert(parts(plan[plan.len() - 1].0) == parts(p));
        } else if mode_in(tabulated(front), p) is None {
            assert forall|i: int| 0 <= i < plan.len() implies parts((#[trigger] plan[i]).0) != parts(
                p,
            ) by {
                if i < front.len() {
                    assert(front[i] == plan[i]);
                }
            }
        } else {
            let i = choose|i: int| 0 <= i < front.len() && parts((#[trigger] front[i]).0) == parts(p);
            assert(plan[i] == front[i]);
        }
    }
}

proof fn lemma_with_mode(table: Seq<(Seq<u8>, u32)>, path: Seq<u8>, mode: u32, p: Seq<u8>)
    ensures
        mode_in(with_mode(table, path, mode), p) == (if parts(p) == parts(path) {
            Some(mode)
        } else {
            mode_in(table, p)
        }),
    decreases table.len(),
{
    let after = with_mode(table, path, mode);
    if table.len() == 0 {
        assert(after =~= seq![(path, mode)]);
        assert(after.skip(1) =~= Seq::empty());
    } else if same_path(table[0].0, path) {
        assert(slot(table, path) == 0);
        assert(after =~= table.update(0, (table[0].0, mode)));
        assert(after.skip(1) =~= table.skip(1));
        lemma_slot_range(table.skip(1), p);
        if !same_path(table[0].0, p) {
            assert(slot(after, p) == 1 + slot(after.skip(1), p));
            assert(slot(table, p) == 1 + slot(table.skip(1), p));
        }
    } else {
        let rest = table.skip(1);
        lemma_with_mode(rest, path, mode, p);
        assert(slot(table, path) == 1 + slot(rest, path));
        lemma_slot_range(rest, path);
        assert(after.skip(1) =~= with_mode(rest, path, mode));
        assert(after[0] == table[0]);
        lemma_slot_range(rest, p);
        lemma_slot_range(after.skip(1), p);
        if !same_path(table[0].0, p) {
            assert(slot(after, p) == 1 + slot(after.skip(1), p));
            assert(slot(table, p) == 1 + slot(rest, p));
            if slot(after, p) < after.len() {
                assert(after[slot(after, p)] == after.skip(1)[slot(after.skip(1), p)]);
            }
            if slot(table, p) < table.len() {
                assert(table[slot(table, p)] == rest[slot(rest, p)]);
            }
        }
    }
}

proof fn lemma_slot_range(table: Seq<(Seq<u8>, u32)>, path: Seq<u8>)
    ensures
        0 <= slot(table, path) <= table.len(),
    decreases table.len(),
{
    if table.len() > 0 {
        lemma_slot_range(table.skip(1), path);
    }
}

/// The files that must be there are the binary and the helper, which may be run; the
/// package, the pointer and the marker, which may not; the notice, with the mode of the
/// layout; and the helper of the rescue directory just where the layout has one.
pub proof fn law_expected_files_are_those_of_the_installation(
    record: RecordView,
    stable: Seq<u8>,
    layout: RescueLayout,
    package_files: Seq<Seq<u8>>,
    f: (Seq<u8>, u32),
)
    ensures
        expected_plan(record, stable, layout, package_files).contains(f) <==> {
            ||| f == (record.stable_binary, 0o700u32)
            ||| f == (helper_path(record.plugin_root), 0o700u32)
            ||| f == (pointer_path(record.plugin_root), 0o600u32)
            ||| f == (record.rescue_path, if layout is SourceNotice {
                0o600u32
            } else {
                0o700u32
            })
            ||| f == (rescue_helper(stable), 0o700u32) && layout is LegacyHelper
            ||| f == (rescue_marker_file(stable), 0o600u32)
            ||| package_files.contains(f.0) && f.1 == 0o600u32
        },
{
    let a = seq![(record.stable_binary, 0o700u32)];
    let b = package_files.map_values(|p: Seq<u8>| (p, 0o600u32));
    let c = seq![
        (helper_path(record.plugin_root), 0o700u32),
        (pointer_path(record.plugin_root), 0o600u32),
        (record.rescue_path, notice_mode_of(layout)),
    ];
    let d = if layout == RescueLayout::LegacyHelper {
        seq![(rescue_helper(stable), 0o700u32)]
    } else {
        Seq::empty()
    };
    let e = seq![(rescue_marker_file(stable), 0o600u32)];
    lemma_joined_has(a, b, f);
    lemma_joined_has(a + b, c, f);
    lemma_joined_has(a + b + c, d, f);
    lemma_joined_has(a + b + c + d, e, f);
    assert(a[0] == a[0] && a.contains(a[0]));
    assert(c.contains(c[0]) && c.contains(c[1]) && c.contains(c[2]));
    assert(e.contains(e[0]));
    if layout == RescueLayout::LegacyHelper {
        assert(d.contains(d[0]));
    }
    if b.contains(f) {
        let k = b.index_of(f);
        assert(package_files[k] == f.0);
    }
    if package_files.contains(f.0) && f.1 == 0o600u32 {
        let k = package_files.index_of(f.0);
        assert(b[k] == f);
    }
}

/// A record holds of what was found only if it is in shape, its directories are safe, its
/// binary, its package and its helper have the recorded digests, and the pointer names the
/// binary.
pub proof fn law_held_records_have_their_digests(
    record: RecordView,
    stable: Seq<u8>,
    purge: bool,
    settings: Result<Seq<u8>, Failure>,
    assets: RecordAssets,
)
    requires
        record_inner_failure(record, stable, purge, settings, assets) is None,
    ensures
        record_failure(record, stable, record.plugin_root, settings) is None,
        layout_of(record, stable) is Ok,
        assets.plugin_root is Ok && assets.libexec is Ok && assets.generation is Ok,
        record.purge_authority && purge ==> assets.state_root is Ok,
        assets.binary_digest is Ok && assets.binary_digest->Ok_0@ == record.broker_digest,
        assets.package_digest is Ok && assets.package_digest->Ok_0@ == record.pi_package_digest,
        assets.helper_digest is Ok && assets.helper_digest->Ok_0@ == record.broker_digest,
        assets.pointer is Ok && assets.pointer->Ok_0@ == decode_utf8(record.stable_binary) + "\n"@,
        assets.package_files is Ok && assets.generation_files is Ok,
{
    assert(record_shape_failure(record, stable, settings) is None);
    assert(directories_failure(record, purge, assets) is None);
    assert(files_failure(record, stable, layout_of(record, stable)->Ok_0, assets) is None);
}

/// A record holds of what was found only if each of its entries is one that must be there,
/// with its mode, was found as recorded, and is the only one at its path; and if there are
/// as many entries as files that must be there.
pub proof fn law_held_records_list_the_expected_files(
    record: RecordView,
    stable: Seq<u8>,
    purge: bool,
    settings: Result<Seq<u8>, Failure>,
    assets: RecordAssets,
    i: int,
)
    requires
        record_inner_failure(record, stable, purge, settings, assets) is None,
        0 <= i < record.owned_files.len(),
    ensures
        ({
            let table = expected_table(
                record,
                stable,
                layout_of(record, stable)->Ok_0,
                path_views(assets.package_files->Ok_0@),
            );
            &&& record.owned_files.len() == table.len()
            &&& mode_in(table, record.owned_files[i].path) == Some(record.owned_files[i].mode)
            &&& assets.owned@[i] is Ok
            &&& path_text_failure(record.owned_files[i].path) is None
            &&& forall|j: int|
                0 <= j < i ==> parts((#[trigger] record.owned_files[j]).path) != parts(
                    record.owned_files[i].path,
                )
        }),
{
    let layout = layout_of(record, stable)->Ok_0;
    let table = expected_table(
        record,
        stable,
        layout,
        path_views(assets.package_files->Ok_0@),
    );
    assert(files_failure(record, stable, layout, assets) is None);
    lemma_entries_held(record, table, assets.owned@, record.owned_files.len() as int, i);
}

proof fn lemma_entries_held(
    record: RecordView,
    table: Seq<(Seq<u8>, u32)>,
    owned: Seq<ManagedResult<()>>,
    n: int,
    i: int,
)
    requires
        0 <= i < n <= record.owned_files.len(),
        entries_failure(record, table, owned, n) is None,
    ensures
        mode_in(table, record.owned_files[i].path) == Some(record.owned_files[i].mode),
        owned[i] is Ok,
        path_text_failure(record.owned_files[i].path) is None,
        forall|j: int|
            0 <= j < i ==> parts((#[trigger] record.owned_files[j]).path) != parts(
                record.owned_files[i].path,
            ),
    decreases n,
{
    if i < n - 1 {
        lemma_entries_held(record, table, owned, n - 1, i);
    } else {
        let before = crate::layout::owned_parts(record.owned_files.take(i));
        assert forall|j: int| 0 <= j < i implies parts((#[trigger] record.owned_files[j]).path)
            != parts(record.owned_files[i].path) by {
            assert(before[j] == parts(record.owned_files[j].path));
            assert(before.contains(before[j]));
        }
    }
}

/// The files in the generation of a record that holds are those that must be there, and no
/// others.
pub proof fn law_generations_hold_only_expected_files(
    record: RecordView,
    stable: Seq<u8>,
    purge: bool,
    settings: Result<Seq<u8>, Failure>,
    assets: RecordAssets,
    wanted: Seq<PathPart>,
)
    requires
        record_inner_failure(record, stable, purge, settings, assets) is None,
    ensures
        ({
            let table = expected_table(
                record,
                stable,
                layout_of(record, stable)->Ok_0,
                path_views(assets.package_files->Ok_0@),
            );
            let generation = parent(record.pi_package_source)->0;
            let found = path_views(assets.generation_files->Ok_0@);
            (exists|i: int| 0 <= i < found.len() && parts(#[trigger] found[i]) == wanted) <==> (
            exists|k: int|
                0 <= k < table.len() && parts((#[trigger] table[k]).0) == wanted && path_under(
                    table[k].0,
                    generation,
                ))
        }),
{
    let layout = layout_of(record, stable)->Ok_0;
    let table = expected_table(
        record,
        stable,
        layout,
        path_views(assets.package_files->Ok_0@),
    );
    let generation = parent(record.pi_package_source)->0;
    assert(files_failure(record, stable, layout, assets) is None);
    let found = path_views(assets.generation_files->Ok_0@);
    assert(all_parts(found) == expected_below(table, generation));
    let sorted = sorted_by(SortOrder::ByPath, table, expected_key());
    let inside = |f: (Seq<u8>, u32)| path_under(f.0, generation);
    let kept = sorted.filter(inside);
    lemma_sorting_keeps_members(SortOrder::ByPath, table, expected_key());
    if exists|i: int| 0 <= i < found.len() && parts(#[trigger] found[i]) == wanted {
        let i = choose|i: int| 0 <= i < found.len() && parts(#[trigger] found[i]) == wanted;
        assert(all_parts(found)[i] == wanted);
        assert(parts(kept[i].0) == wanted);
        assert(kept.contains(kept[i]));
        lemma_filter_has(sorted, inside, kept[i]);
        assert(table.contains(kept[i]));
        let k = table.index_of(kept[i]);
        assert(parts(table[k].0) == wanted && path_under(table[k].0, generation));
    }
    if exists|k: int|
        0 <= k < table.len() && parts((#[trigger] table[k]).0) == wanted && path_under(
            table[k].0,
            generation,
        ) {
        let k = choose|k: int|
            0 <= k < table.len() && parts((#[trigger] table[k]).0) == wanted && path_under(
                table[k].0,
                generation,
            );
        assert(table.contains(table[k]));
        assert(sorted.contains(table[k]));
        lemma_filter_has(sorted, inside, table[k]);
        let i = kept.index_of(table[k]);
        assert(all_parts(found)[i] == parts(table[k].0));
        assert(parts(found[i]) == wanted);
    }
}

/// An older record with authority holds only with the digest of the marker that it would
/// be given now.
pub proof fn law_older_markers_are_made_anew(
    record: RecordView,
    stable: Seq<u8>,
    purge: bool,
    settings: Result<Seq<u8>, Failure>,
    assets: RecordAssets,
)
    requires
        record_inner_failure(record, stable, purge, settings, assets) is None,
        record.schema_version == 2,
        record.purge_authority,
    ensures
        marker_of(marker_record(record, stable), stable) is Ok,
        sha256_text(utf8(marker_of(marker_record(record, stable), stable)->Ok_0))
            == record.rescue_marker_digest,
{
    assert(files_failure(record, stable, layout_of(record, stable)->Ok_0, assets) is None);
    assert(v2_marker_failure(record, stable) is None);
}

/// A failed check is a failed check however it is told: it is told with its own code,
/// but as a fault of the record for an older one with authority.
pub proof fn law_record_checks_keep_their_outcome(record: RecordView, f: Option<Failure>)
    ensures
        record_check_failure(record, f) is None <==> f is None,
        f is Some && record.schema_version == 2 && record.purge_authority ==> (
        record_check_failure(record, f)->0).0 == "ownership_record_invalid"@,
        !(record.schema_version == 2 && record.purge_authority) ==> record_check_failure(record, f)
            == f,
{
}

/// A record that makes sense is in shape for its files to be looked at.
pub proof fn law_sensible_records_are_in_shape(
    record: RecordView,
    stable: Seq<u8>,
    settings: Result<Seq<u8>, Failure>,
)
    ensures
        record_shape_failure(record, stable, settings) is None <==> record_failure(
            record,
            stable,
            record.plugin_root,
            settings,
        ) is None,
{
}

/// A record that makes sense holds of what was found if its directories are safe, every
/// digest is the recorded one, its entries were found as they are recorded and are the ones
/// that must be there, the generation holds just those of them that lie in it, the pointer
/// names the binary, and an older record with authority has the marker that it would be
/// given now.
pub proof fn law_records_hold_of_their_files(
    record: RecordView,
    stable: Seq<u8>,
    purge: bool,
    settings: Result<Seq<u8>, Failure>,
    assets: RecordAssets,
    table: Seq<(Seq<u8>, u32)>,
)
    requires
        record_failure(record, stable, record.plugin_root, settings) is None,
        assets.plugin_root is Ok && assets.libexec is Ok && assets.generation is Ok,
        record.purge_authority && purge ==> assets.state_root is Ok,
        assets.binary_digest is Ok && assets.binary_digest->Ok_0@ == record.broker_digest,
        assets.package_digest is Ok && assets.package_digest->Ok_0@ == record.pi_package_digest,
        assets.helper_digest is Ok && assets.helper_digest->Ok_0@ == record.broker_digest,
        assets.pointer is Ok && assets.pointer->Ok_0@ == decode_utf8(record.stable_binary) + "\n"@,
        assets.package_files is Ok,
        table == expected_table(
            record,
            stable,
            layout_of(record, stable)->Ok_0,
            path_views(assets.package_files->Ok_0@),
        ),
        record.owned_files.len() == table.len(),
        forall|i: int|
            0 <= i < record.owned_files.len() ==> mode_in(
                table,
                (#[trigger] record.owned_files[i]).path,
            ) == Some(record.owned_files[i].mode) && assets.owned@[i] is Ok,
        assets.generation_files is Ok,
        all_parts(path_views(assets.generation_files->Ok_0@)) == expected_below(
            table,
            parent(record.pi_package_source)->0,
        ),
        record.schema_version == 2 && record.purge_authority ==> marker_of(
            marker_record(record, stable),
            stable,
        ) is Ok && sha256_text(utf8(marker_of(marker_record(record, stable), stable)->Ok_0))
            == record.rescue_marker_digest,
    ensures
        record_inner_failure(record, stable, purge, settings, assets) is None,
{
    law_sensible_records_are_in_shape(record, stable, settings);
    assert forall|i: int| 0 <= i < record.owned_files.len() implies path_text_failure(
        (#[trigger] record.owned_files[i]).path,
    ) is None && forall|j: int|
        0 <= j < record.owned_files.len() && j != i ==> parts(
            (#[trigger] record.owned_files[j]).path,
        ) != parts(record.owned_files[i].path) by {
        law_accepted_records_own_nothing_else(record, stable, record.plugin_root, settings, i);
    }
    lemma_entries_hold(record, table, assets.owned@, record.owned_files.len() as int);
}

proof fn lemma_entries_hold(
    record: RecordView,
    table: Seq<(Seq<u8>, u32)>,
    owned: Seq<ManagedResult<()>>,
    n: int,
)
    requires
        0 <= n <= record.owned_files.len(),
        forall|i: int|
            0 <= i < record.owned_files.len() ==> mode_in(
                table,
                (#[trigger] record.owned_files[i]).path,
            ) == Some(record.owned_files[i].mode) && owned[i] is Ok,
        forall|i: int|
            0 <= i < record.owned_files.len() ==> path_text_failure(
                (#[trigger] record.owned_files[i]).path,
            ) is None,
        forall|i: int, j: int|
            0 <= i < record.owned_files.len() && 0 <= j < record.owned_files.len() && i != j
                ==> parts((#[trigger] record.owned_files[i]).path) != parts(
                (#[trigger] record.owned_files[j]).path,
            ),
    ensures
        entries_failure(record, table, owned, n) is None,
    decreases n,
{
    if n > 0 {
        lemma_entries_hold(record, table, owned, n - 1);
        let f = record.owned_files[n - 1];
        let before = crate::layout::owned_parts(record.owned_files.take(n - 1));
        if before.contains(parts(f.path)) {
            let i = before.index_of(parts(f.path));
            assert(before[i] == parts(record.owned_files[i].path));
        }
    }
}

} // verus!
