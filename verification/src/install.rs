//! The installation of a generation: what it is checked for, what it records, and
//! in which steps it goes.

use vstd::prelude::*;
use vstd::string::*;
use crate::digest::{digest_ok, sha256_bytes, sha256_text};
use crate::error::{
    fail, failure, failure_text, outcome, recoded, Failure, ManagedError, ManagedResult,
};
use crate::json::{json_views, opt_same_json, same_json, Json, JsonView};
use crate::layout::{
    helper_path, itself, marker_of, path_views, pointer_digest, pointer_path, rescue_marker,
    rescue_marker_file, rescue_marker_path, rescue_notice, rescue_notice_path, text_outcome,
};
use crate::lists::{lemma_filter_alike, lemma_filter_has, lemma_push_has, none_of, sole};
use crate::order::{
    lemma_sorted_map, lemma_sorting_keeps_items, lemma_sorting_keeps_members, location_key,
    sort_located, sorted_by, SortOrder,
};
use crate::path::{child, join, parts, path_text, path_text_failure, path_under, same_path, FsPath};
use crate::pi::{
    inspect_matching, leads_to, lemma_matching, managed_pi_entry, matching, opt_json,
    relative_entry, PiSettings,
};
use crate::record::{
    opt_record, other_than, owned_for, owned_key, owned_views, record_owned_file,
    removal_in_progress, same_record, without_path, InstallState, OwnedFile, OwnedFileView,
    OwnershipRecord, RecordView, OWNERSHIP_SCHEMA,
};
use crate::recovery::opt_str;
use crate::rescue::{add_owned, sort_owned};
use crate::restore::PreparedRescueAssets;
use crate::snapshot::{OwnedStageFile, StageSnapshot};
use crate::text::{bytes_eq, text_bytes, text_eq, text_join, utf8};
use crate::transaction::{
    generation_dir, generation_plan_path, generation_seed, InstallTransaction, TransactionPhase,
    TRANSACTION_SCHEMA,
};

verus! {

/// The record of before does not stand in the way of installing, or what does.
pub open spec fn prior_failure(record: RecordView, plugin_root: Seq<u8>) -> Option<Failure> {
    if !same_path(record.plugin_root, plugin_root) {
        Some(
            (
                "ownership_conflict"@,
                "the existing ownership record belongs to a different plugin root"@,
            ),
        )
    } else if removal_in_progress(record.state) {
        Some(
            ("removal_incomplete"@, "managed removal must be resumed before install"@),
        )
    } else {
        None
    }
}

/// Checks that the record of before does not stand in the way of installing, and
/// tells whether its installation was removed.
pub fn check_prior_for_install(record: &OwnershipRecord, plugin_root: &FsPath) -> (r: ManagedResult<
    bool,
>)
    ensures
        failure(r) == prior_failure(record@, plugin_root@),
        r is Ok ==> r->Ok_0 == (record.state == InstallState::Removed),
{
    if !record.plugin_root.same(plugin_root) {
        return fail(
            "ownership_conflict",
            "the existing ownership record belongs to a different plugin root",
        );
    }
    if crate::record::is_removal_in_progress(record.state) {
        return fail("removal_incomplete", "managed removal must be resumed before install");
    }
    Ok(record.state == InstallState::Removed)
}

/// The record of a live installation, if there is one.
pub open spec fn live_record(prior: Option<RecordView>) -> Option<RecordView> {
    match prior {
        Some(record) if record.state != InstallState::Removed => Some(record),
        _ => None,
    }
}

/// An installation replaces the generation of before.
pub open spec fn generation_replaced(
    prior: Option<OwnershipRecord>,
    broker: Seq<char>,
    package: Seq<char>,
) -> bool {
    live_record(opt_record(prior)) is Some && (prior->0.broker_digest@ != broker
        || prior->0.pi_package_digest@ != package)
}

/// Whether an installation takes the place of another generation, whose processes
/// are to be stopped first.
pub fn replaces_generation(
    prior: &Option<OwnershipRecord>,
    broker_digest: &str,
    package_digest: &str,
) -> (r: bool)
    ensures
        r == generation_replaced(*prior, broker_digest@, package_digest@),
{
    match prior {
        Some(record) => record.state != InstallState::Removed && (!text_eq(
            record.broker_digest.as_str(),
            broker_digest,
        ) || !text_eq(record.pi_package_digest.as_str(), package_digest)),
        None => false,
    }
}

/// An installation keeps the plugin files of before.
pub open spec fn plugin_kept(
    prior: Option<OwnershipRecord>,
    broker: Seq<char>,
    package: Seq<char>,
    binary: Seq<u8>,
    source: Seq<u8>,
) -> bool {
    (live_record(opt_record(prior)) is Some && prior->0.broker_digest@ == broker
        && prior->0.pi_package_digest@ == package && same_path(
        prior->0.stable_binary@,
        binary,
    ) && same_path(prior->0.pi_package_source@, source))
}

/// Whether the plugin files of before can stay: they are for the same generation.
pub fn keeps_plugin_assets(
    prior: &Option<OwnershipRecord>,
    broker_digest: &str,
    package_digest: &str,
    binary: &FsPath,
    package: &FsPath,
) -> (r: bool)
    ensures
        r == plugin_kept(*prior, broker_digest@, package_digest@, binary@, package@),
{
    match prior {
        Some(record) => record.state != InstallState::Removed && text_eq(
            record.broker_digest.as_str(),
            broker_digest,
        ) && text_eq(record.pi_package_digest.as_str(), package_digest)
            && record.stable_binary.same(binary) && record.pi_package_source.same(package),
        None => false,
    }
}

/// What stands in the way of a first installation of the plugin files.
pub open spec fn unowned_failure(helper_present: bool, pointer_present: bool) -> Option<Failure> {
    if helper_present || pointer_present {
        Some(("ownership_conflict"@, "an unowned managed path already exists"@))
    } else {
        None
    }
}

/// Checks that nothing of ours is in a plugin root that no record accounts for.
pub fn reject_unowned_plugin_assets(helper_present: bool, pointer_present: bool) -> (r:
    ManagedResult<()>)
    ensures
        failure(r) == unowned_failure(helper_present, pointer_present),
{
    if helper_present || pointer_present {
        return fail("ownership_conflict", "an unowned managed path already exists");
    }
    Ok(())
}

/// A name starts with a fixed text.
pub open spec fn some_name_starts(names: Seq<Seq<u8>>, prefix: Seq<char>) -> bool {
    exists|i: int| 0 <= i < names.len() && utf8(prefix).is_prefix_of(#[trigger] names[i])
}

fn name_starts(name: &[u8], prefix: &str) -> (r: bool)
    ensures
        r == utf8(prefix@).is_prefix_of(name@),
{
    let start = prefix.as_bytes();
    if name.len() < start.len() {
        return false;
    }
    let head = vstd::slice::slice_subrange(name, 0, start.len());
    assert(head@ =~= name@.subrange(0, start@.len() as int));
    bytes_eq(head, start)
}

fn any_name_starts(names: &Vec<Vec<u8>>, prefix: &str) -> (r: bool)
    ensures
        r == some_name_starts(crate::rescue::byte_views(names@), prefix@),
{
    let ghost views = crate::rescue::byte_views(names@);
    let mut i: usize = 0;
    while i < names.len()
        invariant
            i <= names.len(),
            views == crate::rescue::byte_views(names@),
            forall|k: int| 0 <= k < i ==> !utf8(prefix@).is_prefix_of(#[trigger] views[k]),
        decreases names.len() - i,
    {
        assert(views[i as int] == names@[i as int]@);
        if name_starts(names[i].as_slice(), prefix) {
            return true;
        }
        i += 1;
    }
    false
}

/// Refuses stages of generations that no journal accounts for.
pub fn clean_stale_stages(names: &Vec<Vec<u8>>) -> (r: ManagedResult<()>)
    ensures
        failure(r) == if some_name_starts(crate::rescue::byte_views(names@), ".stage-"@) {
            Some(("ownership_conflict"@, "an unauthenticated generation stage was found"@))
        } else {
            None
        },
{
    if any_name_starts(names, ".stage-") {
        return fail("ownership_conflict", "an unauthenticated generation stage was found");
    }
    Ok(())
}

/// Refuses stages of plugin files that no journal accounts for.
pub fn cleanup_plugin_stages(names: &Vec<Vec<u8>>) -> (r: ManagedResult<()>)
    ensures
        failure(r) == if some_name_starts(crate::rescue::byte_views(names@), ".managed-stage-"@) {
            Some(("ownership_conflict"@, "an unauthenticated plugin stage was found"@))
        } else {
            None
        },
{
    if any_name_starts(names, ".managed-stage-") {
        return fail("ownership_conflict", "an unauthenticated plugin stage was found");
    }
    Ok(())
}

/// The files of a generation, in the order of their paths: the binary and, below
/// `pi`, those of the package.
pub open spec fn generation_files(directory: Seq<u8>, relative: Seq<Seq<u8>>) -> Seq<Seq<u8>> {
    sorted_by(
        SortOrder::ByPath,
        seq![child(directory, "bin/herdr-a2a"@)] + relative.map_values(
            |p: Seq<u8>| join(child(directory, "pi"@), p),
        ),
        itself(),
    )
}

/// Plans a generation: its directory and its files.
pub fn generation_plan(
    stable_root: &FsPath,
    package_files: &Vec<FsPath>,
    broker_digest: &str,
    package_digest: &str,
) -> (r: (FsPath, Vec<FsPath>))
    ensures
        r.0@ == generation_dir(stable_root@, broker_digest@, package_digest@),
        path_views(r.1@) == generation_files(r.0@, path_views(package_files@)),
        digest_ok(sha256_text(utf8(generation_seed(broker_digest@, package_digest@)))),
{
    let directory = generation_plan_path(stable_root, broker_digest, package_digest);
    let ghost relative = path_views(package_files@);
    let ghost placed = relative.map_values(|p: Seq<u8>| join(child(directory@, "pi"@), p));
    let package = directory.join("pi");
    let mut files: Vec<FsPath> = Vec::new();
    files.push(directory.join("bin/herdr-a2a"));
    let ghost head = path_views(files@);
    let mut i: usize = 0;
    assert(head + placed.take(0) =~= head);
    while i < package_files.len()
        invariant
            i <= package_files.len(),
            package@ == child(directory@, "pi"@),
            relative == path_views(package_files@),
            placed == relative.map_values(|p: Seq<u8>| join(child(directory@, "pi"@), p)),
            path_views(files@) == head + placed.take(i as int),
        decreases package_files.len() - i,
    {
        let ghost before = path_views(files@);
        files.push(package.join_bytes(package_files[i].bytes.as_slice()));
        assert(relative[i as int] == package_files@[i as int]@);
        assert(path_views(files@) =~= before.push(placed[i as int]));
        assert(head + placed.take(i + 1) =~= (head + placed.take(i as int)).push(
            placed[i as int],
        ));
        i += 1;
    }
    assert(placed.take(i as int) =~= placed);
    proof {
        assert(path_views(files@) =~= seq![child(directory@, "bin/herdr-a2a"@)] + placed);
        lemma_sorted_map(
            SortOrder::ByPath,
            files@,
            |p: FsPath| p@,
            location_key::<FsPath>(),
            itself(),
        );
    }
    let sorted = sort_located(SortOrder::ByPath, files);
    (directory, sorted)
}

/// The authority of a new record over a state directory: a first installation
/// takes it, a later one keeps what it had.
pub open spec fn new_authority(
    prior: Option<RecordView>,
    state_root: Result<Seq<u8>, Failure>,
) -> Result<(bool, Seq<u8>), Failure> {
    match prior {
        Some(record) if !record.purge_authority => Ok((false, Seq::empty())),
        _ => match state_root {
            Err(f) => Err(f),
            Ok(root) => match prior {
                Some(record) => Ok((true, record.plugin_state_root)),
                None => Ok((true, root)),
            },
        },
    }
}

/// What a new record is made of.
pub struct RecordInputs {
    /// The entries of the binary, of the package, of the helper and of the
    /// pointer.
    pub owned: ManagedResult<Vec<OwnedFile>>,
    /// The state directory: the one to take for a first installation, or the
    /// recorded one where that is still private.
    pub state_root: ManagedResult<FsPath>,
    pub plugin_version: ManagedResult<String>,
    pub pi_settings: ManagedResult<FsPath>,
    pub binary: FsPath,
    pub package: FsPath,
    pub broker_digest: String,
    pub pi_package_digest: String,
    pub state: InstallState,
    pub install_kind: String,
}

/// What a new record is made of.
pub struct RecordInputsView {
    pub owned: Result<Seq<OwnedFileView>, Failure>,
    pub state_root: Result<Seq<u8>, Failure>,
    pub plugin_version: Result<Seq<char>, Failure>,
    pub pi_settings: Result<Seq<u8>, Failure>,
    pub binary: Seq<u8>,
    pub package: Seq<u8>,
    pub broker_digest: Seq<char>,
    pub pi_package_digest: Seq<char>,
    pub state: InstallState,
    pub install_kind: Seq<char>,
}

/// Some entries, or what stands in their way.
pub open spec fn owned_outcome(r: ManagedResult<Vec<OwnedFile>>) -> Result<
    Seq<OwnedFileView>,
    Failure,
> {
    match r {
        Ok(files) => Ok(owned_views(files@)),
        Err(e) => Err(e@),
    }
}

impl View for RecordInputs {
    type V = RecordInputsView;

    open spec fn view(&self) -> RecordInputsView {
        RecordInputsView {
            owned: owned_outcome(self.owned),
            state_root: outcome(self.state_root),
            plugin_version: text_outcome(self.plugin_version),
            pi_settings: outcome(self.pi_settings),
            binary: self.binary@,
            package: self.package@,
            broker_digest: self.broker_digest@,
            pi_package_digest: self.pi_package_digest@,
            state: self.state,
            install_kind: self.install_kind@,
        }
    }
}

/// The record of a new installation, or what stands in its way.
pub open spec fn built_record(
    stable: Seq<u8>,
    plugin_root: Seq<u8>,
    prior: Option<RecordView>,
    inputs: RecordInputsView,
) -> Result<RecordView, Failure> {
    match inputs.owned {
        Err(f) => Err(f),
        Ok(owned) => match new_authority(prior, inputs.state_root) {
            Err(f) => Err(f),
            Ok(authority) => match inputs.plugin_version {
                Err(f) => Err(f),
                Ok(version) => match inputs.pi_settings {
                    Err(f) => Err(f),
                    Ok(settings) => match relative_entry(settings, inputs.package) {
                        Err(f) => Err(f),
                        Ok(entry) => Ok(
                            RecordView {
                                schema_version: OWNERSHIP_SCHEMA,
                                state: inputs.state,
                                plugin_version: version,
                                broker_digest: inputs.broker_digest,
                                pi_package_digest: inputs.pi_package_digest,
                                pi_package_source: inputs.package,
                                pi_config_path: settings,
                                pi_package_entry: entry,
                                purge_authority: authority.0,
                                plugin_state_root: authority.1,
                                rescue_path: child(stable, "rescue/uninstall.sh"@),
                                rescue_marker_digest: Seq::empty(),
                                install_kind: inputs.install_kind,
                                plugin_root,
                                stable_binary: inputs.binary,
                                ownership_path: child(stable, "ownership.json"@),
                                owned_files: sorted_by(
                                    SortOrder::ByPath,
                                    owned,
                                    owned_key(),
                                ),
                                last_error: None,
                            },
                        ),
                    },
                },
            },
        },
    }
}

/// Makes the record of a new installation.
pub fn build_record(
    stable_root: &FsPath,
    plugin_root: &FsPath,
    prior: &Option<OwnershipRecord>,
    inputs: RecordInputs,
) -> (r: ManagedResult<OwnershipRecord>)
    ensures
        outcome(r) == built_record(stable_root@, plugin_root@, opt_record(*prior), inputs@),
{
    let owned = inputs.owned?;
    let owned_files = sort_owned(owned);
    let (purge_authority, plugin_state_root) = match prior {
        Some(record) => {
            if record.purge_authority {
                match &inputs.state_root {
                    Ok(_) => (true, record.plugin_state_root.copy()),
                    Err(e) => {
                        return Err(e.copy());
                    },
                }
            } else {
                (false, FsPath::empty())
            }
        },
        None => match &inputs.state_root {
            Ok(root) => (true, root.copy()),
            Err(e) => {
                return Err(e.copy());
            },
        },
    };
    let plugin_version = inputs.plugin_version?;
    let pi_config_path = inputs.pi_settings?;
    let pi_package_entry = managed_pi_entry(&pi_config_path, &inputs.package)?;
    Ok(
        OwnershipRecord {
            schema_version: OWNERSHIP_SCHEMA,
            state: inputs.state,
            plugin_version,
            broker_digest: inputs.broker_digest,
            pi_package_digest: inputs.pi_package_digest,
            pi_package_source: inputs.package,
            pi_config_path,
            pi_package_entry,
            purge_authority,
            plugin_state_root,
            rescue_path: stable_root.join("rescue/uninstall.sh"),
            rescue_marker_digest: String::new(),
            install_kind: inputs.install_kind,
            plugin_root: plugin_root.copy(),
            stable_binary: inputs.binary,
            ownership_path: stable_root.join("ownership.json"),
            owned_files,
            last_error: None,
        },
    )
}

/// Authority over a state directory is never gained by installing again.
pub proof fn law_reinstall_gains_no_authority(
    stable: Seq<u8>,
    plugin_root: Seq<u8>,
    prior: RecordView,
    inputs: RecordInputsView,
)
    requires
        built_record(stable, plugin_root, Some(prior), inputs) is Ok,
    ensures
        ({
            let record = built_record(stable, plugin_root, Some(prior), inputs)->Ok_0;
            &&& record.purge_authority == prior.purge_authority
            &&& record.purge_authority ==> record.plugin_state_root == prior.plugin_state_root
        }),
{
}

/// A record with the notice in its inventory, before the marker is.
pub open spec fn noticed(record: RecordView, stable: Seq<u8>, notice: Seq<u8>) -> RecordView {
    RecordView {
        rescue_path: rescue_notice(stable),
        owned_files: sorted_by(
            SortOrder::ByPath,
            other_than(
                other_than(record.owned_files, rescue_notice(stable)),
                rescue_marker_file(stable),
            ).push(
                OwnedFileView {
                    path: rescue_notice(stable),
                    sha256: sha256_text(notice),
                    mode: 0o600,
                },
            ),
            owned_key(),
        ),
        ..record
    }
}

/// A record with the notice and the marker in its inventory.
pub open spec fn marked(record: RecordView, stable: Seq<u8>, marker: Seq<char>) -> RecordView {
    let digest = sha256_text(utf8(marker));
    RecordView {
        rescue_marker_digest: digest,
        owned_files: sorted_by(
            SortOrder::ByPath,
            record.owned_files.push(
                OwnedFileView { path: rescue_marker_file(stable), sha256: digest, mode: 0o600 },
            ),
            owned_key(),
        ),
        ..record
    }
}

/// Prepares the rescue files of a record: the notice, and a marker that lists what
/// the record owns.
pub fn prepare_rescue_assets(stable_root: &FsPath, record: OwnershipRecord, notice: Vec<u8>) -> (r:
    ManagedResult<(OwnershipRecord, PreparedRescueAssets)>)
    ensures
        match marker_of(noticed(record@, stable_root@, notice@), stable_root@) {
            Err(f) => failure(r) == Some(f),
            Ok(marker) => r is Ok && r->Ok_0.0@ == marked(
                noticed(record@, stable_root@, notice@),
                stable_root@,
                marker,
            ) && r->Ok_0.1.rescue@ == rescue_notice(stable_root@) && r->Ok_0.1.notice@ == notice@
                && r->Ok_0.1.marker@ == rescue_marker_file(stable_root@)
                && r->Ok_0.1.marker_bytes@ == utf8(marker),
        },
        r is Ok ==> digest_ok(sha256_text(notice@)) && digest_ok(
            r->Ok_0.0.rescue_marker_digest@,
        ),
{
    let ghost before = record@;
    let rescue = rescue_notice_path(stable_root);
    let marker_path = rescue_marker_path(stable_root);
    let mut record = record;
    let kept = without_path(&record.owned_files, &rescue);
    let kept = without_path(&kept, &marker_path);
    record.owned_files = add_owned(
        kept,
        OwnedFile {
            path: rescue.copy(),
            sha256: sha256_bytes(notice.as_slice()),
            mode: 0o600,
        },
    );
    record.rescue_path = rescue.copy();
    assert(record@ == noticed(before, stable_root@, notice@));
    let marker = rescue_marker(&record, stable_root)?;
    let marker_bytes = text_bytes(marker.as_str());
    let digest = sha256_bytes(marker_bytes.as_slice());
    record.rescue_marker_digest = digest.clone();
    let files = record.owned_files;
    record.owned_files = add_owned(
        files,
        OwnedFile { path: marker_path.copy(), sha256: digest, mode: 0o600 },
    );
    assert(record@ == marked(noticed(before, stable_root@, notice@), stable_root@, marker@));
    Ok((record, PreparedRescueAssets { rescue, notice, marker: marker_path, marker_bytes }))
}

/// What an interrupted installation has to be finished with.
pub struct ForwardInputs {
    pub owned: ManagedResult<Vec<OwnedFile>>,
    pub state_root: ManagedResult<FsPath>,
    pub plugin_version: ManagedResult<String>,
    pub pi_settings: ManagedResult<FsPath>,
    pub notice: ManagedResult<Vec<u8>>,
}

/// The inputs of the record that an interrupted installation was about to write.
pub open spec fn forward_inputs(
    t: InstallTransaction,
    prior: RecordView,
    found: ForwardInputs,
) -> RecordInputsView {
    RecordInputsView {
        owned: owned_outcome(found.owned),
        state_root: outcome(found.state_root),
        plugin_version: text_outcome(found.plugin_version),
        pi_settings: outcome(found.pi_settings),
        binary: child(t.generation@, "bin/herdr-a2a"@),
        package: child(t.generation@, "pi"@),
        broker_digest: t.broker_digest@,
        pi_package_digest: t.pi_package_digest@,
        state: InstallState::Ready,
        install_kind: prior.install_kind,
    }
}

/// The record that an interrupted installation was about to write, and the marker
/// beside it.
pub open spec fn forward_record(
    t: InstallTransaction,
    prior: RecordView,
    stable: Seq<u8>,
    plugin_root: Seq<u8>,
    found: ForwardInputs,
) -> Result<(RecordView, Seq<char>), Failure> {
    match built_record(stable, plugin_root, Some(prior), forward_inputs(t, prior, found)) {
        Err(f) => Err(f),
        Ok(record) => match found.notice {
            Err(e) => Err(e@),
            Ok(notice) => {
                let entered = RecordView { pi_package_entry: t.new_pi_entry@, ..record };
                match marker_of(noticed(entered, stable, notice@), stable) {
                    Err(f) => Err(f),
                    Ok(marker) => Ok(
                        (marked(noticed(entered, stable, notice@), stable, marker), marker),
                    ),
                }
            },
        },
    }
}

/// Makes the record and the rescue files that an interrupted installation was
/// about to write.
pub fn plan_forward_publication(
    t: &InstallTransaction,
    prior: &OwnershipRecord,
    stable_root: &FsPath,
    plugin_root: &FsPath,
    found: ForwardInputs,
) -> (r: ManagedResult<(OwnershipRecord, PreparedRescueAssets)>)
    ensures
        match forward_record(*t, prior@, stable_root@, plugin_root@, found) {
            Err(f) => failure(r) == Some(f),
            Ok((record, marker)) => r is Ok && r->Ok_0.0@ == record && r->Ok_0.1.rescue@
                == rescue_notice(stable_root@) && r->Ok_0.1.notice@ == found.notice->Ok_0@
                && r->Ok_0.1.marker@ == rescue_marker_file(stable_root@)
                && r->Ok_0.1.marker_bytes@ == utf8(marker),
        },
{
    let inputs = RecordInputs {
        owned: found.owned,
        state_root: found.state_root,
        plugin_version: found.plugin_version,
        pi_settings: found.pi_settings,
        binary: t.generation.join("bin/herdr-a2a"),
        package: t.generation.join("pi"),
        broker_digest: t.broker_digest.clone(),
        pi_package_digest: t.pi_package_digest.clone(),
        state: InstallState::Ready,
        install_kind: prior.install_kind.clone(),
    };
    assert(inputs@ == forward_inputs(*t, prior@, found));
    let mut record = build_record(stable_root, plugin_root, &Some(prior.copy()), inputs)?;
    let ghost made = record@;
    record.pi_package_entry = t.new_pi_entry.copy();
    assert(record@ == (RecordView { pi_package_entry: t.new_pi_entry@, ..made }));
    match found.notice {
        Err(e) => Err(e),
        Ok(notice) => prepare_rescue_assets(stable_root, record, notice),
    }
}

/// Why an interrupted installation cannot be finished over the record of before.
pub open spec fn predecessor_failure(prior: Option<RecordView>) -> Option<Failure> {
    match prior {
        None => Some(
            ("recovery_needed"@, "predecessor Pi transaction has no prior ownership"@),
        ),
        Some(record) => if record.state == InstallState::Removed {
            Some(
                (
                    "recovery_needed"@,
                    "predecessor Pi transaction cannot update removed ownership"@,
                ),
            )
        } else {
            None
        },
    }
}

/// The record that an older interrupted installation starts from, which must be
/// that of a live installation for it to be finished.
pub fn predecessor_prior<'a>(t: &'a InstallTransaction) -> (r: ManagedResult<&'a OwnershipRecord>)
    ensures
        failure(r) == predecessor_failure(opt_record(t.prior_record)),
        r is Ok ==> t.prior_record == Some(*r->Ok_0),
{
    match &t.prior_record {
        None => fail("recovery_needed", "predecessor Pi transaction has no prior ownership"),
        Some(record) => {
            if record.state == InstallState::Removed {
                return fail(
                    "recovery_needed",
                    "predecessor Pi transaction cannot update removed ownership",
                );
            }
            Ok(record)
        },
    }
}

/// The entry of Pi that an installation owns already.
pub open spec fn owned_entry(prior: Option<RecordView>, first: Option<JsonView>) -> Option<JsonView> {
    match prior {
        Some(record) => if record.state != InstallState::Removed {
            Some(record.pi_package_entry)
        } else {
            None
        },
        None => first,
    }
}

/// The entry of the settings that counts as owned before an installation.
pub fn prior_owned_entry(prior: &Option<OwnershipRecord>, first: Option<Json>) -> (r: Option<Json>)
    ensures
        opt_json(r) == owned_entry(opt_record(*prior), opt_json(first)),
{
    match prior {
        Some(record) => if record.state != InstallState::Removed {
            Some(record.pi_package_entry.copy())
        } else {
            None
        },
        None => first,
    }
}

/// What the journal of an installation starts with.
pub struct JournalInputs {
    pub prior: Option<OwnershipRecord>,
    pub broker_digest: String,
    pub pi_package_digest: String,
    pub generation: FsPath,
    pub generation_files: Vec<FsPath>,
    pub generation_created: bool,
    pub prior_generation_snapshot: Option<StageSnapshot>,
    pub prior_helper_snapshot: Option<OwnedStageFile>,
    pub prior_pointer_snapshot: Option<OwnedStageFile>,
    pub pi_settings: PiSettings,
    pub prior_owned_pi_entry: Option<Json>,
}

/// A journal that has just begun: what it was made of, the places that carry its
/// token, and nothing of what comes later.
pub open spec fn begun(
    t: InstallTransaction,
    stable: Seq<u8>,
    plugin_root: Seq<u8>,
    token: Seq<char>,
    inputs: JournalInputs,
) -> bool {
    &&& t.schema_version == TRANSACTION_SCHEMA
    &&& t.phase == TransactionPhase::Intent
    &&& t.prior_record == inputs.prior
    &&& t.new_record is None
    &&& t.prior_rescue_notice is None
    &&& t.prior_rescue_marker is None
    &&& t.broker_digest@ == inputs.broker_digest@
    &&& t.pi_package_digest@ == inputs.pi_package_digest@
    &&& t.generation@ == inputs.generation@
    &&& t.generation_files == inputs.generation_files
    &&& t.generation_created == inputs.generation_created
    &&& t.generation_stage@ == child(
        child(stable, "generations"@),
        ".stage-"@ + token,
    )
    &&& t.generation_stage_snapshot is None
    &&& t.prior_generation_snapshot == inputs.prior_generation_snapshot
    &&& t.plugin_stage@ == child(plugin_root, ".managed-stage-"@ + token)
    &&& t.plugin_stage_snapshot is None
    &&& t.helper@ == helper_path(plugin_root)
    &&& t.pointer@ == pointer_path(plugin_root)
    &&& t.helper_backup@ == child(
        child(plugin_root, "libexec"@),
        ".herdr-a2a-backup-"@ + token,
    )
    &&& t.pointer_backup@ == child(plugin_root, ".stable-bin-backup-"@ + token)
    &&& t.prior_helper_present == (inputs.prior_helper_snapshot is Some)
    &&& t.prior_pointer_present == (inputs.prior_pointer_snapshot is Some)
    &&& t.prior_helper_snapshot == inputs.prior_helper_snapshot
    &&& t.prior_pointer_snapshot == inputs.prior_pointer_snapshot
    &&& t.new_helper_snapshot is None
    &&& t.new_pointer_snapshot is None
    &&& t.pi_config_path@ == inputs.pi_settings.path@
    &&& t.prior_pi_entries == inputs.pi_settings.entries
    &&& t.prior_owned_pi_entry == inputs.prior_owned_pi_entry
    &&& Ok::<JsonView, Failure>(t.new_pi_entry@) == relative_entry(
        inputs.pi_settings.path@,
        child(
            generation_dir(
                stable,
                inputs.broker_digest@,
                inputs.pi_package_digest@,
            ),
            "pi"@,
        ),
    )
}

/// Begins the journal of an installation, with names that carry its token.
pub fn begin_journal(
    stable_root: &FsPath,
    plugin_root: &FsPath,
    token: &str,
    inputs: JournalInputs,
) -> (r: ManagedResult<InstallTransaction>)
    ensures
        failure(r) == match relative_entry(
            inputs.pi_settings.path@,
            child(
                generation_dir(
                    stable_root@,
                    inputs.broker_digest@,
                    inputs.pi_package_digest@,
                ),
                "pi"@,
            ),
        ) {
            Err(f) => Some(f),
            Ok(_) => None,
        },
        r is Ok ==> begun(r->Ok_0, stable_root@, plugin_root@, token@, inputs),
{
    let planned = generation_plan_path(
        stable_root,
        inputs.broker_digest.as_str(),
        inputs.pi_package_digest.as_str(),
    );
    let new_pi_entry = managed_pi_entry(&inputs.pi_settings.path, &planned.join("pi"))?;
    let generation_stage = stable_root.join("generations").join(
        text_join(".stage-", token).as_str(),
    );
    let plugin_stage = plugin_root.join(text_join(".managed-stage-", token).as_str());
    let helper_backup = plugin_root.join("libexec").join(
        text_join(".herdr-a2a-backup-", token).as_str(),
    );
    let pointer_backup = plugin_root.join(text_join(".stable-bin-backup-", token).as_str());
    let prior_helper_present = inputs.prior_helper_snapshot.is_some();
    let prior_pointer_present = inputs.prior_pointer_snapshot.is_some();
    Ok(
        InstallTransaction {
            schema_version: TRANSACTION_SCHEMA,
            phase: TransactionPhase::Intent,
            prior_record: inputs.prior,
            new_record: None,
            prior_rescue_notice: None,
            prior_rescue_marker: None,
            broker_digest: inputs.broker_digest,
            pi_package_digest: inputs.pi_package_digest,
            generation: inputs.generation,
            generation_stage,
            generation_stage_snapshot: None,
            generation_files: inputs.generation_files,
            generation_created: inputs.generation_created,
            prior_generation_snapshot: inputs.prior_generation_snapshot,
            plugin_stage,
            plugin_stage_snapshot: None,
            helper: plugin_root.join("libexec/herdr-a2a-dispatch"),
            pointer: plugin_root.join("stable-bin-path"),
            helper_backup,
            pointer_backup,
            prior_helper_present,
            prior_pointer_present,
            prior_helper_snapshot: inputs.prior_helper_snapshot,
            prior_pointer_snapshot: inputs.prior_pointer_snapshot,
            new_helper_snapshot: None,
            new_pointer_snapshot: None,
            pi_config_path: inputs.pi_settings.path,
            prior_pi_entries: inputs.pi_settings.entries,
            prior_owned_pi_entry: inputs.prior_owned_pi_entry,
            new_pi_entry,
        },
    )
}

/// The steps of an installation once its journal is begun.
#[derive(Clone, Copy, Debug, PartialEq, Eq, Structural)]
pub enum InstallStep {
    /// The journal is written with a phase.
    Journal(TransactionPhase),
    /// The generation is staged, journaled and published.
    PrepareGeneration,
    /// The plugin files are staged and journaled.
    StagePlugin,
    /// The helper of before becomes its backup.
    BackUpHelper,
    /// The pointer of before becomes its backup.
    BackUpPointer,
    /// The staged helper takes its place.
    PublishHelper,
    /// The staged pointer takes its place.
    PublishPointer,
    /// The plugin files of before are looked at, since they stay.
    InspectPlugin,
    /// The new record is made.
    BuildRecord,
    /// Pi takes the new package and gives up the old one.
    ConfigurePi,
    /// The rescue files are made and those of before are kept.
    PrepareRescue,
    /// The rescue files are written.
    PublishRescue,
    /// The new record is written.
    WriteRecord,
    /// The backups and the stage go.
    DropBackups,
    /// The generation of before goes.
    RemoveSuperseded,
    /// The journal goes: the installation is over.
    ClearJournal,
}

/// What becomes of an installation whose step failed.
#[derive(Clone, Copy, Debug, PartialEq, Eq, Structural)]
pub enum OnFailure {
    /// The error is returned; the next run finds the journal.
    Return,
    /// Everything is put back as it was, and then the error is returned.
    RollBack,
    /// A warning: the installation is committed.
    Warn,
}

/// The steps up to the published generation.
pub open spec fn generation_steps() -> Seq<InstallStep> {
    seq![
        InstallStep::Journal(TransactionPhase::Intent),
        InstallStep::Journal(TransactionPhase::GenerationPublishing),
        InstallStep::PrepareGeneration,
        InstallStep::Journal(TransactionPhase::GenerationPublished),
        InstallStep::Journal(TransactionPhase::PluginPublishing),
    ]
}

/// The steps of the plugin files: they stay, or new ones are published with the
/// journal written before each change.
pub open spec fn plugin_steps(keeps_plugin: bool) -> Seq<InstallStep> {
    if keeps_plugin {
        seq![InstallStep::InspectPlugin]
    } else {
        seq![
            InstallStep::StagePlugin,
            InstallStep::Journal(TransactionPhase::PluginBackingUpHelper),
            InstallStep::BackUpHelper,
            InstallStep::Journal(TransactionPhase::PluginBackingUpPointer),
            InstallStep::BackUpPointer,
            InstallStep::Journal(TransactionPhase::PluginPublishingHelper),
            InstallStep::PublishHelper,
            InstallStep::Journal(TransactionPhase::PluginPublishingPointer),
            InstallStep::PublishPointer,
        ]
    }
}

/// The steps from the published plugin files to the settings of Pi.
pub open spec fn pi_steps(has_pi: bool) -> Seq<InstallStep> {
    let built = seq![
        InstallStep::Journal(TransactionPhase::PluginPublished),
        InstallStep::BuildRecord,
    ];
    if has_pi {
        built + seq![
            InstallStep::Journal(TransactionPhase::PiMutating),
            InstallStep::ConfigurePi,
            InstallStep::Journal(TransactionPhase::PiMutating),
            InstallStep::Journal(TransactionPhase::PiMutated),
        ]
    } else {
        built
    }
}

/// The steps from the rescue files to the committed record.
pub open spec fn record_steps() -> Seq<InstallStep> {
    seq![
        InstallStep::PrepareRescue,
        InstallStep::Journal(TransactionPhase::RescuePublishing),
        InstallStep::PublishRescue,
        InstallStep::Journal(TransactionPhase::RecordCommitting),
        InstallStep::Journal(TransactionPhase::RecordRenaming),
        InstallStep::WriteRecord,
        InstallStep::Journal(TransactionPhase::RecordCommitted),
    ]
}

/// The steps that clear up after the committed record.
pub open spec fn closing_steps(keeps_plugin: bool, has_prior: bool) -> Seq<InstallStep> {
    let backups = if keeps_plugin {
        Seq::empty()
    } else {
        seq![InstallStep::DropBackups]
    };
    let superseded = if has_prior {
        seq![InstallStep::RemoveSuperseded]
    } else {
        Seq::empty()
    };
    backups + superseded + seq![InstallStep::ClearJournal]
}

/// The steps of an installation, in order.
pub open spec fn install_steps(keeps_plugin: bool, has_pi: bool, has_prior: bool) -> Seq<InstallStep> {
    generation_steps() + plugin_steps(keeps_plugin) + pi_steps(has_pi) + record_steps()
        + closing_steps(keeps_plugin, has_prior)
}

/// What becomes of an installation whose step failed.
pub open spec fn on_failure(step: InstallStep) -> OnFailure {
    match step {
        InstallStep::Journal(TransactionPhase::Intent) => OnFailure::Return,
        InstallStep::InspectPlugin => OnFailure::Return,
        InstallStep::DropBackups => OnFailure::Warn,
        InstallStep::RemoveSuperseded => OnFailure::Return,
        InstallStep::ClearJournal => OnFailure::Return,
        _ => OnFailure::RollBack,
    }
}

fn plan_generation_steps() -> (r: Vec<InstallStep>)
    ensures
        r@ == generation_steps(),
{
    let mut steps: Vec<InstallStep> = Vec::new();
    steps.push(InstallStep::Journal(TransactionPhase::Intent));
    steps.push(InstallStep::Journal(TransactionPhase::GenerationPublishing));
    steps.push(InstallStep::PrepareGeneration);
    steps.push(InstallStep::Journal(TransactionPhase::GenerationPublished));
    steps.push(InstallStep::Journal(TransactionPhase::PluginPublishing));
    assert(steps@ =~= generation_steps());
    steps
}

fn plan_plugin_steps(keeps_plugin: bool) -> (r: Vec<InstallStep>)
    ensures
        r@ == plugin_steps(keeps_plugin),
{
    let mut steps: Vec<InstallStep> = Vec::new();
    if keeps_plugin {
        steps.push(InstallStep::InspectPlugin);
    } else {
        steps.push(InstallStep::StagePlugin);
        steps.push(InstallStep::Journal(TransactionPhase::PluginBackingUpHelper));
        steps.push(InstallStep::BackUpHelper);
        steps.push(InstallStep::Journal(TransactionPhase::PluginBackingUpPointer));
        steps.push(InstallStep::BackUpPointer);
        steps.push(InstallStep::Journal(TransactionPhase::PluginPublishingHelper));
        steps.push(InstallStep::PublishHelper);
        steps.push(InstallStep::Journal(TransactionPhase::PluginPublishingPointer));
        steps.push(InstallStep::PublishPointer);
    }
    assert(steps@ =~= plugin_steps(keeps_plugin));
    steps
}

fn plan_pi_steps(has_pi: bool) -> (r: Vec<InstallStep>)
    ensures
        r@ == pi_steps(has_pi),
{
    let mut steps: Vec<InstallStep> = Vec::new();
    steps.push(InstallStep::Journal(TransactionPhase::PluginPublished));
    steps.push(InstallStep::BuildRecord);
    if has_pi {
        steps.push(InstallStep::Journal(TransactionPhase::PiMutating));
        steps.push(InstallStep::ConfigurePi);
        steps.push(InstallStep::Journal(TransactionPhase::PiMutating));
        steps.push(InstallStep::Journal(TransactionPhase::PiMutated));
    }
    assert(steps@ =~= pi_steps(has_pi));
    steps
}

fn plan_record_steps() -> (r: Vec<InstallStep>)
    ensures
        r@ == record_steps(),
{
    let mut steps: Vec<InstallStep> = Vec::new();
    steps.push(InstallStep::PrepareRescue);
    steps.push(InstallStep::Journal(TransactionPhase::RescuePublishing));
    steps.push(InstallStep::PublishRescue);
    steps.push(InstallStep::Journal(TransactionPhase::RecordCommitting));
    steps.push(InstallStep::Journal(TransactionPhase::RecordRenaming));
    steps.push(InstallStep::WriteRecord);
    steps.push(InstallStep::Journal(TransactionPhase::RecordCommitted));
    assert(steps@ =~= record_steps());
    steps
}

fn plan_closing_steps(keeps_plugin: bool, has_prior: bool) -> (r: Vec<InstallStep>)
    ensures
        r@ == closing_steps(keeps_plugin, has_prior),
{
    let mut steps: Vec<InstallStep> = Vec::new();
    if !keeps_plugin {
        steps.push(InstallStep::DropBackups);
    }
    if has_prior {
        steps.push(InstallStep::RemoveSuperseded);
    }
    steps.push(InstallStep::ClearJournal);
    assert(steps@ =~= closing_steps(keeps_plugin, has_prior));
    steps
}

/// The steps of an installation, in order.
pub fn plan_install_steps(keeps_plugin: bool, has_pi: bool, has_prior: bool) -> (r: Vec<InstallStep>)
    ensures
        r@ == install_steps(keeps_plugin, has_pi, has_prior),
{
    let mut steps = plan_generation_steps();
    let mut plugin = plan_plugin_steps(keeps_plugin);
    steps.append(&mut plugin);
    let mut pi = plan_pi_steps(has_pi);
    steps.append(&mut pi);
    let mut record = plan_record_steps();
    steps.append(&mut record);
    let mut closing = plan_closing_steps(keeps_plugin, has_prior);
    steps.append(&mut closing);
    steps
}

/// Tells what becomes of an installation whose step failed.
pub fn install_failure(step: InstallStep) -> (r: OnFailure)
    ensures
        r == on_failure(step),
{
    match step {
        InstallStep::Journal(TransactionPhase::Intent) => OnFailure::Return,
        InstallStep::InspectPlugin => OnFailure::Return,
        InstallStep::DropBackups => OnFailure::Warn,
        InstallStep::RemoveSuperseded => OnFailure::Return,
        InstallStep::ClearJournal => OnFailure::Return,
        _ => OnFailure::RollBack,
    }
}

/// The place of a phase among the phases.
pub open spec fn phase_rank(phase: TransactionPhase) -> int {
    match phase {
        TransactionPhase::Intent => 0,
        TransactionPhase::GenerationPublishing => 1,
        TransactionPhase::GenerationPublished => 2,
        TransactionPhase::PluginPublishing => 3,
        TransactionPhase::PluginBackingUpHelper => 4,
        TransactionPhase::PluginBackingUpPointer => 5,
        TransactionPhase::PluginPublishingHelper => 6,
        TransactionPhase::PluginPublishingPointer => 7,
        TransactionPhase::PluginPublished => 8,
        TransactionPhase::PiMutating => 9,
        TransactionPhase::PiMutated => 10,
        TransactionPhase::RescuePublishing => 11,
        TransactionPhase::RecordCommitting => 12,
        TransactionPhase::RecordRenaming => 13,
        TransactionPhase::RecordCommitted => 14,
    }
}

/// The last phase that was journaled before a step.
pub open spec fn journaled(steps: Seq<InstallStep>, n: int) -> Option<TransactionPhase>
    decreases n,
{
    if n <= 0 || n > steps.len() {
        None
    } else {
        match steps[n - 1] {
            InstallStep::Journal(phase) => Some(phase),
            _ => journaled(steps, n - 1),
        }
    }
}

/// The phase that must be journaled when a step is taken, for the steps that
/// change what the recovery of that phase looks at.
pub open spec fn covering_phase(step: InstallStep) -> Option<TransactionPhase> {
    match step {
        InstallStep::PrepareGeneration => Some(TransactionPhase::GenerationPublishing),
        InstallStep::StagePlugin => Some(TransactionPhase::PluginPublishing),
        InstallStep::BackUpHelper => Some(TransactionPhase::PluginBackingUpHelper),
        InstallStep::BackUpPointer => Some(TransactionPhase::PluginBackingUpPointer),
        InstallStep::PublishHelper => Some(TransactionPhase::PluginPublishingHelper),
        InstallStep::PublishPointer => Some(TransactionPhase::PluginPublishingPointer),
        InstallStep::ConfigurePi => Some(TransactionPhase::PiMutating),
        InstallStep::PublishRescue => Some(TransactionPhase::RescuePublishing),
        InstallStep::WriteRecord => Some(TransactionPhase::RecordRenaming),
        InstallStep::DropBackups => Some(TransactionPhase::RecordCommitted),
        InstallStep::RemoveSuperseded => Some(TransactionPhase::RecordCommitted),
        _ => None,
    }
}

proof fn lemma_last_journal(steps: Seq<InstallStep>, n: int)
    requires
        0 <= n <= steps.len(),
    ensures
        n > 0 && steps[n - 1] is Journal ==> journaled(steps, n) == Some(
            steps[n - 1]->Journal_0,
        ),
        n > 1 && !(steps[n - 1] is Journal) && steps[n - 2] is Journal ==> journaled(steps, n)
            == Some(steps[n - 2]->Journal_0),
{
    reveal_with_fuel(journaled, 2);
}

/// Every change is journaled before it is made: whenever an installation takes a
/// step that changes something on disk, the journal is in the phase whose recovery
/// accounts for that change.
pub proof fn law_changes_are_journaled_first(
    keeps_plugin: bool,
    has_pi: bool,
    has_prior: bool,
    i: int,
)
    requires
        0 <= i < install_steps(keeps_plugin, has_pi, has_prior).len(),
        covering_phase(install_steps(keeps_plugin, has_pi, has_prior)[i]) is Some,
    ensures
        journaled(install_steps(keeps_plugin, has_pi, has_prior), i) == covering_phase(
            install_steps(keeps_plugin, has_pi, has_prior)[i],
        ),
{
    lemma_last_journal(install_steps(keeps_plugin, has_pi, has_prior), i);
}

/// The phases of a journal only go forward.
pub proof fn law_phases_go_forward(
    keeps_plugin: bool,
    has_pi: bool,
    has_prior: bool,
    i: int,
    j: int,
)
    requires
        0 <= i < j < install_steps(keeps_plugin, has_pi, has_prior).len(),
        install_steps(keeps_plugin, has_pi, has_prior)[i] is Journal,
        install_steps(keeps_plugin, has_pi, has_prior)[j] is Journal,
    ensures
        phase_rank(install_steps(keeps_plugin, has_pi, has_prior)[i]->Journal_0) <= phase_rank(
            install_steps(keeps_plugin, has_pi, has_prior)[j]->Journal_0,
        ),
{
}

/// Before the record is committed a failure of any step leads back to the state of
/// before, unless nothing was changed yet or the step only looks; afterwards no
/// failure does.
pub proof fn law_only_uncommitted_installs_roll_back(
    keeps_plugin: bool,
    has_pi: bool,
    has_prior: bool,
    i: int,
    j: int,
)
    requires
        0 <= i < install_steps(keeps_plugin, has_pi, has_prior).len(),
        0 <= j < install_steps(keeps_plugin, has_pi, has_prior).len(),
        install_steps(keeps_plugin, has_pi, has_prior)[j] == InstallStep::Journal(
            TransactionPhase::RecordCommitted,
        ),
    ensures
        i > j ==> on_failure(install_steps(keeps_plugin, has_pi, has_prior)[i])
            != OnFailure::RollBack,
        0 < i <= j && install_steps(keeps_plugin, has_pi, has_prior)[i]
            != InstallStep::InspectPlugin ==> on_failure(
            install_steps(keeps_plugin, has_pi, has_prior)[i],
        ) == OnFailure::RollBack,
{
}

/// A record for which Pi was configured: it is ready, with the entry that Pi stored.
pub fn configured_record(record: OwnershipRecord, entry: &Json) -> (r: OwnershipRecord)
    ensures
        r@ == (RecordView {
            state: InstallState::Ready,
            pi_package_entry: entry@,
            ..record@
        }),
{
    let ghost before = record@;
    let mut record = record;
    record.state = InstallState::Ready;
    record.pi_package_entry = entry.copy();
    assert(record@ == (RecordView {
        state: InstallState::Ready,
        pi_package_entry: entry@,
        ..before
    }));
    record
}

/// The error of an installation that was rolled back.
pub open spec fn rolled_back_with(original: Failure, rollback: Option<Failure>) -> Failure {
    match rollback {
        None => original,
        Some(f) => (
            "recovery_needed"@,
            failure_text(original) + "; rollback remains incomplete: "@ + failure_text(f),
        ),
    }
}

/// The error of an installation that failed and was put back, or was not.
pub fn rollback_transaction_error(original: ManagedError, rollback: &ManagedResult<()>) -> (r:
    ManagedError)
    ensures
        r@ == rolled_back_with(original@, failure(*rollback)),
{
    match rollback {
        Ok(_) => original,
        Err(e) => {
            let mut message = original.text();
            message.append("; rollback remains incomplete: ");
            message.append(e.text().as_str());
            ManagedError::with_message("recovery_needed", message)
        },
    }
}

/// Why an update cannot go on after the processes were stopped.
pub open spec fn unstopped(
    now: Option<RecordView>,
    prior: Option<RecordView>,
    registered: usize,
    starting: usize,
) -> Option<Failure> {
    if crate::record::same_opt_record(now, prior)
        && registered == 0 && starting == 0 {
        None
    } else {
        Some(
            (
                "owned_process_mismatch"@,
                "managed installation changed during coordinated update stop"@,
            ),
        )
    }
}

/// Checks that nothing changed while the processes of the generation of before
/// were being stopped.
pub fn check_update_stopped(
    now: &Option<OwnershipRecord>,
    prior: &Option<OwnershipRecord>,
    registered: usize,
    starting: usize,
) -> (r: ManagedResult<()>)
    ensures
        failure(r) == unstopped(opt_record(*now), opt_record(*prior), registered, starting),
{
    if !crate::record::opt_records_equal(now.as_ref(), prior.as_ref()) || registered != 0
        || starting != 0 {
        return fail(
            "owned_process_mismatch",
            "managed installation changed during coordinated update stop",
        );
    }
    Ok(())
}

/// Checks that the settings of Pi are still in the same file.
pub fn check_settings_path(now: &FsPath, before: &FsPath, message: &str) -> (r: ManagedResult<()>)
    ensures
        failure(r) == if same_path(now@, before@) {
            None
        } else {
            Some(("ownership_conflict"@, message@))
        },
{
    if !now.same(before) {
        return fail("ownership_conflict", message);
    }
    Ok(())
}

/// A record of the older schema with authority is rewritten in the current one.
pub open spec fn needs_migration(record: RecordView) -> bool {
    record.schema_version == 2 && record.purge_authority
}

/// Brings an authoritative record of the older schema up to date, and tells
/// whether it did.
pub fn migrate_accepted_v2_record(record: OwnershipRecord) -> (r: (OwnershipRecord, bool))
    ensures
        r.1 == needs_migration(record@),
        r.0@ == if r.1 {
            crate::record::migrated_v2(record@)
        } else {
            record@
        },
        r.1 ==> crate::record::exact_v2_to_v3(record@, r.0@),
{
    let mut record = record;
    if record.schema_version != 2 || !record.purge_authority {
        return (record, false);
    }
    record.schema_version = OWNERSHIP_SCHEMA;
    (record, true)
}

/// The value of the authority field as a record is stored: the older schema does
/// not have the field.
pub fn stored_authority(record: &OwnershipRecord) -> (r: Option<bool>)
    ensures
        r == if record.schema_version == 2 {
            None
        } else {
            Some(record.purge_authority)
        },
{
    if record.schema_version == 2 {
        None
    } else {
        Some(record.purge_authority)
    }
}

/// Why an installation cannot be repaired.
pub open spec fn unrepairable(state: InstallState) -> Option<Failure> {
    if state == InstallState::Removed {
        Some(("already_removed"@, "managed installation is removed"@))
    } else if removal_in_progress(state) {
        Some(
            ("removal_incomplete"@, "managed removal must be resumed before repair"@),
        )
    } else {
        None
    }
}

/// What stands in the way of a repair.
pub fn check_repairable(state: InstallState) -> (r: ManagedResult<()>)
    ensures
        failure(r) == unrepairable(state),
{
    if state == InstallState::Removed {
        return fail("already_removed", "managed installation is removed");
    }
    if crate::record::is_removal_in_progress(state) {
        return fail("removal_incomplete", "managed removal must be resumed before repair");
    }
    Ok(())
}

/// A record in another state, with another last error.
pub open spec fn in_state(record: RecordView, state: InstallState, error: Option<Seq<char>>) -> RecordView {
    RecordView { state, last_error: error, ..record }
}

/// A record that says that a repair failed.
pub fn failed_record(record: &OwnershipRecord, error: &ManagedError) -> (r: OwnershipRecord)
    ensures
        r@ == in_state(record@, InstallState::Failed, Some(failure_text(error@))),
{
    let mut failed = record.copy();
    failed.state = InstallState::Failed;
    failed.last_error = Some(error.text());
    assert(failed@ == in_state(record@, InstallState::Failed, Some(failure_text(error@))));
    failed
}

/// What a repair has to do about Pi.
#[derive(Clone, Copy, Debug, PartialEq, Eq, Structural)]
pub enum RepairPi {
    /// There is no Pi.
    Absent,
    /// Pi is to install the package.
    Install,
    /// The recorded entry is in place.
    Present,
}

/// A result whose value is plain, with its error as a failure.
pub open spec fn plain_outcome<T>(r: Result<T, ManagedError>) -> Result<T, Failure> {
    match r {
        Ok(v) => Ok(v),
        Err(e) => Err(e@),
    }
}

/// What a repair has to do about Pi, or the entry that is in the way.
pub open spec fn repair_pi(
    record: RecordView,
    settings: Option<(Seq<u8>, Seq<JsonView>)>,
) -> Result<RepairPi, Failure> {
    match settings {
        None => Ok(RepairPi::Absent),
        Some((path, entries)) => if crate::pi::entry_conflict(
            entries,
            path,
            record.pi_package_source,
            record.pi_package_entry,
        ) {
            Err(
                (
                    "ownership_conflict"@,
                    "Pi contains a same-source entry that differs from the exact recorded entry"@,
                ),
            )
        } else if matching(entries, path, record.pi_package_source).len() == 0 {
            Ok(RepairPi::Install)
        } else {
            Ok(RepairPi::Present)
        },
    }
}

/// Decides what a repair has to do about Pi.
pub fn plan_repair_pi(record: &OwnershipRecord, settings: Option<&PiSettings>) -> (r: ManagedResult<
    RepairPi,
>)
    ensures
        plain_outcome(r) == repair_pi(
            record@,
            match settings {
                Some(s) => Some((s.path@, json_views(s.entries@))),
                None => None,
            },
        ),
{
    let Some(settings) = settings else {
        return Ok(RepairPi::Absent);
    };
    let (conflict, present) = inspect_matching(
        settings,
        &record.pi_package_source,
        &record.pi_package_entry,
    );
    if conflict {
        return fail(
            "ownership_conflict",
            "Pi contains a same-source entry that differs from the exact recorded entry",
        );
    }
    if !present {
        Ok(RepairPi::Install)
    } else {
        Ok(RepairPi::Present)
    }
}

/// The record that a repair without Pi leaves, if it is another one.
pub fn repaired_without_pi(record: &OwnershipRecord) -> (r: Option<OwnershipRecord>)
    ensures
        r is None == (record.state == InstallState::PiAdapterPending && record.last_error is None),
        r is Some ==> r->0@ == in_state(record@, InstallState::PiAdapterPending, None),
{
    if record.state == InstallState::PiAdapterPending && record.last_error.is_none() {
        return None;
    }
    let mut repaired = record.copy();
    repaired.state = InstallState::PiAdapterPending;
    repaired.last_error = None;
    assert(repaired@ == in_state(record@, InstallState::PiAdapterPending, None));
    Some(repaired)
}

/// The record that a repair with Pi leaves.
pub open spec fn repaired_record(record: RecordView, entry: Option<JsonView>) -> RecordView {
    RecordView {
        pi_package_entry: match entry {
            Some(e) if !same_json(e, record.pi_package_entry) => e,
            _ => record.pi_package_entry,
        },
        ..in_state(record, InstallState::Ready, None)
    }
}

/// A repair with Pi leaves the record as it is.
pub open spec fn nothing_to_repair(record: RecordView, entry: Option<JsonView>) -> bool {
    (record.state == InstallState::Ready && record.last_error is None && (
    entry is None || opt_same_json(entry, record.pi_package_entry)))
}

/// The record that a repair with Pi leaves, if it is another one. The entry is the
/// one that Pi has stored, where it was just asked to.
pub fn repaired_with_pi(record: &OwnershipRecord, entry: &Option<Json>) -> (r: Option<
    OwnershipRecord,
>)
    ensures
        r is None == nothing_to_repair(record@, opt_json(*entry)),
        r is Some ==> r->0@ == repaired_record(record@, opt_json(*entry)),
{
    let changed = match entry {
        Some(e) => !e.same(&record.pi_package_entry),
        None => false,
    };
    if !changed && record.state == InstallState::Ready && record.last_error.is_none() {
        return None;
    }
    let mut repaired = record.copy();
    if changed {
        if let Some(e) = entry {
            repaired.pi_package_entry = e.copy();
        }
    }
    repaired.state = InstallState::Ready;
    repaired.last_error = None;
    assert(repaired@ == repaired_record(record@, opt_json(*entry)));
    Some(repaired)
}

/// A repair that succeeds leaves the recorded error cleared and a usable state.
pub proof fn law_repair_clears_the_error(record: RecordView, entry: Option<JsonView>)
    ensures
        repaired_record(record, entry).last_error is None,
        repaired_record(record, entry).state == InstallState::Ready,
        repaired_record(record, entry).owned_files == record.owned_files,
        repaired_record(record, entry).purge_authority == record.purge_authority,
{
}

/// How an entry of a record is moved along with the plugin root.
pub open spec fn moved_owned(
    f: OwnedFileView,
    old_root: Seq<u8>,
    new_root: Seq<u8>,
) -> Option<OwnedFileView> {
    if same_path(f.path, helper_path(old_root)) {
        Some(OwnedFileView { path: helper_path(new_root), ..f })
    } else if same_path(f.path, pointer_path(old_root)) {
        Some(OwnedFileView { path: pointer_path(new_root), ..f })
    } else if path_under(f.path, old_root) {
        None
    } else {
        Some(f)
    }
}

/// An entry is the helper or the pointer of a plugin root.
pub open spec fn is_plugin_asset(f: OwnedFileView, root: Seq<u8>) -> bool {
    same_path(f.path, helper_path(root)) || same_path(f.path, pointer_path(root))
}

/// How many of some entries are the helper or the pointer of a plugin root.
pub open spec fn plugin_assets(files: Seq<OwnedFileView>, root: Seq<u8>) -> nat {
    files.filter(|f: OwnedFileView| is_plugin_asset(f, root)).len()
}

/// The entries moved along with the plugin root.
pub open spec fn moved_files(files: Seq<OwnedFileView>, old_root: Seq<u8>, new_root: Seq<u8>) -> Seq<
    OwnedFileView,
> {
    files.map_values(|f: OwnedFileView| moved_owned(f, old_root, new_root)->0)
}

/// Some entry cannot be moved along with the plugin root.
pub open spec fn unmovable(files: Seq<OwnedFileView>, old_root: Seq<u8>, new_root: Seq<u8>) -> bool {
    exists|i: int|
        0 <= i < files.len() && moved_owned(#[trigger] files[i], old_root, new_root) is None
}

/// The record after its plugin root was found elsewhere, or why it does not move.
pub open spec fn relocated_record(
    record: RecordView,
    current_root: Seq<u8>,
    old_root_check: Option<Failure>,
) -> Result<RecordView, Failure> {
    if same_path(current_root, record.plugin_root) {
        Ok(record)
    } else if record.install_kind != "managed"@ {
        Err(
            (
                "ownership_conflict"@,
                "a linked development plugin root cannot be relocated"@,
            ),
        )
    } else {
        match old_root_check {
            Some(f) => Err(f),
            None => if unmovable(record.owned_files, record.plugin_root, current_root) {
                Err(
                    (
                        "ownership_record_invalid"@,
                        "the recorded plugin root contains an unexpected owned path"@,
                    ),
                )
            } else if plugin_assets(record.owned_files, record.plugin_root) != 2 {
                Err(
                    (
                        "ownership_record_invalid"@,
                        "the recorded plugin root does not own exactly one helper and pointer"@,
                    ),
                )
            } else {
                Ok(
                    RecordView {
                        plugin_root: current_root,
                        owned_files: moved_files(
                            record.owned_files,
                            record.plugin_root,
                            current_root,
                        ),
                        ..record
                    },
                )
            },
        }
    }
}

/// Why a plugin root that was recorded is in the way of moving the record.
pub open spec fn old_root_failure(present: bool, error: Option<Seq<char>>) -> Option<Failure> {
    match error {
        Some(e) => Some(
            (
                "ownership_conflict"@,
                "cannot inspect the recorded plugin root during relocation"@ + ": "@ + e,
            ),
        ),
        None => if present {
            Some(
                (
                    "ownership_conflict"@,
                    "the recorded plugin root still exists during relocation"@,
                ),
            )
        } else {
            None
        },
    }
}

/// The check of the plugin root of a record that is to be moved: it must be gone.
pub fn check_old_root_absent(present: bool, error: Option<&str>) -> (r: ManagedResult<()>)
    ensures
        failure(r) == old_root_failure(present, opt_str(error)),
{
    match error {
        Some(e) => Err(
            ManagedError::io(
                "ownership_conflict",
                "cannot inspect the recorded plugin root during relocation",
                e,
            ),
        ),
        None => {
            if present {
                return fail(
                    "ownership_conflict",
                    "the recorded plugin root still exists during relocation",
                );
            }
            Ok(())
        },
    }
}

/// Moves a record to the place where its plugin root was found.
pub fn reconcile_relocated_managed_plugin_root(
    record: &OwnershipRecord,
    current_root: &FsPath,
    old_root_check: &ManagedResult<()>,
) -> (r: ManagedResult<OwnershipRecord>)
    ensures
        outcome(r) == relocated_record(record@, current_root@, failure(*old_root_check)),
{
    if current_root.same(&record.plugin_root) {
        return Ok(record.copy());
    }
    if !text_eq(record.install_kind.as_str(), "managed") {
        return fail(
            "ownership_conflict",
            "a linked development plugin root cannot be relocated",
        );
    }
    match old_root_check {
        Ok(_) => {},
        Err(e) => {
            return Err(e.copy());
        },
    }
    let ghost views = record@.owned_files;
    let ghost old_root = record.plugin_root@;
    let ghost asset = |f: OwnedFileView| is_plugin_asset(f, old_root);
    let old_helper = record.plugin_root.join("libexec/herdr-a2a-dispatch");
    let old_pointer = record.plugin_root.join("stable-bin-path");
    let mut files: Vec<OwnedFile> = Vec::new();
    let mut count: usize = 0;
    let mut i: usize = 0;
    proof {
        reveal(Seq::filter);
        assert(views.take(0).filter(asset).len() == 0);
    }
    while i < record.owned_files.len()
        invariant
            i <= record.owned_files.len(),
            count <= i,
            views == record@.owned_files,
            old_root == record.plugin_root@,
            !same_path(current_root@, record.plugin_root@),
            record.install_kind@ == "managed"@,
            failure(*old_root_check) is None,
            asset == (|f: OwnedFileView| is_plugin_asset(f, old_root)),
            old_helper@ == helper_path(old_root),
            old_pointer@ == pointer_path(old_root),
            files@.len() == i,
            count == views.take(i as int).filter(asset).len(),
            forall|k: int|
                0 <= k < i ==> Some((#[trigger] files@[k])@) == moved_owned(
                    views[k],
                    old_root,
                    current_root@,
                ),
        decreases record.owned_files.len() - i,
    {
        let owned = &record.owned_files[i];
        proof {
            assert(views[i as int] == owned@);
            crate::pi::lemma_filter_next(views, asset, i as int);
        }
        if owned.path.same(&old_helper) {
            files.push(
                OwnedFile {
                    path: current_root.join("libexec/herdr-a2a-dispatch"),
                    sha256: owned.sha256.clone(),
                    mode: owned.mode,
                },
            );
            count += 1;
        } else if owned.path.same(&old_pointer) {
            files.push(
                OwnedFile {
                    path: current_root.join("stable-bin-path"),
                    sha256: owned.sha256.clone(),
                    mode: owned.mode,
                },
            );
            count += 1;
        } else if owned.path.starts_with(&record.plugin_root) {
            assert(moved_owned(views[i as int], old_root, current_root@) is None);
            assert(unmovable(views, old_root, current_root@));
            return fail(
                "ownership_record_invalid",
                "the recorded plugin root contains an unexpected owned path",
            );
        } else {
            files.push(owned.copy());
        }
        i += 1;
    }
    assert(views.take(i as int) =~= views);
    assert(views.len() == record.owned_files@.len());
    assert(!unmovable(views, old_root, current_root@)) by {
        assert forall|k: int| 0 <= k < views.len() implies moved_owned(
            #[trigger] views[k],
            old_root,
            current_root@,
        ) is Some by {
            assert(Some(files@[k]@) == moved_owned(views[k], old_root, current_root@));
        }
    }
    if count != 2 {
        return fail(
            "ownership_record_invalid",
            "the recorded plugin root does not own exactly one helper and pointer",
        );
    }
    let mut relocated = record.copy();
    assert(owned_views(files@) =~= moved_files(views, old_root, current_root@)) by {
        assert forall|k: int| 0 <= k < views.len() implies owned_views(files@)[k] == moved_files(
            views,
            old_root,
            current_root@,
        )[k] by {
            assert(Some(files@[k]@) == moved_owned(views[k], old_root, current_root@));
        }
    }
    relocated.owned_files = files;
    relocated.plugin_root = current_root.copy();
    assert(relocated@ == relocated_record(record@, current_root@, None)->Ok_0);
    Ok(relocated)
}

/// The recorded helper and pointer, which a replacement may have been interrupted
/// at.
pub fn swapped_files<'a>(record: &'a OwnershipRecord) -> (r: ManagedResult<
    (&'a OwnedFile, &'a OwnedFile),
>)
    ensures
        failure(r) == if owned_for(
            record@.owned_files,
            helper_path(record.plugin_root@),
        ) is None {
            Some(("ownership_record_invalid"@, "ownership record has no native helper"@))
        } else if owned_for(record@.owned_files, pointer_path(record.plugin_root@)) is None {
            Some(("ownership_record_invalid"@, "ownership record has no stable pointer"@))
        } else {
            None
        },
        r is Ok ==> owned_for(record@.owned_files, helper_path(record.plugin_root@)) == Some(
            (r->Ok_0.0)@,
        ) && owned_for(record@.owned_files, pointer_path(record.plugin_root@)) == Some(
            (r->Ok_0.1)@,
        ),
{
    let helper = record.plugin_root.join("libexec/herdr-a2a-dispatch");
    let pointer = record.plugin_root.join("stable-bin-path");
    let Some(helper_owned) = record_owned_file(record, &helper) else {
        return fail("ownership_record_invalid", "ownership record has no native helper");
    };
    let Some(pointer_owned) = record_owned_file(record, &pointer) else {
        return fail("ownership_record_invalid", "ownership record has no stable pointer");
    };
    Ok((helper_owned, pointer_owned))
}

/// A name in the directory of the backups, and whether it holds the recorded file.
#[derive(Debug)]
pub struct BackupEntry {
    pub name: Vec<u8>,
    pub is_recorded: bool,
}

/// What is done about one file whose replacement was interrupted.
#[derive(Clone, Copy, Debug, PartialEq, Eq, Structural)]
pub enum InterruptedFile {
    /// It is in place and there is no backup.
    Intact,
    /// It is in place: this backup goes.
    DropBackup(usize),
    /// This backup takes its place.
    RestoreBackup(usize),
}

/// An entry is a backup by its name.
pub open spec fn is_backup(e: BackupEntry, prefix: Seq<char>) -> bool {
    utf8(prefix).is_prefix_of(e.name@)
}

/// The places of the backups among some entries are a single one.
pub open spec fn only_backup(entries: Seq<BackupEntry>, prefix: Seq<char>, i: int) -> bool {
    0 <= i < entries.len() && is_backup(entries[i], prefix) && forall|k: int|
        0 <= k < entries.len() && is_backup(#[trigger] entries[k], prefix) ==> k == i
}

/// The backups among some entries can be told: there is at most one, and it holds
/// the recorded file.
pub open spec fn backups_clear(entries: Seq<BackupEntry>, prefix: Seq<char>) -> bool {
    &&& forall|i: int|
        0 <= i < entries.len() && is_backup(#[trigger] entries[i], prefix)
            ==> entries[i].is_recorded
    &&& forall|i: int, k: int|
        0 <= i < entries.len() && 0 <= k < entries.len() && is_backup(
            #[trigger] entries[i],
            prefix,
        ) && is_backup(#[trigger] entries[k], prefix) ==> i == k
}

/// There is no backup among some entries.
pub open spec fn no_backup(entries: Seq<BackupEntry>, prefix: Seq<char>) -> bool {
    forall|i: int| 0 <= i < entries.len() ==> !is_backup(#[trigger] entries[i], prefix)
}

/// Why a file whose replacement was interrupted is left as it is.
pub open spec fn unreconciled(entries: Seq<BackupEntry>, prefix: Seq<char>, in_place: bool) -> Option<Failure> {
    if !backups_clear(entries, prefix) {
        Some(("ownership_conflict"@, "an interrupted managed backup is ambiguous"@))
    } else if !in_place && no_backup(entries, prefix) {
        Some(
            (
                "owned_asset_modified"@,
                "an owned file changed without a recoverable backup"@,
            ),
        )
    } else {
        None
    }
}

/// What is done about a file whose replacement was interrupted fits what was found.
pub open spec fn reconciles(
    entries: Seq<BackupEntry>,
    prefix: Seq<char>,
    in_place: bool,
    plan: InterruptedFile,
) -> bool {
    match plan {
        InterruptedFile::Intact => in_place && no_backup(entries, prefix),
        InterruptedFile::DropBackup(i) => in_place && only_backup(
            entries,
            prefix,
            i as int,
        ),
        InterruptedFile::RestoreBackup(i) => !in_place && only_backup(
            entries,
            prefix,
            i as int,
        ),
    }
}

/// Decides what is done about one file whose replacement was interrupted.
pub fn reconcile_interrupted_file(
    entries: &Vec<BackupEntry>,
    prefix: &str,
    in_place: bool,
) -> (r: ManagedResult<InterruptedFile>)
    ensures
        failure(r) == unreconciled(entries@, prefix@, in_place),
        r is Ok ==> reconciles(entries@, prefix@, in_place, r->Ok_0),
{
    let mut found: Option<usize> = None;
    let mut i: usize = 0;
    while i < entries.len()
        invariant
            i <= entries.len(),
            match found {
                None => forall|k: int|
                    0 <= k < i ==> !is_backup(#[trigger] entries@[k], prefix@),
                Some(j) => j < i && is_backup(entries@[j as int], prefix@)
                    && entries@[j as int].is_recorded && forall|k: int|
                    0 <= k < i && is_backup(#[trigger] entries@[k], prefix@) ==> k == j,
            },
        decreases entries.len() - i,
    {
        if name_starts(entries[i].name.as_slice(), prefix) {
            assert(is_backup(entries@[i as int], prefix@));
            if !entries[i].is_recorded || found.is_some() {
                return fail("ownership_conflict", "an interrupted managed backup is ambiguous");
            }
            found = Some(i);
        }
        i += 1;
    }
    if in_place {
        return match found {
            None => Ok(InterruptedFile::Intact),
            Some(j) => Ok(InterruptedFile::DropBackup(j)),
        };
    }
    match found {
        None => fail(
            "owned_asset_modified",
            "an owned file changed without a recoverable backup",
        ),
        Some(j) => Ok(InterruptedFile::RestoreBackup(j)),
    }
}

/// Checks that a restored file is the recorded one.
pub fn check_restored_backup(is_recorded: bool) -> (r: ManagedResult<()>)
    ensures
        failure(r) == if is_recorded {
            None
        } else {
            Some(
                (
                    "rollback_failed"@,
                    "a restored managed asset does not match its ownership record"@,
                ),
            )
        },
{
    if !is_recorded {
        return fail(
            "rollback_failed",
            "a restored managed asset does not match its ownership record",
        );
    }
    Ok(())
}

/// What is wrong with a generation that is already in place.
pub open spec fn generation_conflict(
    binary: Result<Seq<char>, Failure>,
    package: Result<Seq<char>, Failure>,
    broker_digest: Seq<char>,
    package_digest: Seq<char>,
) -> Option<Failure> {
    match binary {
        Err(f) => Some(f),
        Ok(found) => if found != broker_digest {
            Some(
                (
                    "ownership_conflict"@,
                    "an unrecognized generation occupies the managed digest path"@,
                ),
            )
        } else {
            match package {
                Err(f) => Some(f),
                Ok(found) => if found != package_digest {
                    Some(
                        (
                            "ownership_conflict"@,
                            "an unrecognized generation occupies the managed digest path"@,
                        ),
                    )
                } else {
                    None
                },
            }
        },
    }
}

/// Checks that what already stands at the place of a generation is that
/// generation.
pub fn check_existing_generation(
    binary: &ManagedResult<String>,
    package: &ManagedResult<String>,
    broker_digest: &str,
    package_digest: &str,
) -> (r: ManagedResult<()>)
    ensures
        failure(r) == generation_conflict(text_outcome(*binary), text_outcome(*package), broker_digest@, package_digest@),
{
    match binary {
        Err(e) => Err(e.copy()),
        Ok(found) => {
            if !text_eq(found.as_str(), broker_digest) {
                return fail(
                    "ownership_conflict",
                    "an unrecognized generation occupies the managed digest path",
                );
            }
            match package {
                Err(e) => Err(e.copy()),
                Ok(found) => {
                    if !text_eq(found.as_str(), package_digest) {
                        return fail(
                            "ownership_conflict",
                            "an unrecognized generation occupies the managed digest path",
                        );
                    }
                    Ok(())
                },
            }
        },
    }
}

/// Checks that the package that was copied is the one that was looked at.
pub fn check_copied_package(copied: &str, package_digest: &str) -> (r: ManagedResult<()>)
    ensures
        failure(r) == if copied@ == package_digest@ {
            None
        } else {
            Some(
                ("bundle_invalid"@, "bundle package changed between validation and copy"@),
            )
        },
{
    if !text_eq(copied, package_digest) {
        return fail("bundle_invalid", "bundle package changed between validation and copy");
    }
    Ok(())
}

/// The content of a pointer to a binary: its path on a line of its own.
pub fn pointer_content(binary: &FsPath) -> (r: ManagedResult<Vec<u8>>)
    ensures
        failure(r) == path_text_failure(binary@),
        r is Ok ==> r->Ok_0@ == binary@.push(10) && sha256_text(r->Ok_0@) == pointer_digest(
            binary@,
        ),
{
    match path_text(binary) {
        Ok(_) => {},
        Err(e) => {
            return Err(e);
        },
    }
    let mut line = binary.bytes.clone();
    line.push(10);
    assert(line@ =~= binary@.push(10));
    Ok(line)
}

/// What a status report says.
#[derive(Debug)]
pub enum StatusReport {
    NotInstalled,
    Failed(String),
    Installed(InstallState),
}

/// A status report fits the record and its check.
pub open spec fn report_fits(record: Option<OwnershipRecord>, check: ManagedResult<()>, report: StatusReport) -> bool {
    match report {
        StatusReport::NotInstalled => record is None,
        StatusReport::Failed(text) => record is Some && check is Err && text@ == failure_text(
            check->Err_0@,
        ),
        StatusReport::Installed(state) => record is Some && check is Ok && state
            == record->0.state,
    }
}

/// What a status report says of a record and its checks, or why there is none.
pub fn status_report(record: &Option<OwnershipRecord>, check: &ManagedResult<()>) -> (r:
    ManagedResult<StatusReport>)
    ensures
        failure(r) == match opt_record(*record) {
            Some(v) if v.state == InstallState::Removed => Some(
                ("already_removed"@, "managed installation is removed"@),
            ),
            _ => None,
        },
        r is Ok ==> report_fits(*record, *check, r->Ok_0),
{
    match record {
        None => Ok(StatusReport::NotInstalled),
        Some(record) => {
            if record.state == InstallState::Removed {
                return fail("already_removed", "managed installation is removed");
            }
            match check {
                Ok(_) => Ok(StatusReport::Installed(record.state)),
                Err(e) => Ok(StatusReport::Failed(e.text())),
            }
        },
    }
}

/// The last error that a status report in JSON names, where it is no record.
pub open spec fn status_error(report: StatusReport) -> Option<Seq<char>> {
    match report {
        StatusReport::NotInstalled => Some("not_installed"@),
        StatusReport::Failed(text) => Some(text@),
        StatusReport::Installed(_) => None,
    }
}

/// A status report in JSON, where it is no record: the schema, the failed state
/// and the last error.
pub fn status_json(report: &StatusReport) -> (r: Option<Json>)
    ensures
        opt_json(r) == match status_error(*report) {
            None => None,
            Some(error) => Some(
                JsonView::Object(
                    seq![
                        ("last_error"@, JsonView::Text(error)),
                        ("schema_version"@, JsonView::UInt(3)),
                        ("state"@, JsonView::Text("Failed"@)),
                    ],
                ),
            ),
        },
{
    let error = match report {
        StatusReport::NotInstalled => "not_installed".to_owned(),
        StatusReport::Failed(text) => text.clone(),
        StatusReport::Installed(_) => {
            return None;
        },
    };
    let ghost named = error@;
    let mut fields: Vec<(String, Json)> = Vec::new();
    fields.push(("last_error".to_owned(), Json::Text(error)));
    fields.push(("schema_version".to_owned(), Json::UInt(3)));
    fields.push(("state".to_owned(), Json::Text("Failed".to_owned())));
    let out = Json::Object(fields);
    reveal_with_fuel(Json::view, 2);
    assert(out@->Object_0 =~= seq![
        ("last_error"@, JsonView::Text(named)),
        ("schema_version"@, JsonView::UInt(3)),
        ("state"@, JsonView::Text("Failed"@)),
    ]);
    Some(out)
}

/// A status report as one line.
pub fn status_line(report: &StatusReport) -> (r: String)
    ensures
        r@ == match report {
            StatusReport::NotInstalled => "failed: not installed"@,
            StatusReport::Failed(text) => "failed: "@ + text@,
            StatusReport::Installed(state) => crate::record::spec_state_text(*state),
        },
{
    match report {
        StatusReport::NotInstalled => "failed: not installed".to_owned(),
        StatusReport::Failed(text) => text_join("failed: ", text.as_str()),
        StatusReport::Installed(state) => crate::record::state_text(*state).to_owned(),
    }
}

/// Why a record that was written does not stand: a removal may miss its files, an
/// installation may not.
pub open spec fn unwritten(
    state: InstallState,
    allow_missing_assets: bool,
    semantics: Option<Failure>,
    live: Option<Failure>,
) -> Option<Failure> {
    if removal_in_progress(state) || state
        == InstallState::Removed || allow_missing_assets {
        recoded(semantics, "ownership_commit_failed"@)
    } else {
        live
    }
}

/// What a record that was just written is held to: one of a removal, or one whose
/// files may be missing, only to what it says, any other to what is on disk too.
pub fn check_written_record(
    record: &OwnershipRecord,
    allow_missing_assets: bool,
    semantics: &ManagedResult<()>,
    live: &ManagedResult<()>,
) -> (r: ManagedResult<()>)
    ensures
        failure(r) == unwritten(record.state, allow_missing_assets, failure(*semantics), failure(*live)),
{
    if crate::record::is_removal_in_progress(record.state) || record.state == InstallState::Removed
        || allow_missing_assets {
        match semantics {
            Ok(_) => Ok(()),
            Err(e) => Err(e.copy().recode("ownership_commit_failed")),
        }
    } else {
        match live {
            Ok(_) => Ok(()),
            Err(e) => Err(e.copy()),
        }
    }
}

/// A record of before lets an installation through just when it is of the same plugin
/// root and no removal has begun, or the removal is over.
pub proof fn law_only_settled_installs_are_installed_over(record: RecordView, plugin_root: Seq<u8>)
    ensures
        prior_failure(record, plugin_root) is None <==> (parts(record.plugin_root) == parts(
            plugin_root,
        ) && (record.state is Ready || record.state is PiAdapterPending || record.state is Failed
            || record.state is Removed)),
        live_record(Some(record)) == (if record.state is Removed {
            None
        } else {
            Some(record)
        }),
        live_record(None) is None,
{
}

/// The files of a generation are its binary and those of the package below `pi`, each
/// once for each time it was named.
pub proof fn law_a_generation_has_its_binary_and_its_package(
    directory: Seq<u8>,
    relative: Seq<Seq<u8>>,
    p: Seq<u8>,
)
    ensures
        generation_files(directory, relative).len() == relative.len() + 1,
        generation_files(directory, relative).contains(p) <==> (p == child(
            directory,
            "bin/herdr-a2a"@,
        ) || exists|i: int|
            0 <= i < relative.len() && p == join(child(directory, "pi"@), #[trigger] relative[i])),
{
    let package = relative.map_values(|p: Seq<u8>| join(child(directory, "pi"@), p));
    let all = seq![child(directory, "bin/herdr-a2a"@)] + package;
    lemma_sorting_keeps_items(SortOrder::ByPath, all, itself());
    lemma_sorting_keeps_members(SortOrder::ByPath, all, itself());
    assert(generation_files(directory, relative).contains(p) == all.contains(p));
    if all.contains(p) {
        let k = choose|k: int| 0 <= k < all.len() && all[k] == p;
        if k > 0 {
            assert(relative[k - 1] == relative[k - 1] && p == join(
                child(directory, "pi"@),
                relative[k - 1],
            ));
        }
    }
    if p == child(directory, "bin/herdr-a2a"@) {
        assert(all[0] == p);
    }
    if exists|i: int|
        0 <= i < relative.len() && p == join(child(directory, "pi"@), #[trigger] relative[i]) {
        let i = choose|i: int|
            0 <= i < relative.len() && p == join(child(directory, "pi"@), #[trigger] relative[i]);
        assert(all[i + 1] == p);
    }
}

/// A first installation takes the authority over the state directory that was found; a
/// later one keeps what its record says, and looks at no directory without authority.
pub proof fn law_a_first_install_takes_the_state_directory(
    prior: Option<RecordView>,
    root: Seq<u8>,
    f: Failure,
)
    ensures
        new_authority(None, Ok(root)) == Ok::<(bool, Seq<u8>), Failure>((true, root)),
        new_authority(None, Err(f)) == Err::<(bool, Seq<u8>), Failure>(f),
        prior is Some && !prior->0.purge_authority ==> new_authority(prior, Err(f)) == Ok::<
            (bool, Seq<u8>),
            Failure,
        >((false, Seq::empty())),
        prior is Some && prior->0.purge_authority ==> new_authority(prior, Err(f)) == Err::<
            (bool, Seq<u8>),
            Failure,
        >(f) && new_authority(prior, Ok(root)) == Ok::<(bool, Seq<u8>), Failure>(
            (true, prior->0.plugin_state_root),
        ),
{
}

/// The record of an installation tells what was installed: the binary and the package
/// with their digests, the settings and the entry that leads to the package from them,
/// and every file that is owned, each as often as it was handed in. It stands in the
/// stable directory, has no error, and no digest of a marker yet.
pub proof fn law_the_record_tells_what_was_installed(
    stable: Seq<u8>,
    plugin_root: Seq<u8>,
    prior: Option<RecordView>,
    inputs: RecordInputsView,
)
    requires
        built_record(stable, plugin_root, prior, inputs) is Ok,
    ensures
        ({
            let record = built_record(stable, plugin_root, prior, inputs)->Ok_0;
            &&& record.schema_version == 3
            &&& record.state == inputs.state
            &&& record.install_kind == inputs.install_kind
            &&& record.plugin_root == plugin_root
            &&& record.stable_binary == inputs.binary
            &&& record.pi_package_source == inputs.package
            &&& record.broker_digest == inputs.broker_digest
            &&& record.pi_package_digest == inputs.pi_package_digest
            &&& inputs.plugin_version == Ok::<Seq<char>, Failure>(record.plugin_version)
            &&& inputs.pi_settings == Ok::<Seq<u8>, Failure>(record.pi_config_path)
            &&& relative_entry(record.pi_config_path, record.pi_package_source) == Ok::<
                JsonView,
                Failure,
            >(record.pi_package_entry)
            &&& inputs.owned is Ok
            &&& record.owned_files.to_multiset() == inputs.owned->Ok_0.to_multiset()
            &&& record.ownership_path == child(stable, "ownership.json"@)
            &&& record.rescue_path == child(stable, "rescue/uninstall.sh"@)
            &&& record.last_error is None
            &&& record.rescue_marker_digest.len() == 0
        }),
{
    lemma_sorting_keeps_items(SortOrder::ByPath, inputs.owned->Ok_0, owned_key());
}

/// A record with its rescue files owns the notice with the digest of its bytes, the
/// marker with the digest that the record names, and every other file as before.
pub proof fn law_rescue_files_are_owned(
    record: RecordView,
    stable: Seq<u8>,
    notice: Seq<u8>,
    marker: Seq<char>,
    f: OwnedFileView,
)
    requires
        !same_path(rescue_notice(stable), rescue_marker_file(stable)),
    ensures
        ({
            let after = marked(noticed(record, stable, notice), stable, marker);
            &&& after.rescue_marker_digest == sha256_text(utf8(marker))
            &&& after.rescue_path == rescue_notice(stable)
            &&& after.owned_files.contains(f) <==> {
                ||| f.path == rescue_notice(stable) && f.sha256 == sha256_text(notice) && f.mode
                    == 0o600
                ||| f.path == rescue_marker_file(stable) && f.sha256 == sha256_text(utf8(marker))
                    && f.mode == 0o600
                ||| record.owned_files.contains(f) && parts(f.path) != parts(rescue_notice(stable))
                    && parts(f.path) != parts(rescue_marker_file(stable))
            }
            &&& (RecordView {
                rescue_path: record.rescue_path,
                rescue_marker_digest: record.rescue_marker_digest,
                owned_files: record.owned_files,
                ..after
            }) == record
        }),
{
    let before = noticed(record, stable, notice);
    let after = marked(before, stable, marker);
    let n = OwnedFileView {
        path: rescue_notice(stable),
        sha256: sha256_text(notice),
        mode: 0o600,
    };
    let m = OwnedFileView {
        path: rescue_marker_file(stable),
        sha256: sha256_text(utf8(marker)),
        mode: 0o600,
    };
    let one = other_than(record.owned_files, rescue_notice(stable));
    let kept = other_than(one, rescue_marker_file(stable));
    lemma_filter_has(
        record.owned_files,
        |f: OwnedFileView| !same_path(f.path, rescue_notice(stable)),
        f,
    );
    lemma_filter_has(one, |f: OwnedFileView| !same_path(f.path, rescue_marker_file(stable)), f);
    lemma_sorting_keeps_members(SortOrder::ByPath, kept.push(n), owned_key());
    lemma_sorting_keeps_members(SortOrder::ByPath, before.owned_files.push(m), owned_key());
    lemma_push_has(kept, n, f);
    lemma_push_has(before.owned_files, m, f);
    assert(before.owned_files.contains(f) == kept.push(n).contains(f));
    assert(after.owned_files.contains(f) == before.owned_files.push(m).contains(f));
}

/// A journal that has just begun tells what was there before and what is planned, and
/// nothing of what is made later; each of its stages and backups lies beside what it
/// stands in for and carries the token.
pub proof fn law_a_begun_journal_tells_the_plan(
    t: InstallTransaction,
    stable: Seq<u8>,
    plugin_root: Seq<u8>,
    token: Seq<char>,
    inputs: JournalInputs,
)
    requires
        begun(t, stable, plugin_root, token, inputs),
    ensures
        t.phase is Intent,
        t.new_record is None && t.generation_stage_snapshot is None && t.plugin_stage_snapshot
            is None && t.new_helper_snapshot is None && t.new_pointer_snapshot is None,
        t.prior_rescue_notice is None && t.prior_rescue_marker is None,
        t.prior_record == inputs.prior,
        t.prior_helper_present <==> t.prior_helper_snapshot is Some,
        t.prior_pointer_present <==> t.prior_pointer_snapshot is Some,
        t.prior_helper_snapshot == inputs.prior_helper_snapshot,
        t.prior_pointer_snapshot == inputs.prior_pointer_snapshot,
        t.prior_generation_snapshot == inputs.prior_generation_snapshot,
        t.prior_pi_entries == inputs.pi_settings.entries,
        t.prior_owned_pi_entry == inputs.prior_owned_pi_entry,
        t.pi_config_path@ == inputs.pi_settings.path@,
        t.generation@ == inputs.generation@,
        t.generation_files == inputs.generation_files,
        t.generation_created == inputs.generation_created,
        t.broker_digest@ == inputs.broker_digest@,
        t.pi_package_digest@ == inputs.pi_package_digest@,
        t.generation_stage@ == child(child(stable, "generations"@), ".stage-"@ + token),
        t.plugin_stage@ == child(plugin_root, ".managed-stage-"@ + token),
        t.helper_backup@ == child(child(plugin_root, "libexec"@), ".herdr-a2a-backup-"@ + token),
        t.pointer_backup@ == child(plugin_root, ".stable-bin-backup-"@ + token),
        t.helper@ == helper_path(plugin_root),
        t.pointer@ == pointer_path(plugin_root),
{
}

/// An installation takes a step just when there is something to do for it: Pi is
/// configured where there is one, what is superseded goes where there was an
/// installation before, and the plugin files are replaced, with backups, unless they
/// are kept. It starts with its journal and ends with clearing it.
pub proof fn law_installs_take_the_steps_they_need(
    keeps_plugin: bool,
    has_pi: bool,
    has_prior: bool,
)
    ensures
        ({
            let steps = install_steps(keeps_plugin, has_pi, has_prior);
            &&& steps[0] == InstallStep::Journal(TransactionPhase::Intent)
            &&& steps.last() == InstallStep::ClearJournal
            &&& steps.contains(InstallStep::PrepareGeneration)
            &&& steps.contains(InstallStep::BuildRecord)
            &&& steps.contains(InstallStep::PrepareRescue)
            &&& steps.contains(InstallStep::PublishRescue)
            &&& steps.contains(InstallStep::WriteRecord)
            &&& steps.contains(InstallStep::Journal(TransactionPhase::RecordCommitted))
            &&& steps.contains(InstallStep::ConfigurePi) <==> has_pi
            &&& steps.contains(InstallStep::RemoveSuperseded) <==> has_prior
            &&& steps.contains(InstallStep::InspectPlugin) <==> keeps_plugin
            &&& steps.contains(InstallStep::StagePlugin) <==> !keeps_plugin
            &&& steps.contains(InstallStep::BackUpHelper) <==> !keeps_plugin
            &&& steps.contains(InstallStep::BackUpPointer) <==> !keeps_plugin
            &&& steps.contains(InstallStep::PublishHelper) <==> !keeps_plugin
            &&& steps.contains(InstallStep::PublishPointer) <==> !keeps_plugin
            &&& steps.contains(InstallStep::DropBackups) <==> !keeps_plugin
        }),
{
    let steps = install_steps(keeps_plugin, has_pi, has_prior);
    let p: int = if keeps_plugin {
        6
    } else {
        14
    };
    let q: int = if has_pi {
        p + 6
    } else {
        p + 2
    };
    assert(steps[2] == InstallStep::PrepareGeneration);
    assert(steps[p + 1] == InstallStep::BuildRecord);
    assert(steps[q] == InstallStep::PrepareRescue);
    assert(steps[q + 2] == InstallStep::PublishRescue);
    assert(steps[q + 5] == InstallStep::WriteRecord);
    assert(steps[q + 6] == InstallStep::Journal(TransactionPhase::RecordCommitted));
    if has_pi {
        assert(steps[p + 3] == InstallStep::ConfigurePi);
    }
    if keeps_plugin {
        assert(steps[5] == InstallStep::InspectPlugin);
        if has_prior {
            assert(steps[q + 7] == InstallStep::RemoveSuperseded);
        }
    } else {
        assert(steps[5] == InstallStep::StagePlugin);
        assert(steps[7] == InstallStep::BackUpHelper);
        assert(steps[9] == InstallStep::BackUpPointer);
        assert(steps[11] == InstallStep::PublishHelper);
        assert(steps[13] == InstallStep::PublishPointer);
        assert(steps[q + 7] == InstallStep::DropBackups);
        if has_prior {
            assert(steps[q + 8] == InstallStep::RemoveSuperseded);
        }
    }
}

/// A failed step is a warning only for backups that stay behind. The first writing of
/// the journal, a look at kept files, and what comes after the commit return their
/// error; everything else is rolled back.
pub proof fn law_failures_before_the_commit_roll_back(step: InstallStep)
    ensures
        on_failure(step) == OnFailure::Warn <==> step is DropBackups,
        on_failure(step) == OnFailure::Return <==> (step == InstallStep::Journal(
            TransactionPhase::Intent,
        ) || step is InspectPlugin || step is RemoveSuperseded || step is ClearJournal),
{
}

/// A repair has Pi install the package just when no entry leads to it, and leaves Pi
/// alone just when the one entry that does is the recorded one; any other entry that
/// leads to the package stands in its way.
pub proof fn law_repairs_leave_the_recorded_entry(
    record: RecordView,
    path: Seq<u8>,
    entries: Seq<JsonView>,
)
    ensures
        ({
            let r = repair_pi(record, Some((path, entries)));
            let leads = leads_to(path, record.pi_package_source);
            &&& r == Ok::<RepairPi, Failure>(RepairPi::Install) <==> none_of(entries, leads)
            &&& r == Ok::<RepairPi, Failure>(RepairPi::Present) <==> exists|i: int|
                sole(entries, leads, i) && same_json(entries[i], record.pi_package_entry)
            &&& r is Ok ==> r->Ok_0 != RepairPi::Absent
            &&& r is Err ==> r->Err_0.0 == "ownership_conflict"@
        }),
        repair_pi(record, None) == Ok::<RepairPi, Failure>(RepairPi::Absent),
{
    lemma_matching(entries, path, record.pi_package_source);
}

/// A repair keeps everything of a record but its state, its error and, where Pi stores
/// the package otherwise now, the entry.
pub proof fn law_repairs_change_only_the_state(
    record: RecordView,
    entry: Option<JsonView>,
    state: InstallState,
    error: Option<Seq<char>>,
)
    ensures
        in_state(record, state, error).state == state,
        in_state(record, state, error).last_error == error,
        (RecordView {
            state: record.state,
            last_error: record.last_error,
            ..in_state(record, state, error)
        }) == record,
        (RecordView {
            state: record.state,
            last_error: record.last_error,
            pi_package_entry: record.pi_package_entry,
            ..repaired_record(record, entry)
        }) == record,
        entry is None ==> repaired_record(record, entry).pi_package_entry
            == record.pi_package_entry,
        entry is Some && !same_json(entry->0, record.pi_package_entry) ==> repaired_record(
            record,
            entry,
        ).pi_package_entry == entry->0,
        entry is Some && same_json(entry->0, record.pi_package_entry) ==> repaired_record(
            record,
            entry,
        ).pi_package_entry == record.pi_package_entry,
{
}

/// Only a record of the schema before, and only one with authority, is rewritten.
pub proof fn law_only_older_records_with_authority_migrate(record: RecordView)
    ensures
        needs_migration(record) <==> (record.schema_version == 2 && record.purge_authority),
{
}

/// A record moves with its plugin root just when it is a managed one whose old root is
/// gone, and it owns the helper and the pointer there and nothing else. Each entry keeps
/// its digest and its mode; the helper and the pointer are then those of the new root,
/// and entries elsewhere stay where they are.
pub proof fn law_records_move_with_their_plugin_root(
    record: RecordView,
    current_root: Seq<u8>,
    old_root_check: Option<Failure>,
    i: int,
)
    requires
        relocated_record(record, current_root, old_root_check) is Ok,
        parts(current_root) != parts(record.plugin_root),
        0 <= i < record.owned_files.len(),
    ensures
        ({
            let after = relocated_record(record, current_root, old_root_check)->Ok_0;
            let old = record.owned_files[i];
            let now = after.owned_files[i];
            &&& record.install_kind == "managed"@
            &&& old_root_check is None
            &&& after.plugin_root == current_root
            &&& after.owned_files.len() == record.owned_files.len()
            &&& now.sha256 == old.sha256
            &&& now.mode == old.mode
            &&& parts(old.path) == parts(helper_path(record.plugin_root)) ==> now.path
                == helper_path(current_root)
            &&& parts(old.path) == parts(pointer_path(record.plugin_root)) && parts(old.path)
                != parts(helper_path(record.plugin_root)) ==> now.path == pointer_path(
                current_root,
            )
            &&& parts(old.path) != parts(helper_path(record.plugin_root)) && parts(old.path)
                != parts(pointer_path(record.plugin_root)) ==> now.path == old.path && !path_under(
                old.path,
                record.plugin_root,
            )
            &&& (RecordView {
                plugin_root: record.plugin_root,
                owned_files: record.owned_files,
                ..after
            }) == record
        }),
{
    let old = record.owned_files[i];
    assert(moved_owned(old, record.plugin_root, current_root) is Some);
}

/// A record whose plugin root is where it was does not change; one of a linked
/// checkout, or whose old root is still in the way, is not moved.
pub proof fn law_unmoved_records_stay(
    record: RecordView,
    current_root: Seq<u8>,
    old_root_check: Option<Failure>,
)
    ensures
        parts(current_root) == parts(record.plugin_root) ==> relocated_record(
            record,
            current_root,
            old_root_check,
        ) == Ok::<RecordView, Failure>(record),
        parts(current_root) != parts(record.plugin_root) && record.install_kind != "managed"@
            ==> relocated_record(record, current_root, old_root_check) is Err && relocated_record(
            record,
            current_root,
            old_root_check,
        )->Err_0.0 == "ownership_conflict"@,
        parts(current_root) != parts(record.plugin_root) && record.install_kind == "managed"@
            && old_root_check is Some ==> relocated_record(record, current_root, old_root_check)
            == Err::<RecordView, Failure>(old_root_check->0),
{
}

/// A record that moves owns exactly two entries at the helper and the pointer of its
/// old root.
pub proof fn law_moved_records_own_helper_and_pointer(
    record: RecordView,
    current_root: Seq<u8>,
    old_root_check: Option<Failure>,
)
    requires
        relocated_record(record, current_root, old_root_check) is Ok,
        parts(current_root) != parts(record.plugin_root),
    ensures
        record.owned_files.filter(
            |f: OwnedFileView|
                parts(f.path) == parts(helper_path(record.plugin_root)) || parts(f.path) == parts(
                    pointer_path(record.plugin_root),
                ),
        ).len() == 2,
{
    let a = |f: OwnedFileView| is_plugin_asset(f, record.plugin_root);
    let b = |f: OwnedFileView|
        parts(f.path) == parts(helper_path(record.plugin_root)) || parts(f.path) == parts(
            pointer_path(record.plugin_root),
        );
    lemma_filter_alike(record.owned_files, a, b);
}

/// The backups of a file are clear just when there is none, or only one that holds the
/// recorded file; backups are told by how their names start.
pub proof fn law_a_clear_backup_is_the_only_one(entries: Seq<BackupEntry>, prefix: Seq<char>)
    ensures
        no_backup(entries, prefix) ==> backups_clear(entries, prefix),
        backups_clear(entries, prefix) <==> (no_backup(entries, prefix) || exists|i: int|
            #![trigger entries[i]]
            only_backup(entries, prefix, i) && entries[i].is_recorded),
        forall|i: int|
            0 <= i < entries.len() ==> is_backup(#[trigger] entries[i], prefix) == (utf8(
                prefix,
            ).len() <= entries[i].name@.len() && entries[i].name@.take(utf8(prefix).len() as int)
                == utf8(prefix)),
{
    if backups_clear(entries, prefix) && !no_backup(entries, prefix) {
        let i = choose|i: int| 0 <= i < entries.len() && is_backup(#[trigger] entries[i], prefix);
        assert(only_backup(entries, prefix, i));
        assert(entries[i].is_recorded);
    }
    assert forall|i: int| 0 <= i < entries.len() implies is_backup(#[trigger] entries[i], prefix)
        == (utf8(prefix).len() <= entries[i].name@.len() && entries[i].name@.take(
        utf8(prefix).len() as int,
    ) == utf8(prefix)) by {
        let (name, p) = (entries[i].name@, utf8(prefix));
        if p.len() <= name.len() {
            assert(name.take(p.len() as int) =~= name.subrange(0, p.len() as int));
            if p.is_prefix_of(name) {
                assert(name.take(p.len() as int) =~= p);
            }
        }
    }
}

/// A first installation finds no plugin file in its way, neither the helper nor the
/// pointer.
pub proof fn law_unowned_plugin_files_stand_in_the_way(helper: bool, pointer: bool)
    ensures
        unowned_failure(helper, pointer) is None <==> !helper && !pointer,
{
}

/// What is ready, waits for Pi or has failed can be repaired; what is being removed has its
/// removal resumed first, and what is removed is gone.
pub proof fn law_removed_installs_are_not_repaired(state: InstallState)
    ensures
        unrepairable(state) is None <==> (state is Ready || state is PiAdapterPending || state
            is Failed),
        state is Removed ==> (unrepairable(state)->0).0 == "already_removed"@,
        unrepairable(state) is Some && !(state is Removed) ==> (unrepairable(state)->0).0
            == "removal_incomplete"@,
{
}

/// An update goes on just when no process is left and the record says what it said.
pub proof fn law_updates_need_all_processes_stopped(
    now: Option<RecordView>,
    prior: Option<RecordView>,
    registered: usize,
    starting: usize,
)
    ensures
        unstopped(now, prior, registered, starting) is None <==> (registered == 0 && starting == 0
            && (now is None <==> prior is None) && (now is Some && prior is Some ==> same_record(
            now->0,
            prior->0,
        ))),
{
}

/// A generation is replaced only over a live installation, and there just when a digest
/// differs; plugin files that are kept are of the same digests and lead to the same
/// places, so that a generation is never replaced under plugin files that are kept.
pub proof fn law_kept_plugins_keep_their_generation(
    prior: Option<OwnershipRecord>,
    broker: Seq<char>,
    package: Seq<char>,
    binary: Seq<u8>,
    source: Seq<u8>,
)
    ensures
        generation_replaced(prior, broker, package) ==> prior is Some && !(prior->0.state
            is Removed),
        prior is Some && !(prior->0.state is Removed) ==> (generation_replaced(
            prior,
            broker,
            package,
        ) <==> (prior->0.broker_digest@, prior->0.pi_package_digest@) != (broker, package)),
        plugin_kept(prior, broker, package, binary, source) ==> !generation_replaced(
            prior,
            broker,
            package,
        ),
        plugin_kept(prior, broker, package, binary, source) <==> (prior is Some && !(prior->0.state
            is Removed) && (prior->0.broker_digest@, prior->0.pi_package_digest@) == (
            broker,
            package,
        ) && parts(prior->0.stable_binary@) == parts(binary) && parts(
            prior->0.pi_package_source@,
        ) == parts(source)),
{
}

/// An interrupted installation is finished only over a live one, and an installation owns
/// the entry of Pi that a live one has recorded; without a record it owns the one that was
/// found, and after a removal none.
pub proof fn law_live_installs_own_their_entry(
    prior: Option<RecordView>,
    first: Option<JsonView>,
)
    ensures
        predecessor_failure(prior) is None <==> prior is Some && !(prior->0.state is Removed),
        prior is None ==> owned_entry(prior, first) == first,
        prior is Some && prior->0.state is Removed ==> owned_entry(prior, first) is None,
        prior is Some && !(prior->0.state is Removed) ==> owned_entry(prior, first) == Some(
            prior->0.pi_package_entry,
        ),
{
}

/// A record moves only from a plugin root that is known to be gone.
pub proof fn law_old_plugin_roots_must_be_gone(present: bool, error: Option<Seq<char>>)
    ensures
        old_root_failure(present, error) is None <==> error is None && !present,
        old_root_failure(present, error) is Some ==> (old_root_failure(present, error)->0).0
            == "ownership_conflict"@,
{
}

/// A generation that is in place is used just when its binary and its package have the
/// digests that it is named by.
pub proof fn law_existing_generations_have_their_digests(
    binary: Result<Seq<char>, Failure>,
    package: Result<Seq<char>, Failure>,
    broker_digest: Seq<char>,
    package_digest: Seq<char>,
)
    ensures
        generation_conflict(binary, package, broker_digest, package_digest) is None <==> (binary
            == Ok::<Seq<char>, Failure>(broker_digest) && package == Ok::<Seq<char>, Failure>(
            package_digest,
        )),
        binary is Err ==> generation_conflict(binary, package, broker_digest, package_digest)
            == Some(binary->Err_0),
{
}

/// A record of an installation stands only if it holds of what is on disk; one of a removal
/// only has to make sense.
pub proof fn law_records_of_installs_hold_of_the_disk(
    state: InstallState,
    allow: bool,
    semantics: Option<Failure>,
    live: Option<Failure>,
)
    ensures
        (state is Ready || state is PiAdapterPending || state is Failed) && !allow ==> unwritten(
            state,
            allow,
            semantics,
            live,
        ) == live,
        allow || !(state is Ready || state is PiAdapterPending || state is Failed) ==> (unwritten(
            state,
            allow,
            semantics,
            live,
        ) is None <==> semantics is None),
        (allow || !(state is Ready || state is PiAdapterPending || state is Failed)) && semantics
            is Some ==> (unwritten(state, allow, semantics, live)->0).0
            == "ownership_commit_failed"@,
{
}

/// An installation that was rolled back fails as it failed; only where the rolling back
/// failed too is a recovery needed, and then both errors are told.
pub proof fn law_rolled_back_installs_keep_their_error(
    original: Failure,
    rollback: Option<Failure>,
)
    ensures
        rollback is None ==> rolled_back_with(original, rollback) == original,
        rollback is Some ==> rolled_back_with(original, rollback).0 == "recovery_needed"@
            && failure_text(original).is_prefix_of(rolled_back_with(original, rollback).1),
{
    if rollback is Some {
        let told = rolled_back_with(original, rollback).1;
        assert(told.take(failure_text(original).len() as int) =~= failure_text(original));
    }
}

/// A name that starts in a fixed way is never overlooked.
pub proof fn law_no_stage_is_overlooked(names: Seq<Seq<u8>>, prefix: Seq<char>, i: int)
    requires
        0 <= i < names.len(),
        utf8(prefix).len() <= names[i].len(),
        names[i].take(utf8(prefix).len() as int) == utf8(prefix),
    ensures
        some_name_starts(names, prefix),
{
    assert(utf8(prefix).is_prefix_of(names[i])) by {
        assert(names[i].take(utf8(prefix).len() as int) =~= names[i].subrange(
            0,
            utf8(prefix).len() as int,
        ));
    }
}

/// A file whose replacement was interrupted keeps its place where it is in place, and its
/// backup then goes; where it is not, the one backup takes its place. Without a clear backup
/// for a missing file, or with more than one backup, nothing is touched.
pub proof fn law_interrupted_files_come_from_their_backup(
    entries: Seq<BackupEntry>,
    prefix: Seq<char>,
    in_place: bool,
    plan: InterruptedFile,
)
    ensures
        unreconciled(entries, prefix, in_place) is None <==> (backups_clear(entries, prefix) && (
        in_place || !no_backup(entries, prefix))),
        reconciles(entries, prefix, in_place, plan) && plan is Intact ==> in_place && no_backup(
            entries,
            prefix,
        ),
        reconciles(entries, prefix, in_place, plan) && plan is DropBackup ==> in_place && is_backup(
            entries[plan->DropBackup_0 as int],
            prefix,
        ),
        reconciles(entries, prefix, in_place, plan) && plan is RestoreBackup ==> !in_place
            && is_backup(entries[plan->RestoreBackup_0 as int], prefix),
        reconciles(entries, prefix, in_place, plan) && unreconciled(entries, prefix, in_place)
            is None && plan is RestoreBackup ==> entries[plan->RestoreBackup_0 as int].is_recorded,
{
}

/// A status report says that nothing is installed just where there is no record, and tells
/// the state of the record just where its check passed.
pub proof fn law_reports_tell_the_record(
    record: Option<OwnershipRecord>,
    check: ManagedResult<()>,
    report: StatusReport,
)
    requires
        report_fits(record, check, report),
    ensures
        report is NotInstalled <==> record is None,
        report is Installed <==> record is Some && check is Ok,
        report is Installed ==> report->Installed_0 == record->0.state,
        report is Failed ==> report->Failed_0@ == failure_text(check->Err_0@),
        status_error(report) is None <==> report is Installed,
        report is NotInstalled ==> status_error(report) == Some("not_installed"@),
        report is Failed ==> status_error(report) == Some(report->Failed_0@),
{
}

/// A repair with Pi writes a record unless it is ready, without an error, and Pi stores the
/// entry that it has; what it would write is then the same record.
pub proof fn law_repairs_write_only_changes(record: RecordView, entry: Option<JsonView>)
    ensures
        nothing_to_repair(record, entry) <==> (record.state is Ready && record.last_error is None
            && (entry is None || same_json(entry->0, record.pi_package_entry))),
        nothing_to_repair(record, entry) ==> repaired_record(record, entry) == record,
{
}

/// The record that an interrupted installation is finished with tells what its journal
/// plans: the generation, its digests and the entry of Pi; it is ready, and of the kind of
/// the record of before.
pub proof fn law_finished_installs_tell_the_plan(
    t: InstallTransaction,
    prior: RecordView,
    stable: Seq<u8>,
    plugin_root: Seq<u8>,
    found: ForwardInputs,
)
    requires
        forward_record(t, prior, stable, plugin_root, found) is Ok,
    ensures
        ({
            let (record, marker) = forward_record(t, prior, stable, plugin_root, found)->Ok_0;
            &&& record.state is Ready
            &&& record.last_error is None
            &&& record.install_kind == prior.install_kind
            &&& record.plugin_root == plugin_root
            &&& record.broker_digest == t.broker_digest@
            &&& record.pi_package_digest == t.pi_package_digest@
            &&& record.stable_binary == child(t.generation@, "bin/herdr-a2a"@)
            &&& record.pi_package_source == child(t.generation@, "pi"@)
            &&& record.pi_package_entry == t.new_pi_entry@
            &&& record.purge_authority == prior.purge_authority
            &&& record.rescue_path == rescue_notice(stable)
            &&& record.rescue_marker_digest == sha256_text(utf8(marker))
            &&& found.notice is Ok
        }),
{
    law_reinstall_gains_no_authority(stable, plugin_root, prior, forward_inputs(t, prior, found));
}

} // verus!
