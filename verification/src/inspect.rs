//! An inspection of the installation that changes nothing.

use vstd::prelude::*;
use crate::error::{failure, outcome, ManagedResult};
use crate::layout::{helper_path, text_outcome};
use crate::lists::lemma_joined_has;
use crate::path::FsPath;
use crate::record::{owned_for, record_owned_file, InstallState, OwnershipRecord, RecordView, OWNERSHIP_SCHEMA};
use crate::restore::{digest_found, has_digest, FileDigest};
use crate::text::text_eq;
use crate::version::{
    adapter_metadata_ok, compatible_pi, is_adapter_metadata_ok, is_compatible_pi, AdapterContract,
    AdapterView, ProcessOutput,
};

verus! {

/// What an inspection can find wrong.
#[derive(Clone, Copy, Debug, PartialEq, Eq, Structural)]
pub enum ReadOnlyManagedIssue {
    OwnershipInvalid,
    OwnershipVersionIncompatible,
    BinaryModified,
    AdapterModified,
    PiEntryModified,
    PiAdapterPending,
    PluginVersionIncompatible,
    BinaryVersionIncompatible,
    AdapterMetadataIncompatible,
    AdapterVersionIncompatible,
    PiVersionIncompatible,
}

/// A file is as the record says, with the mode that its place asks for.
pub open spec fn asset_matches(
    record: RecordView,
    path: Seq<u8>,
    mode: u32,
    found: Option<FileDigest>,
) -> bool {
    match owned_for(record.owned_files, path) {
        None => false,
        Some(owned) => owned.mode == mode && digest_found(found, mode, owned.sha256),
    }
}

/// Whether a file is as the record says.
pub fn owned_asset_matches(
    record: &OwnershipRecord,
    path: &FsPath,
    mode: u32,
    found: &Option<FileDigest>,
) -> (r: bool)
    ensures
        r == asset_matches(record@, path@, mode, *found),
{
    match record_owned_file(record, path) {
        None => false,
        Some(owned) => owned.mode == mode && has_digest(found, mode, owned.sha256.as_str()),
    }
}

/// The binary and the helper are as the record says, and are the same program.
pub open spec fn binaries_match(
    record: RecordView,
    binary: Option<FileDigest>,
    helper: Option<FileDigest>,
) -> bool {
    &&& asset_matches(record, record.stable_binary, 0o700, binary)
    &&& asset_matches(record, helper_path(record.plugin_root), 0o700, helper)
    &&& binary->0.sha256@ == record.broker_digest
    &&& helper->0.sha256@ == record.broker_digest
}

/// Whether the binary and the helper are as the record says.
pub fn binary_assets_match(
    record: &OwnershipRecord,
    binary: &Option<FileDigest>,
    helper: &Option<FileDigest>,
) -> (r: bool)
    ensures
        r == binaries_match(record@, *binary, *helper),
{
    let helper_at = record.plugin_root.join("libexec/herdr-a2a-dispatch");
    if !owned_asset_matches(record, &record.stable_binary, 0o700, binary) || !owned_asset_matches(
        record,
        &helper_at,
        0o700,
        helper,
    ) {
        return false;
    }
    has_digest(binary, 0o700, record.broker_digest.as_str()) && has_digest(
        helper,
        0o700,
        record.broker_digest.as_str(),
    )
}

/// A file of the package, and what is there.
#[derive(Debug)]
pub struct AssetFound {
    pub path: FsPath,
    pub file: Option<FileDigest>,
}

/// The package is as the record says, as a whole and file by file.
pub open spec fn package_matches(
    record: RecordView,
    files: ManagedResult<Vec<AssetFound>>,
    digest: ManagedResult<String>,
) -> bool {
    &&& files is Ok
    &&& text_outcome(digest) == Ok::<Seq<char>, crate::error::Failure>(record.pi_package_digest)
    &&& forall|i: int|
        0 <= i < files->Ok_0@.len() ==> {
            let found = #[trigger] files->Ok_0@[i];
            asset_matches(record, found.path@, 0o600, found.file)
        }
}

/// Whether the package is as the record says.
pub fn adapter_assets_match(
    record: &OwnershipRecord,
    files: &ManagedResult<Vec<AssetFound>>,
    digest: &ManagedResult<String>,
) -> (r: bool)
    ensures
        r == package_matches(record@, *files, *digest),
{
    let listed = match files {
        Ok(listed) => listed,
        Err(_) => {
            return false;
        },
    };
    let whole = match digest {
        Ok(found) => text_eq(found.as_str(), record.pi_package_digest.as_str()),
        Err(_) => false,
    };
    if !whole {
        return false;
    }
    let mut i: usize = 0;
    while i < listed.len()
        invariant
            i <= listed.len(),
            forall|k: int|
                0 <= k < i ==> {
                    let found = #[trigger] listed@[k];
                    asset_matches(record@, found.path@, 0o600, found.file)
                },
            *files == Ok::<Vec<AssetFound>, crate::error::ManagedError>(*listed),
        decreases listed.len() - i,
    {
        if !owned_asset_matches(record, &listed[i].path, 0o600, &listed[i].file) {
            assert(!asset_matches(
                record@,
                listed@[i as int].path@,
                0o600,
                listed@[i as int].file,
            ));
            return false;
        }
        i += 1;
    }
    true
}

/// What was found of Pi.
#[derive(Debug)]
pub enum PiProgramFound {
    Absent,
    Unusable,
    Present(ManagedResult<ProcessOutput>),
}

/// What an inspection found beside the record.
#[derive(Debug)]
pub struct InspectionFound {
    /// Whether the record holds of what is on disk.
    pub record_check: ManagedResult<()>,
    pub binary: Option<FileDigest>,
    pub helper: Option<FileDigest>,
    pub package_files: ManagedResult<Vec<AssetFound>>,
    pub package_digest: ManagedResult<String>,
    pub plugin_version: ManagedResult<String>,
    pub adapter: ManagedResult<AdapterContract>,
    /// Whether Pi has exactly the recorded entry.
    pub ready_pi: ManagedResult<()>,
    pub pi: PiProgramFound,
}

/// The one issue of a record that does not hold of what is on disk: the first of
/// the binary, the adapter and the record itself.
pub open spec fn broken_issue(record: RecordView, found: InspectionFound) -> ReadOnlyManagedIssue {
    if !binaries_match(record, found.binary, found.helper) {
        ReadOnlyManagedIssue::BinaryModified
    } else if !package_matches(record, found.package_files, found.package_digest) {
        ReadOnlyManagedIssue::AdapterModified
    } else {
        ReadOnlyManagedIssue::OwnershipInvalid
    }
}

/// An issue, if there is one.
pub open spec fn issue_if(wrong: bool, issue: ReadOnlyManagedIssue) -> Seq<ReadOnlyManagedIssue> {
    if wrong {
        seq![issue]
    } else {
        Seq::empty()
    }
}

/// What is wrong with the adapter's own statement.
pub open spec fn adapter_issues(
    record: RecordView,
    adapter: Result<AdapterView, crate::error::Failure>,
) -> Seq<ReadOnlyManagedIssue> {
    match adapter {
        Err(_) => seq![ReadOnlyManagedIssue::AdapterMetadataIncompatible],
        Ok(contract) => issue_if(
            !adapter_metadata_ok(contract),
            ReadOnlyManagedIssue::AdapterMetadataIncompatible,
        ) + issue_if(
            contract.version != record.plugin_version,
            ReadOnlyManagedIssue::AdapterVersionIncompatible,
        ),
    }
}

/// What is wrong with the state of the record.
pub open spec fn state_issues(state: InstallState, ready_pi: ManagedResult<()>) -> Seq<
    ReadOnlyManagedIssue,
> {
    match state {
        InstallState::Ready => issue_if(ready_pi is Err, ReadOnlyManagedIssue::PiEntryModified),
        InstallState::PiAdapterPending => seq![ReadOnlyManagedIssue::PiAdapterPending],
        _ => seq![ReadOnlyManagedIssue::OwnershipInvalid],
    }
}

/// What is wrong with Pi itself.
pub open spec fn pi_issues(state: InstallState, pi: PiProgramFound) -> Seq<ReadOnlyManagedIssue> {
    match pi {
        PiProgramFound::Present(Ok(output)) => issue_if(
            !compatible_pi(output),
            ReadOnlyManagedIssue::PiVersionIncompatible,
        ),
        PiProgramFound::Present(Err(_)) => seq![ReadOnlyManagedIssue::PiVersionIncompatible],
        PiProgramFound::Absent => issue_if(
            state != InstallState::PiAdapterPending,
            ReadOnlyManagedIssue::PiAdapterPending,
        ),
        PiProgramFound::Unusable => seq![ReadOnlyManagedIssue::PiVersionIncompatible],
    }
}

/// The versions of an installation that do not fit.
pub open spec fn version_issues(
    v: RecordView,
    own_version: Seq<char>,
    found: InspectionFound,
) -> Seq<ReadOnlyManagedIssue> {
    issue_if(
        text_outcome(found.plugin_version) != Ok::<Seq<char>, crate::error::Failure>(
            v.plugin_version,
        ),
        ReadOnlyManagedIssue::PluginVersionIncompatible,
    ) + issue_if(
        v.plugin_version != own_version,
        ReadOnlyManagedIssue::BinaryVersionIncompatible,
    ) + adapter_issues(v, outcome(found.adapter))
}

/// What an inspection finds wrong.
pub open spec fn issues_of(
    root_check: ManagedResult<()>,
    record: Result<RecordView, crate::error::Failure>,
    own_version: Seq<char>,
    found: InspectionFound,
) -> Seq<ReadOnlyManagedIssue> {
    if root_check is Err || record is Err {
        seq![ReadOnlyManagedIssue::OwnershipInvalid]
    } else {
        let v = record->Ok_0;
        if v.schema_version != OWNERSHIP_SCHEMA {
            seq![ReadOnlyManagedIssue::OwnershipVersionIncompatible]
        } else if found.record_check is Err {
            seq![broken_issue(v, found)]
        } else {
            version_issues(v, own_version, found) + state_issues(v.state, found.ready_pi)
                + pi_issues(v.state, found.pi)
        }
    }
}

fn add_issue(issues: &mut Vec<ReadOnlyManagedIssue>, wrong: bool, issue: ReadOnlyManagedIssue)
    ensures
        final(issues)@ == old(issues)@ + issue_if(wrong, issue),
{
    if wrong {
        issues.push(issue);
    }
    assert(issues@ =~= old(issues)@ + issue_if(wrong, issue));
}

fn one_issue(issue: ReadOnlyManagedIssue) -> (r: Vec<ReadOnlyManagedIssue>)
    ensures
        r@ == seq![issue],
{
    let mut issues: Vec<ReadOnlyManagedIssue> = Vec::new();
    issues.push(issue);
    assert(issues@ =~= seq![issue]);
    issues
}

fn add_adapter_issues(
    issues: &mut Vec<ReadOnlyManagedIssue>,
    record: &OwnershipRecord,
    adapter: &ManagedResult<AdapterContract>,
)
    ensures
        final(issues)@ == old(issues)@ + adapter_issues(record@, outcome(*adapter)),
{
    match adapter {
        Ok(contract) => {
            let metadata = is_adapter_metadata_ok(contract);
            let version = text_eq(contract.version.as_str(), record.plugin_version.as_str());
            add_issue(issues, !metadata, ReadOnlyManagedIssue::AdapterMetadataIncompatible);
            add_issue(issues, !version, ReadOnlyManagedIssue::AdapterVersionIncompatible);
        },
        Err(_) => {
            add_issue(issues, true, ReadOnlyManagedIssue::AdapterMetadataIncompatible);
        },
    }
    assert(issues@ =~= old(issues)@ + adapter_issues(record@, outcome(*adapter)));
}

fn add_state_issues(
    issues: &mut Vec<ReadOnlyManagedIssue>,
    state: InstallState,
    ready_pi: &ManagedResult<()>,
)
    ensures
        final(issues)@ == old(issues)@ + state_issues(state, *ready_pi),
{
    match state {
        InstallState::Ready => add_issue(
            issues,
            ready_pi.is_err(),
            ReadOnlyManagedIssue::PiEntryModified,
        ),
        InstallState::PiAdapterPending => add_issue(
            issues,
            true,
            ReadOnlyManagedIssue::PiAdapterPending,
        ),
        _ => add_issue(issues, true, ReadOnlyManagedIssue::OwnershipInvalid),
    }
}

fn add_pi_issues(
    issues: &mut Vec<ReadOnlyManagedIssue>,
    state: InstallState,
    pi: &PiProgramFound,
)
    ensures
        final(issues)@ == old(issues)@ + pi_issues(state, *pi),
{
    match pi {
        PiProgramFound::Present(Ok(output)) => {
            let compatible = is_compatible_pi(output);
            add_issue(issues, !compatible, ReadOnlyManagedIssue::PiVersionIncompatible);
        },
        PiProgramFound::Absent => add_issue(
            issues,
            state != InstallState::PiAdapterPending,
            ReadOnlyManagedIssue::PiAdapterPending,
        ),
        _ => add_issue(issues, true, ReadOnlyManagedIssue::PiVersionIncompatible),
    }
}

/// Says what is wrong with an installation, from what was found of it.
pub fn inspect_read_only(
    root_check: &ManagedResult<()>,
    record: &ManagedResult<OwnershipRecord>,
    own_version: &str,
    found: &InspectionFound,
) -> (r: Vec<ReadOnlyManagedIssue>)
    ensures
        r@ == issues_of(*root_check, outcome(*record), own_version@, *found),
{
    if root_check.is_err() {
        return one_issue(ReadOnlyManagedIssue::OwnershipInvalid);
    }
    let record = match record {
        Ok(record) => record,
        Err(_) => {
            return one_issue(ReadOnlyManagedIssue::OwnershipInvalid);
        },
    };
    if record.schema_version != OWNERSHIP_SCHEMA {
        return one_issue(ReadOnlyManagedIssue::OwnershipVersionIncompatible);
    }
    if found.record_check.is_err() {
        if !binary_assets_match(record, &found.binary, &found.helper) {
            return one_issue(ReadOnlyManagedIssue::BinaryModified);
        }
        if !adapter_assets_match(record, &found.package_files, &found.package_digest) {
            return one_issue(ReadOnlyManagedIssue::AdapterModified);
        }
        return one_issue(ReadOnlyManagedIssue::OwnershipInvalid);
    }
    let mut issues: Vec<ReadOnlyManagedIssue> = Vec::new();
    let plugin = match &found.plugin_version {
        Ok(version) => text_eq(version.as_str(), record.plugin_version.as_str()),
        Err(_) => false,
    };
    let own = text_eq(record.plugin_version.as_str(), own_version);
    add_issue(&mut issues, !plugin, ReadOnlyManagedIssue::PluginVersionIncompatible);
    assert(issues@ =~= issue_if(!plugin, ReadOnlyManagedIssue::PluginVersionIncompatible));
    add_issue(&mut issues, !own, ReadOnlyManagedIssue::BinaryVersionIncompatible);
    add_adapter_issues(&mut issues, record, &found.adapter);
    add_state_issues(&mut issues, record.state, &found.ready_pi);
    add_pi_issues(&mut issues, record.state, &found.pi);
    issues
}

/// An inspection that finds nothing wrong has seen a ready installation of this
/// program's version, whose record holds, with a supported Pi that has the
/// recorded entry.
pub proof fn law_clean_inspection_means_ready(
    root_check: ManagedResult<()>,
    record: Result<RecordView, crate::error::Failure>,
    own_version: Seq<char>,
    found: InspectionFound,
)
    requires
        issues_of(root_check, record, own_version, found).len() == 0,
    ensures
        record is Ok,
        record->Ok_0.state == InstallState::Ready,
        record->Ok_0.plugin_version == own_version,
        failure(found.record_check) is None,
        failure(found.ready_pi) is None,
        found.pi is Present && found.pi->Present_0 is Ok && compatible_pi(
            found.pi->Present_0->Ok_0,
        ),
        found.adapter is Ok && found.adapter->Ok_0@.version == own_version,
{
}

proof fn lemma_versions_name_no_missing_pi(
    v: RecordView,
    own_version: Seq<char>,
    found: InspectionFound,
    k: int,
)
    requires
        0 <= k < version_issues(v, own_version, found).len(),
    ensures
        version_issues(v, own_version, found)[k] != ReadOnlyManagedIssue::PiAdapterPending,
{
}

/// A missing Pi is reported once, whatever the record says.
pub proof fn law_missing_pi_is_reported_once(
    root_check: ManagedResult<()>,
    record: Result<RecordView, crate::error::Failure>,
    own_version: Seq<char>,
    found: InspectionFound,
    i: int,
    j: int,
)
    requires
        0 <= i < issues_of(root_check, record, own_version, found).len(),
        0 <= j < issues_of(root_check, record, own_version, found).len(),
        issues_of(root_check, record, own_version, found)[i]
            == ReadOnlyManagedIssue::PiAdapterPending,
        issues_of(root_check, record, own_version, found)[j]
            == ReadOnlyManagedIssue::PiAdapterPending,
    ensures
        i == j,
{
    let all = issues_of(root_check, record, own_version, found);
    if all.len() > 1 {
        let v = record->Ok_0;
        let versions = version_issues(v, own_version, found);
        let state = state_issues(v.state, found.ready_pi);
        let pi = pi_issues(v.state, found.pi);
        assert(all == versions + state + pi);
        assert(state.len() <= 1 && pi.len() <= 1);
        if i < versions.len() {
            lemma_versions_name_no_missing_pi(v, own_version, found, i);
        }
        if j < versions.len() {
            lemma_versions_name_no_missing_pi(v, own_version, found, j);
        }
    }
}

/// A file is as its record says just when it is recorded with the mode that its place asks
/// for, and was found with that mode and the recorded digest.
pub proof fn law_assets_match_by_mode_and_digest(
    record: RecordView,
    path: Seq<u8>,
    mode: u32,
    found: Option<FileDigest>,
)
    ensures
        asset_matches(record, path, mode, found) <==> (owned_for(record.owned_files, path) is Some
            && found is Some && owned_for(record.owned_files, path)->0.mode == mode && found->0.mode
            == mode && found->0.sha256@ == owned_for(record.owned_files, path)->0.sha256),
{
}

/// The binary and the helper match only as two copies of the program whose digest is
/// recorded; a package matches only with the recorded digest and each of its files as
/// recorded.
pub proof fn law_installed_programs_are_the_recorded_ones(
    record: RecordView,
    binary: Option<FileDigest>,
    helper: Option<FileDigest>,
    files: ManagedResult<Vec<AssetFound>>,
    digest: ManagedResult<String>,
    i: int,
)
    ensures
        binaries_match(record, binary, helper) ==> binary is Some && helper is Some
            && binary->0.sha256@ == record.broker_digest && helper->0.sha256@
            == record.broker_digest && binary->0.mode == 0o700 && helper->0.mode == 0o700
            && asset_matches(record, record.stable_binary, 0o700, binary) && asset_matches(
            record,
            helper_path(record.plugin_root),
            0o700,
            helper,
        ),
        package_matches(record, files, digest) ==> files is Ok && digest is Ok && digest->Ok_0@
            == record.pi_package_digest,
        package_matches(record, files, digest) && 0 <= i < files->Ok_0@.len() ==> asset_matches(
            record,
            files->Ok_0@[i].path@,
            0o600,
            files->Ok_0@[i].file,
        ) && files->Ok_0@[i].file is Some && files->Ok_0@[i].file->0.mode == 0o600,
{
    if package_matches(record, files, digest) && 0 <= i < files->Ok_0@.len() {
        let found = files->Ok_0@[i];
        assert(asset_matches(record, found.path@, 0o600, found.file));
    }
}

/// What cannot be read, is of another schema or does not hold of what is on disk is the
/// only thing that is reported; of a record that does not hold, the binary is named
/// before the adapter and the adapter before the record.
pub proof fn law_broken_records_hide_the_rest(
    root_check: ManagedResult<()>,
    record: Result<RecordView, crate::error::Failure>,
    own_version: Seq<char>,
    found: InspectionFound,
)
    ensures
        ({
            let issues = issues_of(root_check, record, own_version, found);
            let v = record->Ok_0;
            let same = binaries_match(v, found.binary, found.helper);
            let packed = package_matches(v, found.package_files, found.package_digest);
            &&& root_check is Err || record is Err ==> issues
                == seq![ReadOnlyManagedIssue::OwnershipInvalid]
            &&& root_check is Ok && record is Ok && v.schema_version != 3 ==> issues
                == seq![ReadOnlyManagedIssue::OwnershipVersionIncompatible]
            &&& root_check is Ok && record is Ok && v.schema_version == 3 && found.record_check
                is Err ==> issues.len() == 1 && (issues[0] is BinaryModified <==> !same) && (
            issues[0] is AdapterModified <==> same && !packed) && (issues[0]
                is OwnershipInvalid <==> same && packed)
        }),
{
}

/// Of a record that holds, each thing that does not fit is reported, and nothing else is.
pub proof fn law_each_mismatch_is_reported(
    root_check: ManagedResult<()>,
    record: Result<RecordView, crate::error::Failure>,
    own_version: Seq<char>,
    found: InspectionFound,
    issue: ReadOnlyManagedIssue,
)
    requires
        root_check is Ok,
        record is Ok,
        record->Ok_0.schema_version == 3,
        found.record_check is Ok,
    ensures
        ({
            let v = record->Ok_0;
            issues_of(root_check, record, own_version, found).contains(issue) <==> match issue {
                ReadOnlyManagedIssue::OwnershipInvalid => !(v.state is Ready) && !(v.state
                    is PiAdapterPending),
                ReadOnlyManagedIssue::OwnershipVersionIncompatible => false,
                ReadOnlyManagedIssue::BinaryModified => false,
                ReadOnlyManagedIssue::AdapterModified => false,
                ReadOnlyManagedIssue::PiEntryModified => v.state is Ready && found.ready_pi is Err,
                ReadOnlyManagedIssue::PiAdapterPending => v.state is PiAdapterPending || found.pi
                    is Absent,
                ReadOnlyManagedIssue::PluginVersionIncompatible => !(found.plugin_version is Ok
                    && found.plugin_version->Ok_0@ == v.plugin_version),
                ReadOnlyManagedIssue::BinaryVersionIncompatible => v.plugin_version != own_version,
                ReadOnlyManagedIssue::AdapterMetadataIncompatible => !(found.adapter is Ok
                    && adapter_metadata_ok(found.adapter->Ok_0@)),
                ReadOnlyManagedIssue::AdapterVersionIncompatible => found.adapter is Ok
                    && found.adapter->Ok_0@.version != v.plugin_version,
                ReadOnlyManagedIssue::PiVersionIncompatible => found.pi is Unusable || (found.pi
                    is Present && !(found.pi->Present_0 is Ok && compatible_pi(
                    found.pi->Present_0->Ok_0,
                ))),
            }
        }),
{
    let v = record->Ok_0;
    let plugin = issue_if(
        text_outcome(found.plugin_version) != Ok::<Seq<char>, crate::error::Failure>(
            v.plugin_version,
        ),
        ReadOnlyManagedIssue::PluginVersionIncompatible,
    );
    let binary = issue_if(
        v.plugin_version != own_version,
        ReadOnlyManagedIssue::BinaryVersionIncompatible,
    );
    let adapter = adapter_issues(v, outcome(found.adapter));
    let state = state_issues(v.state, found.ready_pi);
    let pi = pi_issues(v.state, found.pi);
    lemma_joined_has(plugin, binary, issue);
    lemma_joined_has(plugin + binary, adapter, issue);
    lemma_joined_has(plugin + binary + adapter, state, issue);
    lemma_joined_has(plugin + binary + adapter + state, pi, issue);
    lemma_single_issue(ReadOnlyManagedIssue::PluginVersionIncompatible, issue);
    lemma_single_issue(ReadOnlyManagedIssue::BinaryVersionIncompatible, issue);
    lemma_single_issue(ReadOnlyManagedIssue::AdapterMetadataIncompatible, issue);
    lemma_single_issue(ReadOnlyManagedIssue::AdapterVersionIncompatible, issue);
    lemma_single_issue(ReadOnlyManagedIssue::PiEntryModified, issue);
    lemma_single_issue(ReadOnlyManagedIssue::PiAdapterPending, issue);
    lemma_single_issue(ReadOnlyManagedIssue::OwnershipInvalid, issue);
    lemma_single_issue(ReadOnlyManagedIssue::PiVersionIncompatible, issue);
    if found.adapter is Ok {
        let contract = found.adapter->Ok_0@;
        lemma_joined_has(
            issue_if(
                !adapter_metadata_ok(contract),
                ReadOnlyManagedIssue::AdapterMetadataIncompatible,
            ),
            issue_if(
                contract.version != v.plugin_version,
                ReadOnlyManagedIssue::AdapterVersionIncompatible,
            ),
            issue,
        );
    }
}

proof fn lemma_single_issue(other: ReadOnlyManagedIssue, issue: ReadOnlyManagedIssue)
    ensures
        seq![other].contains(issue) <==> other == issue,
        forall|wrong: bool| #[trigger]
            issue_if(wrong, other).contains(issue) <==> wrong && other == issue,
{
    assert(seq![other][0] == other);
}

} // verus!
