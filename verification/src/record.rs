//! The ownership record of a managed installation, and the forms it may be
//! read from.

use vstd::prelude::*;
use vstd::string::*;
use crate::digest::{digest_ok, valid_digest};
use crate::error::{fail, failure, Failure, ManagedResult};
use crate::json::{same_json, Json, JsonView};
use crate::lists::lemma_filter_has;
use crate::order::{Keyed, Located};
use crate::path::{parts, path_under, same_path, FsPath};
use crate::text::text_eq;

verus! {

/// The schema of the records that are written.
pub const OWNERSHIP_SCHEMA: u32 = 3;

/// How far an installation or its removal has come.
#[derive(Clone, Copy, Debug, PartialEq, Eq, Structural)]
pub enum InstallState {
    Ready,
    PiAdapterPending,
    Failed,
    Removing,
    UnregisterPending,
    Unregistering,
    FinalizingRemoval,
    Removed,
}

/// The line that a state is reported with.
pub open spec fn spec_state_text(state: InstallState) -> Seq<char> {
    match state {
        InstallState::Ready => "ready"@,
        InstallState::PiAdapterPending => "Pi adapter pending"@,
        InstallState::Failed => "failed"@,
        InstallState::Removing => "removing"@,
        InstallState::UnregisterPending => "unregister pending"@,
        InstallState::Unregistering => "unregistering"@,
        InstallState::FinalizingRemoval => "finalizing removal"@,
        InstallState::Removed => "removed"@,
    }
}

/// The line that a state is reported with.
pub fn state_text(state: InstallState) -> (r: &'static str)
    ensures
        r@ == spec_state_text(state),
{
    match state {
        InstallState::Ready => "ready",
        InstallState::PiAdapterPending => "Pi adapter pending",
        InstallState::Failed => "failed",
        InstallState::Removing => "removing",
        InstallState::UnregisterPending => "unregister pending",
        InstallState::Unregistering => "unregistering",
        InstallState::FinalizingRemoval => "finalizing removal",
        InstallState::Removed => "removed",
    }
}

/// A removal has begun and is not over.
pub open spec fn removal_in_progress(state: InstallState) -> bool {
    state == InstallState::Removing || state == InstallState::UnregisterPending || state
        == InstallState::Unregistering || state == InstallState::FinalizingRemoval
}

/// Whether a removal has begun and is not over.
pub fn is_removal_in_progress(state: InstallState) -> (r: bool)
    ensures
        r == removal_in_progress(state),
{
    match state {
        InstallState::Removing
        | InstallState::UnregisterPending
        | InstallState::Unregistering
        | InstallState::FinalizingRemoval => true,
        _ => false,
    }
}

/// A file of the installation: where it is, what it holds and its mode.
#[derive(Debug)]
pub struct OwnedFile {
    pub path: FsPath,
    pub sha256: String,
    pub mode: u32,
}

/// What an owned file says.
pub struct OwnedFileView {
    pub path: Seq<u8>,
    pub sha256: Seq<char>,
    pub mode: u32,
}

impl View for OwnedFile {
    type V = OwnedFileView;

    open spec fn view(&self) -> OwnedFileView {
        OwnedFileView { path: self.path@, sha256: self.sha256@, mode: self.mode }
    }
}

impl Keyed for OwnedFile {
    open spec fn location(&self) -> Seq<u8> {
        self.path@
    }

    fn key_bytes(&self) -> (r: &[u8]) {
        self.path.bytes.as_slice()
    }
}

impl Located for OwnedFile {
    fn path_ref(&self) -> (r: &FsPath) {
        &self.path
    }
}

/// The owned files that some values stand for.
pub open spec fn owned_views(files: Seq<OwnedFile>) -> Seq<OwnedFileView> {
    files.map_values(|f: OwnedFile| f@)
}

/// The path of an owned file, as a key for sorting.
pub open spec fn owned_key() -> spec_fn(OwnedFileView) -> Seq<u8> {
    |f: OwnedFileView| f.path
}

/// Two entries for the same file: equal paths, digests and modes.
pub open spec fn same_owned(a: OwnedFileView, b: OwnedFileView) -> bool {
    same_path(a.path, b.path) && a.sha256 == b.sha256 && a.mode == b.mode
}

/// Two inventories with equal entries in the same order.
pub open spec fn same_inventory(a: Seq<OwnedFileView>, b: Seq<OwnedFileView>) -> bool {
    a.len() == b.len() && forall|i: int| 0 <= i < a.len() ==> same_owned(#[trigger] a[i], b[i])
}

impl OwnedFile {
    /// A copy of the entry.
    pub fn copy(&self) -> (r: OwnedFile)
        ensures
            r@ == self@,
    {
        OwnedFile { path: self.path.copy(), sha256: self.sha256.clone(), mode: self.mode }
    }

    /// Whether two entries are for the same file.
    pub fn same(&self, other: &OwnedFile) -> (r: bool)
        ensures
            r == same_owned(self@, other@),
    {
        self.path.same(&other.path) && text_eq(self.sha256.as_str(), other.sha256.as_str())
            && self.mode == other.mode
    }
}

/// A copy of an inventory.
pub fn copy_owned_files(files: &Vec<OwnedFile>) -> (r: Vec<OwnedFile>)
    ensures
        owned_views(r@) == owned_views(files@),
{
    let mut out: Vec<OwnedFile> = Vec::new();
    let mut i: usize = 0;
    while i < files.len()
        invariant
            i <= files.len(),
            out@.len() == i,
            forall|k: int| 0 <= k < i ==> (#[trigger] out@[k])@ == files@[k]@,
        decreases files.len() - i,
    {
        out.push(files[i].copy());
        i += 1;
    }
    assert(owned_views(out@) =~= owned_views(files@));
    out
}

/// What a record says of an installation.
#[derive(Debug)]
pub struct OwnershipRecord {
    pub schema_version: u32,
    pub state: InstallState,
    pub plugin_version: String,
    pub broker_digest: String,
    pub pi_package_digest: String,
    pub pi_package_source: FsPath,
    pub pi_config_path: FsPath,
    pub pi_package_entry: Json,
    pub purge_authority: bool,
    pub plugin_state_root: FsPath,
    pub rescue_path: FsPath,
    pub rescue_marker_digest: String,
    pub install_kind: String,
    pub plugin_root: FsPath,
    pub stable_binary: FsPath,
    pub ownership_path: FsPath,
    pub owned_files: Vec<OwnedFile>,
    pub last_error: Option<String>,
}

/// What a record says of an installation.
pub struct RecordView {
    pub schema_version: u32,
    pub state: InstallState,
    pub plugin_version: Seq<char>,
    pub broker_digest: Seq<char>,
    pub pi_package_digest: Seq<char>,
    pub pi_package_source: Seq<u8>,
    pub pi_config_path: Seq<u8>,
    pub pi_package_entry: JsonView,
    pub purge_authority: bool,
    pub plugin_state_root: Seq<u8>,
    pub rescue_path: Seq<u8>,
    pub rescue_marker_digest: Seq<char>,
    pub install_kind: Seq<char>,
    pub plugin_root: Seq<u8>,
    pub stable_binary: Seq<u8>,
    pub ownership_path: Seq<u8>,
    pub owned_files: Seq<OwnedFileView>,
    pub last_error: Option<Seq<char>>,
}

/// The text in an optional text.
pub open spec fn opt_text(t: Option<String>) -> Option<Seq<char>> {
    match t {
        Some(s) => Some(s@),
        None => None,
    }
}

impl View for OwnershipRecord {
    type V = RecordView;

    open spec fn view(&self) -> RecordView {
        RecordView {
            schema_version: self.schema_version,
            state: self.state,
            plugin_version: self.plugin_version@,
            broker_digest: self.broker_digest@,
            pi_package_digest: self.pi_package_digest@,
            pi_package_source: self.pi_package_source@,
            pi_config_path: self.pi_config_path@,
            pi_package_entry: self.pi_package_entry@,
            purge_authority: self.purge_authority,
            plugin_state_root: self.plugin_state_root@,
            rescue_path: self.rescue_path@,
            rescue_marker_digest: self.rescue_marker_digest@,
            install_kind: self.install_kind@,
            plugin_root: self.plugin_root@,
            stable_binary: self.stable_binary@,
            ownership_path: self.ownership_path@,
            owned_files: owned_views(self.owned_files@),
            last_error: opt_text(self.last_error),
        }
    }
}

/// The record in an optional record.
pub open spec fn opt_record(r: Option<OwnershipRecord>) -> Option<RecordView> {
    match r {
        Some(r) => Some(r@),
        None => None,
    }
}

/// Two records that say the same; paths count by their components.
pub open spec fn same_record(a: RecordView, b: RecordView) -> bool {
    &&& a.schema_version == b.schema_version
    &&& a.state == b.state
    &&& a.plugin_version == b.plugin_version
    &&& a.broker_digest == b.broker_digest
    &&& a.pi_package_digest == b.pi_package_digest
    &&& same_path(a.pi_package_source, b.pi_package_source)
    &&& same_path(a.pi_config_path, b.pi_config_path)
    &&& same_json(a.pi_package_entry, b.pi_package_entry)
    &&& a.purge_authority == b.purge_authority
    &&& same_path(a.plugin_state_root, b.plugin_state_root)
    &&& same_path(a.rescue_path, b.rescue_path)
    &&& a.rescue_marker_digest == b.rescue_marker_digest
    &&& a.install_kind == b.install_kind
    &&& same_path(a.plugin_root, b.plugin_root)
    &&& same_path(a.stable_binary, b.stable_binary)
    &&& same_path(a.ownership_path, b.ownership_path)
    &&& same_inventory(a.owned_files, b.owned_files)
    &&& a.last_error == b.last_error
}

/// Two optional records that say the same.
pub open spec fn same_opt_record(a: Option<RecordView>, b: Option<RecordView>) -> bool {
    match (a, b) {
        (Some(x), Some(y)) => same_record(x, y),
        (None, None) => true,
        _ => false,
    }
}

/// A copy of an optional text.
pub fn copy_opt_text(t: &Option<String>) -> (r: Option<String>)
    ensures
        opt_text(r) == opt_text(*t),
{
    match t {
        Some(s) => Some(s.clone()),
        None => None,
    }
}

/// Whether two optional texts are equal.
pub fn opt_text_eq(a: &Option<String>, b: &Option<String>) -> (r: bool)
    ensures
        r == (opt_text(*a) == opt_text(*b)),
{
    match (a, b) {
        (Some(x), Some(y)) => text_eq(x.as_str(), y.as_str()),
        (None, None) => true,
        _ => false,
    }
}

/// Whether two inventories have equal entries in the same order.
pub fn inventories_equal(a: &Vec<OwnedFile>, b: &Vec<OwnedFile>) -> (r: bool)
    ensures
        r == same_inventory(owned_views(a@), owned_views(b@)),
{
    if a.len() != b.len() {
        return false;
    }
    let mut i: usize = 0;
    while i < a.len()
        invariant
            i <= a.len(),
            a.len() == b.len(),
            forall|k: int|
                0 <= k < i ==> same_owned(#[trigger] owned_views(a@)[k], owned_views(b@)[k]),
        decreases a.len() - i,
    {
        if !a[i].same(&b[i]) {
            assert(!same_owned(owned_views(a@)[i as int], owned_views(b@)[i as int]));
            return false;
        }
        i += 1;
    }
    true
}

impl OwnershipRecord {
    /// A copy of the record.
    pub fn copy(&self) -> (r: OwnershipRecord)
        ensures
            r@ == self@,
    {
        OwnershipRecord {
            schema_version: self.schema_version,
            state: self.state,
            plugin_version: self.plugin_version.clone(),
            broker_digest: self.broker_digest.clone(),
            pi_package_digest: self.pi_package_digest.clone(),
            pi_package_source: self.pi_package_source.copy(),
            pi_config_path: self.pi_config_path.copy(),
            pi_package_entry: self.pi_package_entry.copy(),
            purge_authority: self.purge_authority,
            plugin_state_root: self.plugin_state_root.copy(),
            rescue_path: self.rescue_path.copy(),
            rescue_marker_digest: self.rescue_marker_digest.clone(),
            install_kind: self.install_kind.clone(),
            plugin_root: self.plugin_root.copy(),
            stable_binary: self.stable_binary.copy(),
            ownership_path: self.ownership_path.copy(),
            owned_files: copy_owned_files(&self.owned_files),
            last_error: copy_opt_text(&self.last_error),
        }
    }

    /// Whether two records say the same.
    pub fn same(&self, other: &OwnershipRecord) -> (r: bool)
        ensures
            r == same_record(self@, other@),
    {
        self.schema_version == other.schema_version && self.state == other.state && text_eq(
            self.plugin_version.as_str(),
            other.plugin_version.as_str(),
        ) && text_eq(self.broker_digest.as_str(), other.broker_digest.as_str()) && text_eq(
            self.pi_package_digest.as_str(),
            other.pi_package_digest.as_str(),
        ) && self.pi_package_source.same(&other.pi_package_source) && self.pi_config_path.same(
            &other.pi_config_path,
        ) && self.pi_package_entry.same(&other.pi_package_entry) && self.purge_authority
            == other.purge_authority && self.plugin_state_root.same(&other.plugin_state_root)
            && self.rescue_path.same(&other.rescue_path) && text_eq(
            self.rescue_marker_digest.as_str(),
            other.rescue_marker_digest.as_str(),
        ) && text_eq(self.install_kind.as_str(), other.install_kind.as_str())
            && self.plugin_root.same(&other.plugin_root) && self.stable_binary.same(
            &other.stable_binary,
        ) && self.ownership_path.same(&other.ownership_path) && inventories_equal(
            &self.owned_files,
            &other.owned_files,
        ) && opt_text_eq(&self.last_error, &other.last_error)
    }
}

/// Whether two optional records say the same.
pub fn opt_records_equal(a: Option<&OwnershipRecord>, b: Option<&OwnershipRecord>) -> (r: bool)
    ensures
        r == match (a, b) {
            (Some(x), Some(y)) => same_record(x@, y@),
            (None, None) => true,
            _ => false,
        },
{
    match (a, b) {
        (Some(x), Some(y)) => x.same(y),
        (None, None) => true,
        _ => false,
    }
}

/// The position of the first entry for a path, or the number of entries.
pub open spec fn owned_at(files: Seq<OwnedFileView>, path: Seq<u8>) -> int
    decreases files.len(),
{
    if files.len() == 0 {
        0
    } else if same_path(files[0].path, path) {
        0
    } else {
        1 + owned_at(files.skip(1), path)
    }
}

/// The first entry of an inventory for a path.
pub open spec fn owned_for(files: Seq<OwnedFileView>, path: Seq<u8>) -> Option<OwnedFileView> {
    if exists|i: int| 0 <= i < files.len() && same_path(#[trigger] files[i].path, path) {
        Some(files[owned_at(files, path)])
    } else {
        None
    }
}

/// Where the first entry for a path stands, it is for that path.
pub proof fn lemma_owned_at(files: Seq<OwnedFileView>, path: Seq<u8>, i: int)
    requires
        0 <= i < files.len(),
        same_path(files[i].path, path),
        forall|k: int| 0 <= k < i ==> !same_path(#[trigger] files[k].path, path),
    ensures
        owned_at(files, path) == i,
    decreases i,
{
    if i > 0 {
        assert(!same_path(files[0].path, path));
        assert forall|k: int| 0 <= k < i - 1 implies !same_path(
            #[trigger] files.skip(1)[k].path,
            path,
        ) by {
            assert(files.skip(1)[k] == files[k + 1]);
        }
        lemma_owned_at(files.skip(1), path, i - 1);
    }
}

/// Where an inventory has an entry for a path, the first of them is one.
pub proof fn lemma_first_for_path(files: Seq<OwnedFileView>, path: Seq<u8>, k: int)
    requires
        0 <= k < files.len(),
        same_path(files[k].path, path),
    ensures
        0 <= owned_at(files, path) < files.len(),
        same_path(files[owned_at(files, path)].path, path),
    decreases files.len(),
{
    if !same_path(files[0].path, path) {
        assert(files.skip(1)[k - 1] == files[k]);
        lemma_first_for_path(files.skip(1), path, k - 1);
        assert(files.skip(1)[owned_at(files.skip(1), path)] == files[owned_at(files, path)]);
    }
}

/// The first entry of an inventory for a path.
pub fn find_owned<'a>(files: &'a Vec<OwnedFile>, path: &FsPath) -> (r: Option<&'a OwnedFile>)
    ensures
        r is Some == owned_for(owned_views(files@), path@) is Some,
        r is Some ==> r->0@ == owned_for(owned_views(files@), path@)->0 && same_path(
            r->0.path@,
            path@,
        ),
{
    let ghost views = owned_views(files@);
    let mut i: usize = 0;
    while i < files.len()
        invariant
            i <= files.len(),
            views == owned_views(files@),
            forall|k: int| 0 <= k < i ==> !same_path(#[trigger] views[k].path, path@),
        decreases files.len() - i,
    {
        assert(views[i as int] == files@[i as int]@);
        if files[i].path.same(path) {
            proof {
                lemma_owned_at(views, path@, i as int);
                assert(same_path(views[i as int].path, path@));
            }
            return Some(&files[i]);
        }
        i += 1;
    }
    None
}

/// The first entry of a record for a path.
pub fn record_owned_file<'a>(record: &'a OwnershipRecord, path: &FsPath) -> (r: Option<
    &'a OwnedFile,
>)
    ensures
        r is Some == owned_for(record@.owned_files, path@) is Some,
        r is Some ==> r->0@ == owned_for(record@.owned_files, path@)->0 && same_path(
            r->0.path@,
            path@,
        ),
{
    find_owned(&record.owned_files, path)
}

/// The entries that do not lie at or below a path.
pub open spec fn outside_of(files: Seq<OwnedFileView>, base: Seq<u8>) -> Seq<OwnedFileView> {
    files.filter(|f: OwnedFileView| !path_under(f.path, base))
}

/// The entries for other paths than one.
pub open spec fn other_than(files: Seq<OwnedFileView>, path: Seq<u8>) -> Seq<OwnedFileView> {
    files.filter(|f: OwnedFileView| !same_path(f.path, path))
}

proof fn lemma_filter_step<T>(s: Seq<T>, p: spec_fn(T) -> bool, i: int)
    requires
        0 <= i < s.len(),
    ensures
        s.take(i + 1).filter(p) == if p(s[i]) {
            s.take(i).filter(p).push(s[i])
        } else {
            s.take(i).filter(p)
        },
{
    let t = s.take(i + 1);
    assert(t.drop_last() =~= s.take(i));
    assert(t.last() == s[i]);
    reveal(Seq::filter);
}

/// The entries of an inventory that do not lie at or below a path.
pub fn without_subtree(files: &Vec<OwnedFile>, base: &FsPath) -> (r: Vec<OwnedFile>)
    ensures
        owned_views(r@) == outside_of(owned_views(files@), base@),
{
    let ghost views = owned_views(files@);
    let ghost keep = |f: OwnedFileView| !path_under(f.path, base@);
    let mut out: Vec<OwnedFile> = Vec::new();
    let mut i: usize = 0;
    proof {
        reveal(Seq::filter);
        assert(owned_views(out@) =~= views.take(0).filter(keep));
    }
    while i < files.len()
        invariant
            i <= files.len(),
            views == owned_views(files@),
            keep == (|f: OwnedFileView| !path_under(f.path, base@)),
            owned_views(out@) == views.take(i as int).filter(keep),
        decreases files.len() - i,
    {
        let ghost before = out@;
        proof {
            lemma_filter_step(views, keep, i as int);
        }
        if !files[i].path.starts_with(base) {
            out.push(files[i].copy());
            assert(owned_views(out@) =~= owned_views(before).push(views[i as int]));
        }
        i += 1;
    }
    assert(views.take(i as int) =~= views);
    out
}

/// The entries of an inventory for other paths than one.
pub fn without_path(files: &Vec<OwnedFile>, path: &FsPath) -> (r: Vec<OwnedFile>)
    ensures
        owned_views(r@) == other_than(owned_views(files@), path@),
{
    let ghost views = owned_views(files@);
    let ghost keep = |f: OwnedFileView| !same_path(f.path, path@);
    let mut out: Vec<OwnedFile> = Vec::new();
    let mut i: usize = 0;
    proof {
        reveal(Seq::filter);
        assert(owned_views(out@) =~= views.take(0).filter(keep));
    }
    while i < files.len()
        invariant
            i <= files.len(),
            views == owned_views(files@),
            keep == (|f: OwnedFileView| !same_path(f.path, path@)),
            owned_views(out@) == views.take(i as int).filter(keep),
        decreases files.len() - i,
    {
        let ghost before = out@;
        proof {
            lemma_filter_step(views, keep, i as int);
        }
        if !files[i].path.same(path) {
            out.push(files[i].copy());
            assert(owned_views(out@) =~= owned_views(before).push(views[i as int]));
        }
        i += 1;
    }
    assert(views.take(i as int) =~= views);
    out
}

/// A record as it may be stored: fields that came later may be absent.
#[derive(Debug)]
pub struct CompatibleOwnershipRecord {
    pub schema_version: u32,
    pub state: InstallState,
    pub plugin_version: String,
    pub broker_digest: String,
    pub pi_package_digest: String,
    pub pi_package_source: FsPath,
    pub pi_config_path: FsPath,
    pub pi_package_entry: Json,
    pub purge_authority: Option<bool>,
    pub plugin_state_root: Option<FsPath>,
    pub rescue_path: FsPath,
    pub rescue_marker_digest: Option<String>,
    pub install_kind: String,
    pub plugin_root: FsPath,
    pub stable_binary: FsPath,
    pub ownership_path: FsPath,
    pub owned_files: Vec<OwnedFile>,
    pub last_error: Option<String>,
}

/// The forms in which a stored record is accepted.
#[derive(Clone, Copy, Debug, PartialEq, Eq, Structural)]
pub enum DecodedOwnershipSchema {
    LegacyV2NoAuthority,
    AuthoritativeV2,
    LegacyV3Authority,
    CurrentV3,
}

/// A named state root and a recorded marker digest, both usable.
pub open spec fn authority_fields(root: Option<FsPath>, marker: Option<String>) -> bool {
    root is Some && root->0@.len() > 0 && marker is Some && digest_ok(marker->0@)
}

/// The form that a stored record has, if it has one that is accepted.
pub open spec fn compatible_form(record: CompatibleOwnershipRecord) -> Option<
    DecodedOwnershipSchema,
> {
    let authority = record.purge_authority;
    let root = record.plugin_state_root;
    let marker = record.rescue_marker_digest;
    if record.schema_version == 2 {
        if authority != Some(true) && root is None && marker is None {
            Some(DecodedOwnershipSchema::LegacyV2NoAuthority)
        } else if authority == Some(true) && authority_fields(root, marker) {
            Some(DecodedOwnershipSchema::AuthoritativeV2)
        } else {
            None
        }
    } else if record.schema_version == OWNERSHIP_SCHEMA {
        if authority is None && authority_fields(root, marker) {
            Some(DecodedOwnershipSchema::LegacyV3Authority)
        } else if authority == Some(false) && root is None && marker is Some && digest_ok(
            marker->0@,
        ) {
            Some(DecodedOwnershipSchema::CurrentV3)
        } else if authority == Some(true) && authority_fields(root, marker) {
            Some(DecodedOwnershipSchema::CurrentV3)
        } else {
            None
        }
    } else {
        None
    }
}

/// What is wrong with a stored record that has none of the accepted forms.
pub open spec fn compatible_failure(record: CompatibleOwnershipRecord) -> Option<Failure> {
    if compatible_form(record) is Some {
        None
    } else if record.schema_version == 2 || record.schema_version == OWNERSHIP_SCHEMA {
        Some(
            (
                "ownership_record_invalid"@,
                "ownership schema authority fields are incompatible"@,
            ),
        )
    } else {
        Some(("ownership_record_invalid"@, "ownership schema fields are incompatible"@))
    }
}

fn has_authority_fields(root: &Option<FsPath>, marker: &Option<String>) -> (r: bool)
    ensures
        r == authority_fields(*root, *marker),
{
    match (root, marker) {
        (Some(root), Some(marker)) => !root.is_empty() && valid_digest(marker.as_str()),
        _ => false,
    }
}

/// Finds the form of a stored record.
pub fn classify_compatible_record(record: &CompatibleOwnershipRecord) -> (r: ManagedResult<
    DecodedOwnershipSchema,
>)
    ensures
        failure(r) == compatible_failure(*record),
        r is Ok ==> Some(r->Ok_0) == compatible_form(*record),
{
    let root = &record.plugin_state_root;
    let marker = &record.rescue_marker_digest;
    let complete = has_authority_fields(root, marker);
    if record.schema_version == 2 {
        match record.purge_authority {
            None | Some(false) => {
                if root.is_none() && marker.is_none() {
                    return Ok(DecodedOwnershipSchema::LegacyV2NoAuthority);
                }
            },
            Some(true) => {
                if complete {
                    return Ok(DecodedOwnershipSchema::AuthoritativeV2);
                }
            },
        }
        return fail(
            "ownership_record_invalid",
            "ownership schema authority fields are incompatible",
        );
    }
    if record.schema_version == OWNERSHIP_SCHEMA {
        match record.purge_authority {
            None => {
                if complete {
                    return Ok(DecodedOwnershipSchema::LegacyV3Authority);
                }
            },
            Some(false) => {
                if let Some(digest) = marker {
                    if root.is_none() && valid_digest(digest.as_str()) {
                        return Ok(DecodedOwnershipSchema::CurrentV3);
                    }
                }
            },
            Some(true) => {
                if complete {
                    return Ok(DecodedOwnershipSchema::CurrentV3);
                }
            },
        }
        return fail(
            "ownership_record_invalid",
            "ownership schema authority fields are incompatible",
        );
    }
    fail("ownership_record_invalid", "ownership schema fields are incompatible")
}

/// Whether a stored record of an accepted form may have its state root purged.
pub open spec fn form_authority(record: CompatibleOwnershipRecord) -> bool {
    match compatible_form(record) {
        Some(DecodedOwnershipSchema::AuthoritativeV2) => true,
        Some(DecodedOwnershipSchema::LegacyV3Authority) => true,
        Some(DecodedOwnershipSchema::CurrentV3) => record.purge_authority == Some(true),
        _ => false,
    }
}

/// The record that a stored record of an accepted form stands for.
pub open spec fn decoded_view(record: CompatibleOwnershipRecord) -> RecordView {
    RecordView {
        schema_version: record.schema_version,
        state: record.state,
        plugin_version: record.plugin_version@,
        broker_digest: record.broker_digest@,
        pi_package_digest: record.pi_package_digest@,
        pi_package_source: record.pi_package_source@,
        pi_config_path: record.pi_config_path@,
        pi_package_entry: record.pi_package_entry@,
        purge_authority: form_authority(record),
        plugin_state_root: if form_authority(record) {
            record.plugin_state_root->0@
        } else {
            Seq::empty()
        },
        rescue_path: record.rescue_path@,
        rescue_marker_digest: match record.rescue_marker_digest {
            Some(digest) => digest@,
            None => Seq::empty(),
        },
        install_kind: record.install_kind@,
        plugin_root: record.plugin_root@,
        stable_binary: record.stable_binary@,
        ownership_path: record.ownership_path@,
        owned_files: owned_views(record.owned_files@),
        last_error: opt_text(record.last_error),
    }
}

/// Turns a stored record of an accepted form into the record it stands for.
pub fn decode_compatible_record(record: CompatibleOwnershipRecord) -> (r: ManagedResult<
    OwnershipRecord,
>)
    ensures
        failure(r) == compatible_failure(record),
        r is Ok ==> r->Ok_0@ == decoded_view(record),
{
    let form = classify_compatible_record(&record)?;
    let purge_authority = match form {
        DecodedOwnershipSchema::LegacyV2NoAuthority => false,
        DecodedOwnershipSchema::AuthoritativeV2 => true,
        DecodedOwnershipSchema::LegacyV3Authority => true,
        DecodedOwnershipSchema::CurrentV3 => match record.purge_authority {
            Some(value) => value,
            None => false,
        },
    };
    let plugin_state_root = if purge_authority {
        match record.plugin_state_root {
            Some(root) => root,
            None => FsPath::empty(),
        }
    } else {
        FsPath::empty()
    };
    let rescue_marker_digest = match record.rescue_marker_digest {
        Some(digest) => digest,
        None => String::new(),
    };
    Ok(
        OwnershipRecord {
            schema_version: record.schema_version,
            state: record.state,
            plugin_version: record.plugin_version,
            broker_digest: record.broker_digest,
            pi_package_digest: record.pi_package_digest,
            pi_package_source: record.pi_package_source,
            pi_config_path: record.pi_config_path,
            pi_package_entry: record.pi_package_entry,
            purge_authority,
            plugin_state_root,
            rescue_path: record.rescue_path,
            rescue_marker_digest,
            install_kind: record.install_kind,
            plugin_root: record.plugin_root,
            stable_binary: record.stable_binary,
            ownership_path: record.ownership_path,
            owned_files: record.owned_files,
            last_error: record.last_error,
        },
    )
}

/// A record as a journal embeds it: a record of the current schema that names a
/// state root and a marker digest has the authority that it does not spell out.
pub open spec fn journal_form(record: CompatibleOwnershipRecord) -> CompatibleOwnershipRecord {
    if record.schema_version == OWNERSHIP_SCHEMA && record.purge_authority is None
        && record.plugin_state_root is Some && record.rescue_marker_digest is Some {
        CompatibleOwnershipRecord { purge_authority: Some(true), ..record }
    } else {
        record
    }
}

/// Turns a record that a journal embeds into the record it stands for.
pub fn decode_journal_record(record: CompatibleOwnershipRecord) -> (r: ManagedResult<
    OwnershipRecord,
>)
    ensures
        failure(r) == compatible_failure(journal_form(record)),
        r is Ok ==> r->Ok_0@ == decoded_view(journal_form(record)),
{
    let mut record = record;
    if record.schema_version == OWNERSHIP_SCHEMA && record.purge_authority.is_none()
        && record.plugin_state_root.is_some() && record.rescue_marker_digest.is_some() {
        record.purge_authority = Some(true);
    }
    decode_compatible_record(record)
}

/// A journal decodes a record to what it decodes to anywhere else.
pub proof fn law_journal_decoding_agrees(record: CompatibleOwnershipRecord)
    ensures
        compatible_failure(journal_form(record)) == compatible_failure(record),
        compatible_failure(record) is None ==> decoded_view(journal_form(record)) == decoded_view(
            record,
        ),
{
}

/// A decoded record names a state root exactly where it has purge authority.
pub proof fn law_decoded_authority_names_its_root(record: CompatibleOwnershipRecord)
    requires
        compatible_failure(record) is None,
    ensures
        decoded_view(record).purge_authority == (decoded_view(record).plugin_state_root.len() > 0),
        decoded_view(record).purge_authority ==> digest_ok(
            decoded_view(record).rescue_marker_digest,
        ),
{
}

/// The record of the older authoritative schema rewritten in the current one.
pub open spec fn migrated_v2(prior: RecordView) -> RecordView {
    RecordView { schema_version: OWNERSHIP_SCHEMA, ..prior }
}

/// The second record is the first, an authoritative one of the older schema,
/// with only the schema number brought up to date.
pub open spec fn exact_v2_to_v3(prior: RecordView, current: RecordView) -> bool {
    prior.schema_version == 2 && prior.purge_authority && same_record(migrated_v2(prior), current)
}

/// Whether the second record is the first with only its schema brought up to
/// date.
pub fn exact_schema_v2_to_v3_migration_adjacency(
    prior: &OwnershipRecord,
    current: &OwnershipRecord,
) -> (r: bool)
    ensures
        r == exact_v2_to_v3(prior@, current@),
{
    if prior.schema_version != 2 || !prior.purge_authority || current.schema_version
        != OWNERSHIP_SCHEMA {
        return false;
    }
    let mut expected = prior.copy();
    expected.schema_version = OWNERSHIP_SCHEMA;
    assert(expected@ == migrated_v2(prior@));
    expected.same(current)
}

/// Whether both ends of a transaction are there and the second is the first with
/// only its schema brought up to date.
pub fn authoritative_v2_transaction_endpoints_are_exact_migration(
    prior: Option<&OwnershipRecord>,
    current: Option<&OwnershipRecord>,
) -> (r: bool)
    ensures
        r == (prior is Some && current is Some && exact_v2_to_v3(prior->0@, current->0@)),
{
    match (prior, current) {
        (Some(prior), Some(current)) => exact_schema_v2_to_v3_migration_adjacency(prior, current),
        _ => false,
    }
}

/// A removal is under way from its begin to its end: an installation that is ready,
/// waits for Pi or has failed has none, and one that is removed is through with it.
pub proof fn law_removals_begin_and_end(state: InstallState)
    ensures
        removal_in_progress(state) <==> !(state is Ready || state is PiAdapterPending || state
            is Failed || state is Removed),
{
}

/// Two records say the same just when they are the same but for how their paths are
/// spelled, how the numbers in their entry are written, and how the paths of their files
/// are spelled.
pub proof fn law_records_are_compared_whole(a: RecordView, b: RecordView)
    ensures
        same_record(a, b) <==> {
            &&& b == (RecordView {
                pi_package_source: b.pi_package_source,
                pi_config_path: b.pi_config_path,
                pi_package_entry: b.pi_package_entry,
                plugin_state_root: b.plugin_state_root,
                rescue_path: b.rescue_path,
                plugin_root: b.plugin_root,
                stable_binary: b.stable_binary,
                ownership_path: b.ownership_path,
                owned_files: b.owned_files,
                ..a
            })
            &&& parts(a.pi_package_source) == parts(b.pi_package_source)
            &&& parts(a.pi_config_path) == parts(b.pi_config_path)
            &&& parts(a.plugin_state_root) == parts(b.plugin_state_root)
            &&& parts(a.rescue_path) == parts(b.rescue_path)
            &&& parts(a.plugin_root) == parts(b.plugin_root)
            &&& parts(a.stable_binary) == parts(b.stable_binary)
            &&& parts(a.ownership_path) == parts(b.ownership_path)
            &&& same_json(a.pi_package_entry, b.pi_package_entry)
            &&& a.owned_files.len() == b.owned_files.len()
            &&& forall|i: int|
                0 <= i < a.owned_files.len() ==> parts((#[trigger] a.owned_files[i]).path) == parts(
                    b.owned_files[i].path,
                ) && a.owned_files[i].sha256 == b.owned_files[i].sha256 && a.owned_files[i].mode
                    == b.owned_files[i].mode
        },
{
}

/// The entry for a path is the first one at it, and there is one just when some entry is
/// at it.
pub proof fn law_the_first_entry_counts(files: Seq<OwnedFileView>, path: Seq<u8>, k: int)
    ensures
        0 <= k < files.len() && parts(files[k].path) == parts(path) && (forall|i: int|
            0 <= i < k ==> parts((#[trigger] files[i]).path) != parts(path)) ==> owned_for(
            files,
            path,
        ) == Some(files[k]),
        owned_for(files, path) is None <==> forall|i: int|
            0 <= i < files.len() ==> parts((#[trigger] files[i]).path) != parts(path),
{
    if 0 <= k < files.len() && parts(files[k].path) == parts(path) && (forall|i: int|
        0 <= i < k ==> parts((#[trigger] files[i]).path) != parts(path)) {
        assert forall|i: int| 0 <= i < k implies !same_path(#[trigger] files[i].path, path) by {
            assert(parts((files[i]).path) != parts(path));
        }
        lemma_owned_at(files, path, k);
        assert(same_path(files[k].path, path));
    }
    if owned_for(files, path) is None {
        assert forall|i: int| 0 <= i < files.len() implies parts((#[trigger] files[i]).path)
            != parts(path) by {
            assert(!same_path(files[i].path, path));
        }
    }
}

/// Leaving entries out takes those below a directory, or those at a path, and no others.
pub proof fn law_left_out_entries_are_those_below(
    files: Seq<OwnedFileView>,
    path: Seq<u8>,
    f: OwnedFileView,
)
    ensures
        outside_of(files, path).contains(f) <==> files.contains(f) && !parts(path).is_prefix_of(
            parts(f.path),
        ),
        other_than(files, path).contains(f) <==> files.contains(f) && parts(f.path) != parts(path),
{
    lemma_filter_has(files, |f: OwnedFileView| !path_under(f.path, path), f);
    lemma_filter_has(files, |f: OwnedFileView| !same_path(f.path, path), f);
}

/// A stored record is accepted just where what it says of authority agrees: with
/// authority it names a state root and the digest of a marker; without, it names no
/// state root, and a digest of a marker just in the current schema. A record of the
/// current schema that does not spell its authority out has it.
pub proof fn law_accepted_records_agree_on_authority(record: CompatibleOwnershipRecord)
    ensures
        ({
            let named = record.plugin_state_root is Some && record.plugin_state_root->0@.len() > 0;
            let marked = record.rescue_marker_digest is Some && digest_ok(
                record.rescue_marker_digest->0@,
            );
            let accepted = compatible_failure(record) is None;
            &&& record.schema_version == 3 && record.purge_authority != Some(false) ==> (accepted
                <==> named && marked)
            &&& record.schema_version == 3 && record.purge_authority == Some(false) ==> (accepted
                <==> record.plugin_state_root is None && marked)
            &&& record.schema_version == 2 && record.purge_authority == Some(true) ==> (accepted
                <==> named && marked)
            &&& record.schema_version == 2 && record.purge_authority != Some(true) ==> (accepted
                <==> record.plugin_state_root is None && record.rescue_marker_digest is None)
            &&& record.schema_version != 2 && record.schema_version != 3 ==> !accepted
            &&& accepted ==> (decoded_view(record).purge_authority <==> record.purge_authority
                == Some(true) || (record.schema_version == 3 && record.purge_authority is None))
        }),
{
    match record.purge_authority {
        None => {},
        Some(told) => {
            assert(told || record.purge_authority == Some(false));
            assert(!told || record.purge_authority == Some(true));
        },
    }
}

/// A record is read with every field that is stored; only its authority is told from its
/// form, and a root or a digest that is not stored is empty.
pub proof fn law_records_are_read_whole(record: CompatibleOwnershipRecord)
    requires
        compatible_failure(record) is None,
    ensures
        ({
            let read = decoded_view(record);
            &&& read.schema_version == record.schema_version
            &&& read.state == record.state
            &&& read.plugin_version == record.plugin_version@
            &&& read.broker_digest == record.broker_digest@
            &&& read.pi_package_digest == record.pi_package_digest@
            &&& read.pi_package_source == record.pi_package_source@
            &&& read.pi_config_path == record.pi_config_path@
            &&& read.pi_package_entry == record.pi_package_entry@
            &&& read.plugin_state_root == (if record.plugin_state_root is Some {
                record.plugin_state_root->0@
            } else {
                Seq::empty()
            })
            &&& read.rescue_path == record.rescue_path@
            &&& read.rescue_marker_digest == (if record.rescue_marker_digest is Some {
                record.rescue_marker_digest->0@
            } else {
                Seq::empty()
            })
            &&& read.install_kind == record.install_kind@
            &&& read.plugin_root == record.plugin_root@
            &&& read.stable_binary == record.stable_binary@
            &&& read.ownership_path == record.ownership_path@
            &&& read.owned_files.len() == record.owned_files@.len()
            &&& forall|i: int|
                0 <= i < read.owned_files.len() ==> #[trigger] read.owned_files[i]
                    == record.owned_files@[i]@
            &&& read.last_error is Some == record.last_error is Some
            &&& record.last_error is Some ==> read.last_error->0 == record.last_error->0@
        }),
{
}

/// The journal form of a record changes nothing but an authority that is not spelled
/// out.
pub proof fn law_the_journal_form_spells_the_authority_out(record: CompatibleOwnershipRecord)
    ensures
        record.purge_authority is Some || record.schema_version != 3 ==> journal_form(record)
            == record,
        (CompatibleOwnershipRecord {
            purge_authority: record.purge_authority,
            ..journal_form(record)
        }) == record,
{
}

/// An older record with authority becomes a current one by its schema alone.
pub proof fn law_exact_migrations_change_the_schema_alone(prior: RecordView, current: RecordView)
    ensures
        exact_v2_to_v3(prior, current) <==> (prior.schema_version == 2 && prior.purge_authority
            && current.schema_version == 3 && same_record(
            prior,
            (RecordView { schema_version: 2, ..current }),
        )),
{
}

/// A state is reported by a line of its own.
pub proof fn law_states_are_reported_apart(a: InstallState, b: InstallState)
    ensures
        spec_state_text(a) == spec_state_text(b) ==> a == b,
        spec_state_text(InstallState::Ready) == "ready"@,
        spec_state_text(InstallState::PiAdapterPending) == "Pi adapter pending"@,
        spec_state_text(InstallState::Failed) == "failed"@,
        spec_state_text(InstallState::Removed) == "removed"@,
{
    reveal_strlit("ready");
    reveal_strlit("Pi adapter pending");
    reveal_strlit("failed");
    reveal_strlit("removing");
    reveal_strlit("unregister pending");
    reveal_strlit("unregistering");
    reveal_strlit("finalizing removal");
    reveal_strlit("removed");
    assert("ready"@.len() == 5);
    assert("Pi adapter pending"@[0] == 'P');
    assert("failed"@[0] == 'f' && "failed"@.len() == 6);
    assert("removing"@.len() == 8 && "removing"@[0] == 'r');
    assert("unregister pending"@[0] == 'u' && "unregister pending"@.len() == 18);
    assert("unregistering"@.len() == 13);
    assert("finalizing removal"@[0] == 'f' && "finalizing removal"@.len() == 18);
    assert("removed"@.len() == 7);
}

} // verus!
