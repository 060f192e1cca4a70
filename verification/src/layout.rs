//! What an ownership record must say, and what the files of an installation must
//! be.

use vstd::prelude::*;
use vstd::string::*;
use vstd::utf8::*;
use crate::digest::{digest_ok, sha256_bytes, sha256_text, valid_digest};
use crate::error::{
    fail, failure, failure_text, or_else, outcome, Failure, ManagedError, ManagedResult,
};
use crate::order::{
    lemma_sorted_map, lemma_sorting_keeps_members, location_key, sort_located, sorted_by, SortOrder,
};
use crate::path::{
    check_stored_path, child, join, lemma_parent_shorter, parent, parts, path_text, path_text_failure,
    path_under, same_path, stored_path_failure, FsPath, PathPart,
};
use crate::pathset::{all_parts, ancestors_within, PathSet};
use crate::pi::{entry_allowed, is_allowed_managed_pi_entry};
use crate::record::{
    find_owned, owned_for, InstallState, OwnedFile, OwnedFileView, OwnershipRecord, RecordView,
    OWNERSHIP_SCHEMA,
};
use crate::text::{byte_len, push_decimal, text_eq, utf8};

verus! {

/// The directory that holds what removes an installation by hand.
pub open spec fn rescue_dir(stable: Seq<u8>) -> Seq<u8> {
    child(stable, "rescue"@)
}

/// The notice in the rescue directory.
pub open spec fn rescue_notice(stable: Seq<u8>) -> Seq<u8> {
    child(rescue_dir(stable), "uninstall.sh"@)
}

/// The marker in the rescue directory.
pub open spec fn rescue_marker_file(stable: Seq<u8>) -> Seq<u8> {
    child(rescue_dir(stable), "owner-v1"@)
}

/// The helper that older installations kept in the rescue directory.
pub open spec fn rescue_helper(stable: Seq<u8>) -> Seq<u8> {
    child(rescue_dir(stable), "herdr-a2a-rescue"@)
}

/// The helper in the plugin root.
pub open spec fn helper_path(plugin_root: Seq<u8>) -> Seq<u8> {
    child(plugin_root, "libexec/herdr-a2a-dispatch"@)
}

/// The pointer in the plugin root.
pub open spec fn pointer_path(plugin_root: Seq<u8>) -> Seq<u8> {
    child(plugin_root, "stable-bin-path"@)
}

/// The digest of a pointer to a binary: the path on a line of its own.
pub open spec fn pointer_digest(binary: Seq<u8>) -> Seq<char> {
    sha256_text(binary.push(10))
}

/// The rescue directory.
pub fn rescue_directory(stable_root: &FsPath) -> (r: FsPath)
    ensures
        r@ == rescue_dir(stable_root@),
{
    stable_root.join("rescue")
}

/// The notice in the rescue directory.
pub fn rescue_notice_path(stable_root: &FsPath) -> (r: FsPath)
    ensures
        r@ == rescue_notice(stable_root@),
{
    stable_root.join("rescue").join("uninstall.sh")
}

/// The marker in the rescue directory.
pub fn rescue_marker_path(stable_root: &FsPath) -> (r: FsPath)
    ensures
        r@ == rescue_marker_file(stable_root@),
{
    stable_root.join("rescue").join("owner-v1")
}

/// The helper that older installations kept in the rescue directory.
pub fn rescue_helper_path(stable_root: &FsPath) -> (r: FsPath)
    ensures
        r@ == rescue_helper(stable_root@),
{
    stable_root.join("rescue").join("herdr-a2a-rescue")
}

/// The digest of the pointer to a binary whose path can be stored.
pub fn expected_pointer_digest(binary: &FsPath) -> (r: ManagedResult<String>)
    ensures
        failure(r) == path_text_failure(binary@),
        r is Ok ==> r->Ok_0@ == pointer_digest(binary@) && digest_ok(r->Ok_0@),
{
    match path_text(binary) {
        Ok(_) => {},
        Err(e) => {
            return Err(e);
        },
    }
    let mut line = binary.bytes.clone();
    line.push(10);
    assert(line@ =~= binary@.push(10));
    Ok(sha256_bytes(line.as_slice()))
}

/// How the rescue directory of an installation is laid out.
#[derive(Clone, Copy, Debug, PartialEq, Eq, Structural)]
pub enum RescueLayout {
    SourceNotice,
    LegacyExecutable,
    LegacyHelper,
}

/// The mode of the notice in a layout.
pub open spec fn notice_mode_of(layout: RescueLayout) -> u32 {
    match layout {
        RescueLayout::SourceNotice => 0o600,
        _ => 0o700,
    }
}

impl RescueLayout {
    /// The mode of the notice.
    pub fn notice_mode(self) -> (r: u32)
        ensures
            r == notice_mode_of(self),
    {
        match self {
            RescueLayout::SourceNotice => 0o600,
            RescueLayout::LegacyExecutable | RescueLayout::LegacyHelper => 0o700,
        }
    }
}

/// The layout that a record describes, or why it describes none.
pub open spec fn layout_of(record: RecordView, stable: Seq<u8>) -> Result<RescueLayout, Failure> {
    let inexact = (
        "ownership_record_invalid"@,
        "ownership rescue layout is not an exact supported version"@,
    );
    match owned_for(record.owned_files, record.rescue_path) {
        None => Err(("ownership_record_invalid"@, "ownership record has no rescue entry"@)),
        Some(rescue) => match owned_for(record.owned_files, rescue_helper(stable)) {
            None => if rescue.mode == 0o600 {
                Ok(RescueLayout::SourceNotice)
            } else if rescue.mode == 0o700 {
                Ok(RescueLayout::LegacyExecutable)
            } else {
                Err(inexact)
            },
            Some(helper) => if rescue.mode == 0o700 && record.schema_version == OWNERSHIP_SCHEMA
                && helper.mode == 0o700 && helper.sha256 == record.broker_digest {
                Ok(RescueLayout::LegacyHelper)
            } else {
                Err(inexact)
            },
        },
    }
}

/// The layout that a record describes.
pub fn rescue_layout(record: &OwnershipRecord, stable_root: &FsPath) -> (r: ManagedResult<
    RescueLayout,
>)
    ensures
        match r {
            Ok(v) => layout_of(record@, stable_root@) == Ok::<RescueLayout, Failure>(v),
            Err(e) => layout_of(record@, stable_root@) == Err::<RescueLayout, Failure>(e@),
        },
{
    let Some(rescue) = find_owned(&record.owned_files, &record.rescue_path) else {
        return fail("ownership_record_invalid", "ownership record has no rescue entry");
    };
    let helper_file = rescue_helper_path(stable_root);
    match find_owned(&record.owned_files, &helper_file) {
        None => {
            if rescue.mode == 0o600 {
                return Ok(RescueLayout::SourceNotice);
            }
            if rescue.mode == 0o700 {
                return Ok(RescueLayout::LegacyExecutable);
            }
        },
        Some(helper) => {
            if rescue.mode == 0o700 && record.schema_version == OWNERSHIP_SCHEMA && helper.mode
                == 0o700 && text_eq(helper.sha256.as_str(), record.broker_digest.as_str()) {
                return Ok(RescueLayout::LegacyHelper);
            }
        },
    }
    fail("ownership_record_invalid", "ownership rescue layout is not an exact supported version")
}

/// The kinds of installation.
pub open spec fn known_kind(kind: Seq<char>) -> bool {
    kind == "managed"@ || kind == "linked-dev"@
}

/// Whether a text names a kind of installation.
pub fn is_known_kind(kind: &str) -> (r: bool)
    ensures
        r == known_kind(kind@),
{
    text_eq(kind, "managed") || text_eq(kind, "linked-dev")
}

/// The schema and the fixed paths of a record are as they must be.
pub open spec fn record_head_ok(record: RecordView, stable: Seq<u8>, plugin_root: Seq<u8>) -> bool {
    &&& (record.schema_version == 2 || record.schema_version == OWNERSHIP_SCHEMA)
    &&& same_path(record.ownership_path, child(stable, "ownership.json"@))
    &&& same_path(record.rescue_path, child(stable, "rescue/uninstall.sh"@))
    &&& same_path(record.plugin_root, plugin_root)
}

/// The values of a record are in shape.
pub open spec fn record_values_ok(record: RecordView) -> bool {
    &&& known_kind(record.install_kind)
    &&& 0 < utf8(record.plugin_version).len() <= 128
    &&& digest_ok(record.broker_digest)
    &&& digest_ok(record.pi_package_digest)
    &&& (record.schema_version == OWNERSHIP_SCHEMA || record.purge_authority) ==> digest_ok(
        record.rescue_marker_digest,
    )
    &&& record.purge_authority == (record.plugin_state_root.len() > 0)
}

/// What an entry of a record is there for.
pub enum OwnedRole {
    Binary,
    Helper,
    Pointer,
    Package,
    Notice,
    RescueHelper,
    Marker,
    Unrelated,
}

/// What an entry of a record is there for.
pub open spec fn role_of(
    record: RecordView,
    stable: Seq<u8>,
    plugin_root: Seq<u8>,
    layout: RescueLayout,
    f: OwnedFileView,
) -> OwnedRole {
    if same_path(f.path, record.stable_binary) {
        OwnedRole::Binary
    } else if same_path(f.path, helper_path(plugin_root)) {
        OwnedRole::Helper
    } else if same_path(f.path, pointer_path(plugin_root)) {
        OwnedRole::Pointer
    } else if path_under(f.path, record.pi_package_source) && f.mode == 0o600 {
        OwnedRole::Package
    } else if same_path(f.path, record.rescue_path) && f.mode == notice_mode_of(layout) {
        OwnedRole::Notice
    } else if same_path(f.path, rescue_helper(stable)) && layout == RescueLayout::LegacyHelper
        && f.mode == 0o700 && f.sha256 == record.broker_digest {
        OwnedRole::RescueHelper
    } else if same_path(f.path, rescue_marker_file(stable)) && f.mode == 0o600 {
        OwnedRole::Marker
    } else {
        OwnedRole::Unrelated
    }
}

/// An entry is what its role asks for.
pub open spec fn fills_role(record: RecordView, role: OwnedRole, f: OwnedFileView) -> bool {
    match role {
        OwnedRole::Binary | OwnedRole::Helper => f.mode == 0o700 && f.sha256
            == record.broker_digest,
        OwnedRole::Pointer => f.mode == 0o600 && f.sha256 == pointer_digest(record.stable_binary),
        OwnedRole::Package => same_path(
            f.path,
            child(record.pi_package_source, "package.json"@),
        ),
        OwnedRole::Notice | OwnedRole::RescueHelper => true,
        OwnedRole::Marker => (record.schema_version == 2 && !record.purge_authority) || f.sha256
            == record.rescue_marker_digest,
        OwnedRole::Unrelated => false,
    }
}

/// A role is filled by one of the first `n` entries.
pub open spec fn role_filled(
    record: RecordView,
    stable: Seq<u8>,
    plugin_root: Seq<u8>,
    layout: RescueLayout,
    role: OwnedRole,
    n: int,
) -> bool {
    exists|i: int|
        0 <= i < n && role_of(
            record,
            stable,
            plugin_root,
            layout,
            #[trigger] record.owned_files[i],
        ) == role && fills_role(record, role, record.owned_files[i])
}

/// The component lists of some entries.
pub open spec fn owned_parts(files: Seq<OwnedFileView>) -> Seq<Seq<PathPart>> {
    files.map_values(|f: OwnedFileView| parts(f.path))
}

/// What is wrong with the first `n` entries of a record.
pub open spec fn owned_failure(
    record: RecordView,
    stable: Seq<u8>,
    plugin_root: Seq<u8>,
    layout: RescueLayout,
    n: int,
) -> Option<Failure>
    decreases n,
{
    if n <= 0 {
        None
    } else {
        let f = record.owned_files[n - 1];
        or_else(
            owned_failure(record, stable, plugin_root, layout, n - 1),
            or_else(
                stored_path_failure(f.path, "transaction owned path"@),
                if owned_parts(record.owned_files.take(n - 1)).contains(parts(f.path))
                    || !digest_ok(f.sha256) {
                    Some(
                        (
                            "recovery_needed"@,
                            "transaction owned files are not exact and unique"@,
                        ),
                    )
                } else if role_of(record, stable, plugin_root, layout, f) == OwnedRole::Unrelated {
                    Some(("recovery_needed"@, "transaction record owns an unrelated path"@))
                } else {
                    None
                },
            ),
        )
    }
}

/// Every role that a layout asks for is filled.
pub open spec fn inventory_complete(
    record: RecordView,
    stable: Seq<u8>,
    plugin_root: Seq<u8>,
    layout: RescueLayout,
) -> bool {
    let n = record.owned_files.len() as int;
    &&& role_filled(record, stable, plugin_root, layout, OwnedRole::Binary, n)
    &&& role_filled(record, stable, plugin_root, layout, OwnedRole::Helper, n)
    &&& role_filled(record, stable, plugin_root, layout, OwnedRole::Pointer, n)
    &&& role_filled(record, stable, plugin_root, layout, OwnedRole::Package, n)
    &&& role_filled(record, stable, plugin_root, layout, OwnedRole::Notice, n)
    &&& layout == RescueLayout::LegacyHelper ==> role_filled(
        record,
        stable,
        plugin_root,
        layout,
        OwnedRole::RescueHelper,
        n,
    )
    &&& role_filled(record, stable, plugin_root, layout, OwnedRole::Marker, n)
}

/// What is wrong with the entries of a record.
pub open spec fn inventory_failure(
    record: RecordView,
    stable: Seq<u8>,
    plugin_root: Seq<u8>,
    layout: RescueLayout,
) -> Option<Failure> {
    or_else(
        owned_failure(record, stable, plugin_root, layout, record.owned_files.len() as int),
        if inventory_complete(record, stable, plugin_root, layout) {
            None
        } else {
            Some(("recovery_needed"@, "transaction record owned inventory is incomplete"@))
        },
    )
}

/// What is wrong with the paths that a record names.
pub open spec fn record_paths_failure(
    record: RecordView,
    stable: Seq<u8>,
    plugin_root: Seq<u8>,
) -> Option<Failure> {
    let label = "transaction record path"@;
    or_else(
        stored_path_failure(stable, label),
        or_else(
            stored_path_failure(plugin_root, label),
            or_else(
                stored_path_failure(record.stable_binary, label),
                or_else(
                    stored_path_failure(record.pi_package_source, label),
                    or_else(
                        stored_path_failure(record.pi_config_path, label),
                        or_else(
                            stored_path_failure(record.ownership_path, label),
                            or_else(
                                stored_path_failure(record.rescue_path, label),
                                if record.purge_authority {
                                    stored_path_failure(record.plugin_state_root, label)
                                } else {
                                    None
                                },
                            ),
                        ),
                    ),
                ),
            ),
        ),
    )
}

/// The binary and the package of a record lie in one generation directory.
pub open spec fn generation_layout_ok(record: RecordView, generation: Seq<u8>, stable: Seq<u8>) -> bool {
    &&& parent(generation) is Some
    &&& same_path(parent(generation)->0, child(stable, "generations"@))
    &&& same_path(record.stable_binary, child(generation, "bin/herdr-a2a"@))
}

/// What is wrong with the way in which the paths of a record hang together.
pub open spec fn relationships_failure(
    record: RecordView,
    generation: Seq<u8>,
    stable: Seq<u8>,
) -> Option<Failure> {
    let refused = Some(
        ("recovery_needed"@, "transaction record path relationships are invalid"@),
    );
    if !generation_layout_ok(record, generation, stable) || !same_path(
        record.pi_package_source,
        child(generation, "pi"@),
    ) {
        refused
    } else {
        match entry_allowed(
            record.pi_package_entry,
            record.pi_config_path,
            record.pi_package_source,
        ) {
            Err(f) => Some(f),
            Ok(allowed) => if allowed {
                None
            } else {
                refused
            },
        }
    }
}

/// What is wrong with a record, whatever is on disk. The settings path is where
/// the settings of Pi must be, or why that is not known.
pub open spec fn record_failure(
    record: RecordView,
    stable: Seq<u8>,
    plugin_root: Seq<u8>,
    settings: Result<Seq<u8>, Failure>,
) -> Option<Failure> {
    let invalid = Some(("recovery_needed"@, "transaction record semantics are invalid"@));
    if !record_head_ok(record, stable, plugin_root) {
        invalid
    } else {
        match settings {
            Err(f) => Some(f),
            Ok(settings) => if !same_path(record.pi_config_path, settings) || !record_values_ok(
                record,
            ) {
                invalid
            } else {
                or_else(
                    record_paths_failure(record, stable, plugin_root),
                    match parent(record.pi_package_source) {
                        None => Some(
                            ("recovery_needed"@, "transaction record has no generation"@),
                        ),
                        Some(generation) => match layout_of(record, stable) {
                            Err(f) => Some(("recovery_needed"@, failure_text(f))),
                            Ok(layout) => or_else(
                                relationships_failure(record, generation, stable),
                                inventory_failure(record, stable, plugin_root, layout),
                            ),
                        },
                    },
                )
            },
        }
    }
}

fn check_record_paths(record: &OwnershipRecord, stable_root: &FsPath, plugin_root: &FsPath) -> (r:
    ManagedResult<()>)
    ensures
        failure(r) == record_paths_failure(record@, stable_root@, plugin_root@),
{
    check_stored_path(stable_root, "transaction record path")?;
    check_stored_path(plugin_root, "transaction record path")?;
    check_stored_path(&record.stable_binary, "transaction record path")?;
    check_stored_path(&record.pi_package_source, "transaction record path")?;
    check_stored_path(&record.pi_config_path, "transaction record path")?;
    check_stored_path(&record.ownership_path, "transaction record path")?;
    check_stored_path(&record.rescue_path, "transaction record path")?;
    if record.purge_authority {
        check_stored_path(&record.plugin_state_root, "transaction record path")?;
    }
    Ok(())
}

fn classify_owned(
    record: &OwnershipRecord,
    stable_root: &FsPath,
    plugin_root: &FsPath,
    layout: RescueLayout,
    f: &OwnedFile,
) -> (r: OwnedRole)
    ensures
        r == role_of(record@, stable_root@, plugin_root@, layout, f@),
{
    if f.path.same(&record.stable_binary) {
        OwnedRole::Binary
    } else if f.path.same(&plugin_root.join("libexec/herdr-a2a-dispatch")) {
        OwnedRole::Helper
    } else if f.path.same(&plugin_root.join("stable-bin-path")) {
        OwnedRole::Pointer
    } else if f.mode == 0o600 && f.path.starts_with(&record.pi_package_source) {
        OwnedRole::Package
    } else if f.mode == layout.notice_mode() && f.path.same(&record.rescue_path) {
        OwnedRole::Notice
    } else if layout == RescueLayout::LegacyHelper && f.mode == 0o700 && text_eq(
        f.sha256.as_str(),
        record.broker_digest.as_str(),
    ) && f.path.same(&rescue_helper_path(stable_root)) {
        OwnedRole::RescueHelper
    } else if f.mode == 0o600 && f.path.same(&rescue_marker_path(stable_root)) {
        OwnedRole::Marker
    } else {
        OwnedRole::Unrelated
    }
}

fn role_is_filled(
    record: &OwnershipRecord,
    role: &OwnedRole,
    f: &OwnedFile,
    pointer: &str,
) -> (r: bool)
    requires
        pointer@ == pointer_digest(record.stable_binary@),
    ensures
        r == fills_role(record@, *role, f@),
{
    match role {
        OwnedRole::Binary | OwnedRole::Helper => f.mode == 0o700 && text_eq(
            f.sha256.as_str(),
            record.broker_digest.as_str(),
        ),
        OwnedRole::Pointer => f.mode == 0o600 && text_eq(f.sha256.as_str(), pointer),
        OwnedRole::Package => f.path.same(&record.pi_package_source.join("package.json")),
        OwnedRole::Notice | OwnedRole::RescueHelper => true,
        OwnedRole::Marker => (record.schema_version == 2 && !record.purge_authority) || text_eq(
            f.sha256.as_str(),
            record.rescue_marker_digest.as_str(),
        ),
        OwnedRole::Unrelated => false,
    }
}

proof fn lemma_owned_failure_stays(
    record: RecordView,
    stable: Seq<u8>,
    plugin_root: Seq<u8>,
    layout: RescueLayout,
    n: int,
    m: int,
)
    requires
        0 <= n <= m <= record.owned_files.len(),
        owned_failure(record, stable, plugin_root, layout, n) is Some,
    ensures
        owned_failure(record, stable, plugin_root, layout, m) == owned_failure(
            record,
            stable,
            plugin_root,
            layout,
            n,
        ),
    decreases m - n,
{
    if n < m {
        lemma_owned_failure_stays(record, stable, plugin_root, layout, n, m - 1);
    }
}

proof fn lemma_role_filled_step(
    record: RecordView,
    stable: Seq<u8>,
    plugin_root: Seq<u8>,
    layout: RescueLayout,
    role: OwnedRole,
    n: int,
)
    requires
        0 <= n < record.owned_files.len(),
    ensures
        role_filled(record, stable, plugin_root, layout, role, n + 1) == (role_filled(
            record,
            stable,
            plugin_root,
            layout,
            role,
            n,
        ) || (role_of(record, stable, plugin_root, layout, record.owned_files[n]) == role
            && fills_role(record, role, record.owned_files[n]))),
{
}

/// Checks the entries of a record: each is stored properly, listed once and has a
/// role, and every role that the layout asks for is filled.
fn check_inventory(
    record: &OwnershipRecord,
    stable_root: &FsPath,
    plugin_root: &FsPath,
    layout: RescueLayout,
    pointer: &str,
) -> (r: ManagedResult<()>)
    requires
        pointer@ == pointer_digest(record.stable_binary@),
    ensures
        failure(r) == inventory_failure(record@, stable_root@, plugin_root@, layout),
{
    let ghost v = record@;
    let ghost s = stable_root@;
    let ghost p = plugin_root@;
    let mut seen = PathSet::new();
    let mut binary = false;
    let mut helper = false;
    let mut pointer_found = false;
    let mut package = false;
    let mut notice = false;
    let mut rescue_helper_found = false;
    let mut marker = false;
    let mut i: usize = 0;
    assert(seen@ =~= owned_parts(v.owned_files.take(0)));
    while i < record.owned_files.len()
        invariant
            i <= record.owned_files.len(),
            v == record@,
            s == stable_root@,
            p == plugin_root@,
            pointer@ == pointer_digest(record.stable_binary@),
            seen@ == owned_parts(v.owned_files.take(i as int)),
            owned_failure(v, s, p, layout, i as int) is None,
            binary == role_filled(v, s, p, layout, OwnedRole::Binary, i as int),
            helper == role_filled(v, s, p, layout, OwnedRole::Helper, i as int),
            pointer_found == role_filled(v, s, p, layout, OwnedRole::Pointer, i as int),
            package == role_filled(v, s, p, layout, OwnedRole::Package, i as int),
            notice == role_filled(v, s, p, layout, OwnedRole::Notice, i as int),
            rescue_helper_found == role_filled(
                v,
                s,
                p,
                layout,
                OwnedRole::RescueHelper,
                i as int,
            ),
            marker == role_filled(v, s, p, layout, OwnedRole::Marker, i as int),
        decreases record.owned_files.len() - i,
    {
        let owned = &record.owned_files[i];
        proof {
            assert(v.owned_files[i as int] == owned@);
            assert(owned_parts(v.owned_files.take(i + 1)) =~= owned_parts(
                v.owned_files.take(i as int),
            ).push(parts(owned.path@)));
            assert(v.owned_files.len() == record.owned_files.len());
            if owned_failure(v, s, p, layout, i + 1) is Some {
                lemma_owned_failure_stays(v, s, p, layout, i + 1, v.owned_files.len() as int);
            }
            lemma_role_filled_step(v, s, p, layout, OwnedRole::Binary, i as int);
            lemma_role_filled_step(v, s, p, layout, OwnedRole::Helper, i as int);
            lemma_role_filled_step(v, s, p, layout, OwnedRole::Pointer, i as int);
            lemma_role_filled_step(v, s, p, layout, OwnedRole::Package, i as int);
            lemma_role_filled_step(v, s, p, layout, OwnedRole::Notice, i as int);
            lemma_role_filled_step(v, s, p, layout, OwnedRole::RescueHelper, i as int);
            lemma_role_filled_step(v, s, p, layout, OwnedRole::Marker, i as int);
        }
        check_stored_path(&owned.path, "transaction owned path")?;
        if !seen.insert(&owned.path) || !valid_digest(owned.sha256.as_str()) {
            return fail("recovery_needed", "transaction owned files are not exact and unique");
        }
        let role = classify_owned(record, stable_root, plugin_root, layout, owned);
        let filled = role_is_filled(record, &role, owned, pointer);
        match role {
            OwnedRole::Binary => {
                binary = binary || filled;
            },
            OwnedRole::Helper => {
                helper = helper || filled;
            },
            OwnedRole::Pointer => {
                pointer_found = pointer_found || filled;
            },
            OwnedRole::Package => {
                package = package || filled;
            },
            OwnedRole::Notice => {
                notice = notice || filled;
            },
            OwnedRole::RescueHelper => {
                rescue_helper_found = rescue_helper_found || filled;
            },
            OwnedRole::Marker => {
                marker = marker || filled;
            },
            OwnedRole::Unrelated => {
                return fail("recovery_needed", "transaction record owns an unrelated path");
            },
        }
        i += 1;
    }
    assert(v.owned_files.len() == record.owned_files.len());
    if !binary || !helper || !pointer_found || !package || !notice || (layout
        == RescueLayout::LegacyHelper && !rescue_helper_found) || !marker {
        return fail("recovery_needed", "transaction record owned inventory is incomplete");
    }
    Ok(())
}

fn record_head_is_ok(record: &OwnershipRecord, stable_root: &FsPath, plugin_root: &FsPath) -> (r:
    bool)
    ensures
        r == record_head_ok(record@, stable_root@, plugin_root@),
{
    (record.schema_version == 2 || record.schema_version == OWNERSHIP_SCHEMA)
        && record.ownership_path.same(&stable_root.join("ownership.json"))
        && record.rescue_path.same(&stable_root.join("rescue/uninstall.sh"))
        && record.plugin_root.same(plugin_root)
}

fn record_values_are_ok(record: &OwnershipRecord) -> (r: bool)
    ensures
        r == record_values_ok(record@),
{
    let version: usize = byte_len(record.plugin_version.as_str());
    is_known_kind(record.install_kind.as_str()) && version > 0 && version <= 128 && valid_digest(
        record.broker_digest.as_str(),
    ) && valid_digest(record.pi_package_digest.as_str()) && (!(record.schema_version
        == OWNERSHIP_SCHEMA || record.purge_authority) || valid_digest(
        record.rescue_marker_digest.as_str(),
    )) && record.purge_authority == !record.plugin_state_root.is_empty()
}

fn generation_layout_is_ok(record: &OwnershipRecord, generation: &FsPath, stable_root: &FsPath) -> (r:
    bool)
    ensures
        r == generation_layout_ok(record@, generation@, stable_root@),
{
    match generation.parent() {
        Some(above) => above.same(&stable_root.join("generations")) && record.stable_binary.same(
            &generation.join("bin/herdr-a2a"),
        ),
        None => false,
    }
}

/// A record in another state, with another error or none.
pub open spec fn restated(
    record: RecordView,
    state: InstallState,
    last_error: Option<Seq<char>>,
) -> RecordView {
    RecordView { state, last_error, ..record }
}

proof fn lemma_restated_entries(
    record: RecordView,
    state: InstallState,
    last_error: Option<Seq<char>>,
    stable: Seq<u8>,
    plugin_root: Seq<u8>,
    layout: RescueLayout,
    n: int,
)
    requires
        0 <= n <= record.owned_files.len(),
    ensures
        owned_failure(restated(record, state, last_error), stable, plugin_root, layout, n)
            == owned_failure(record, stable, plugin_root, layout, n),
        forall|role: OwnedRole| #[trigger]
            role_filled(
                restated(record, state, last_error),
                stable,
                plugin_root,
                layout,
                role,
                n,
            ) == role_filled(record, stable, plugin_root, layout, role, n),
    decreases n,
{
    let other = restated(record, state, last_error);
    if n > 0 {
        lemma_restated_entries(record, state, last_error, stable, plugin_root, layout, n - 1);
        let f = record.owned_files[n - 1];
        assert(role_of(other, stable, plugin_root, layout, f) == role_of(
            record,
            stable,
            plugin_root,
            layout,
            f,
        ));
    }
    assert forall|role: OwnedRole| #[trigger]
        role_filled(other, stable, plugin_root, layout, role, n) == role_filled(
            record,
            stable,
            plugin_root,
            layout,
            role,
            n,
        ) by {
        if n > 0 {
            lemma_role_filled_step(record, stable, plugin_root, layout, role, n - 1);
            lemma_role_filled_step(other, stable, plugin_root, layout, role, n - 1);
        }
    }
}

/// Whether a record is accepted does not depend on its state: what a removal or a
/// repair marks stays accepted.
pub proof fn law_marking_keeps_a_record_accepted(
    record: RecordView,
    state: InstallState,
    last_error: Option<Seq<char>>,
    stable: Seq<u8>,
    plugin_root: Seq<u8>,
    settings: Result<Seq<u8>, Failure>,
)
    ensures
        record_failure(restated(record, state, last_error), stable, plugin_root, settings)
            == record_failure(record, stable, plugin_root, settings),
{
    let other = restated(record, state, last_error);
    assert(record_paths_failure(other, stable, plugin_root) == record_paths_failure(
        record,
        stable,
        plugin_root,
    ));
    assert(layout_of(other, stable) == layout_of(record, stable));
    if layout_of(record, stable) is Ok {
        let layout = layout_of(record, stable)->Ok_0;
        let n = record.owned_files.len() as int;
        lemma_restated_entries(record, state, last_error, stable, plugin_root, layout, n);
        assert(role_filled(other, stable, plugin_root, layout, OwnedRole::Binary, n)
            == role_filled(record, stable, plugin_root, layout, OwnedRole::Binary, n));
        assert(inventory_failure(other, stable, plugin_root, layout) == inventory_failure(
            record,
            stable,
            plugin_root,
            layout,
        ));
    }
    if parent(record.pi_package_source) is Some {
        let generation = parent(record.pi_package_source)->0;
        assert(relationships_failure(other, generation, stable) == relationships_failure(
            record,
            generation,
            stable,
        ));
    }
}

/// Checks a record, whatever is on disk.
pub fn validate_record_semantics(
    record: &OwnershipRecord,
    stable_root: &FsPath,
    plugin_root: &FsPath,
    pi_settings: &ManagedResult<FsPath>,
) -> (r: ManagedResult<()>)
    ensures
        failure(r) == record_failure(record@, stable_root@, plugin_root@, outcome(*pi_settings)),
{
    if !record_head_is_ok(record, stable_root, plugin_root) {
        return fail("recovery_needed", "transaction record semantics are invalid");
    }
    let settings = match pi_settings {
        Ok(settings) => settings,
        Err(e) => {
            return Err(e.copy());
        },
    };
    if !record.pi_config_path.same(settings) || !record_values_are_ok(record) {
        return fail("recovery_needed", "transaction record semantics are invalid");
    }
    check_record_paths(record, stable_root, plugin_root)?;
    let Some(generation) = record.pi_package_source.parent() else {
        return fail("recovery_needed", "transaction record has no generation");
    };
    let layout = match rescue_layout(record, stable_root) {
        Ok(layout) => layout,
        Err(e) => {
            return Err(e.recode("recovery_needed"));
        },
    };
    if !generation_layout_is_ok(record, &generation, stable_root)
        || !record.pi_package_source.same(&generation.join("pi")) {
        return fail("recovery_needed", "transaction record path relationships are invalid");
    }
    let allowed = is_allowed_managed_pi_entry(
        &record.pi_package_entry,
        &record.pi_config_path,
        &record.pi_package_source,
    )?;
    if !allowed {
        return fail("recovery_needed", "transaction record path relationships are invalid");
    }
    match expected_pointer_digest(&record.stable_binary) {
        Ok(pointer) => check_inventory(record, stable_root, plugin_root, layout, pointer.as_str()),
        Err(e) => Err(e),
    }
}

/// The directories above some files that lie at or below one, file by file.
pub open spec fn all_ancestors(files: Seq<OwnedFileView>, base: Seq<u8>) -> Seq<Seq<u8>>
    decreases files.len(),
{
    if files.len() == 0 {
        Seq::empty()
    } else {
        all_ancestors(files.drop_last(), base) + ancestors_within(files.last().path, base)
    }
}

/// Paths without those whose components came before.
pub open spec fn distinct(paths: Seq<Seq<u8>>) -> Seq<Seq<u8>>
    decreases paths.len(),
{
    if paths.len() == 0 {
        paths
    } else {
        let before = distinct(paths.drop_last());
        if all_parts(before).contains(parts(paths.last())) {
            before
        } else {
            before.push(paths.last())
        }
    }
}

/// A path as its own key for sorting.
pub open spec fn itself() -> spec_fn(Seq<u8>) -> Seq<u8> {
    |p: Seq<u8>| p
}

/// The directories that a removal has to empty: those of the generation, the
/// rescue directory and the helper's, each once, in the order of their paths.
pub open spec fn removal_dirs(record: RecordView, stable: Seq<u8>) -> Result<Seq<Seq<u8>>, Failure> {
    match parent(record.pi_package_source) {
        None => Err(("ownership_record_missing"@, "managed generation root is absent"@)),
        Some(generation) => Ok(
            sorted_by(
                SortOrder::ByPath,
                distinct(
                    seq![generation, rescue_dir(stable), child(record.plugin_root, "libexec"@)]
                        + all_ancestors(record.owned_files, generation),
                ),
                itself(),
            ),
        ),
    }
}

/// The paths that some values stand for.
pub open spec fn path_views(paths: Seq<FsPath>) -> Seq<Seq<u8>> {
    paths.map_values(|p: FsPath| p@)
}

/// Paths that grow one by one, each kept where its components are new.
pub(crate) struct DistinctPaths {
    pub(crate) seen: PathSet,
    pub(crate) kept: Vec<FsPath>,
    pub(crate) all: Ghost<Seq<Seq<u8>>>,
}

impl DistinctPaths {
    pub(crate) open spec fn wf(&self) -> bool {
        path_views(self.kept@) == distinct(self.all@) && self.seen@ == all_parts(
            path_views(self.kept@),
        )
    }

    pub(crate) fn new() -> (r: DistinctPaths)
        ensures
            r.wf(),
            r.all@ == Seq::<Seq<u8>>::empty(),
    {
        let r = DistinctPaths {
            seen: PathSet::new(),
            kept: Vec::new(),
            all: Ghost(Seq::empty()),
        };
        assert(path_views(r.kept@) =~= distinct(r.all@));
        assert(r.seen@ =~= all_parts(path_views(r.kept@)));
        r
    }

    pub(crate) fn add(&mut self, path: FsPath)
        requires
            old(self).wf(),
        ensures
            final(self).wf(),
            final(self).all@ == old(self).all@.push(path@),
    {
        let ghost before = path_views(self.kept@);
        let ghost grown = self.all@.push(path@);
        assert(grown.drop_last() =~= self.all@);
        if self.seen.insert(&path) {
            let ghost bytes = path@;
            self.kept.push(path);
            assert(path_views(self.kept@) =~= before.push(bytes));
            assert(all_parts(path_views(self.kept@)) =~= all_parts(before).push(parts(bytes)));
        }
        self.all = Ghost(grown);
    }
}

/// The directories that a removal has to empty, in the order of their paths.
pub fn removal_directories(record: &OwnershipRecord, stable_root: &FsPath) -> (r: ManagedResult<
    Vec<FsPath>,
>)
    ensures
        match r {
            Ok(v) => removal_dirs(record@, stable_root@) == Ok::<Seq<Seq<u8>>, Failure>(
                path_views(v@),
            ),
            Err(e) => removal_dirs(record@, stable_root@) == Err::<Seq<Seq<u8>>, Failure>(e@),
        },
{
    let Some(generation) = record.pi_package_source.parent() else {
        return fail("ownership_record_missing", "managed generation root is absent");
    };
    let ghost files = record@.owned_files;
    let mut dirs = DistinctPaths::new();
    dirs.add(generation.copy());
    dirs.add(rescue_directory(stable_root));
    dirs.add(record.plugin_root.join("libexec"));
    let ghost fixed = seq![
        generation@,
        rescue_dir(stable_root@),
        child(record.plugin_root@, "libexec"@),
    ];
    assert(dirs.all@ =~= fixed);
    let mut i: usize = 0;
    assert(dirs.all@ =~= fixed + all_ancestors(files.take(0), generation@));
    while i < record.owned_files.len()
        invariant
            i <= record.owned_files.len(),
            files == record@.owned_files,
            dirs.wf(),
            dirs.all@ == fixed + all_ancestors(files.take(i as int), generation@),
        decreases record.owned_files.len() - i,
    {
        let ghost start = dirs.all@;
        let ghost path = record.owned_files@[i as int].path@;
        assert(files[i as int] == record.owned_files@[i as int]@);
        assert(files.take(i + 1).drop_last() =~= files.take(i as int));
        let mut next = record.owned_files[i].path.parent();
        let ghost mut at = path;
        assert(dirs.all@ + ancestors_within(at, generation@) =~= start + ancestors_within(
            path,
            generation@,
        ));
        loop
            invariant
                dirs.wf(),
                next is Some == parent(at) is Some,
                next is Some ==> next->0@ == parent(at)->0,
                dirs.all@ + ancestors_within(at, generation@) == start + ancestors_within(
                    path,
                    generation@,
                ),
            ensures
                dirs.wf(),
                dirs.all@ == start + ancestors_within(path, generation@),
            decreases at.len(),
        {
            proof {
                lemma_parent_shorter(at);
            }
            match next {
                None => {
                    assert(dirs.all@ + Seq::<Seq<u8>>::empty() =~= dirs.all@);
                    break;
                },
                Some(directory) => {
                    if !directory.starts_with(&generation) {
                        assert(dirs.all@ + Seq::<Seq<u8>>::empty() =~= dirs.all@);
                        break;
                    }
                    next = directory.parent();
                    let ghost here = directory@;
                    let ghost before = dirs.all@;
                    dirs.add(directory);
                    proof {
                        assert(before + (seq![here] + ancestors_within(here, generation@))
                            =~= before.push(here) + ancestors_within(here, generation@));
                        at = here;
                    }
                },
            }
        }
        assert(files.take(i + 1).last().path == path);
        assert(dirs.all@ =~= fixed + all_ancestors(files.take(i + 1), generation@));
        i += 1;
    }
    assert(files.take(i as int) =~= files);
    let kept = dirs.kept;
    proof {
        lemma_sorted_map(
            SortOrder::ByPath,
            kept@,
            |p: FsPath| p@,
            location_key::<FsPath>(),
            itself(),
        );
    }
    Ok(sort_located(SortOrder::ByPath, kept))
}

/// The first of some paths that cannot be stored as text.
pub open spec fn texts_failure(paths: Seq<Seq<u8>>) -> Option<Failure>
    decreases paths.len(),
{
    if paths.len() == 0 {
        None
    } else {
        or_else(texts_failure(paths.drop_last()), path_text_failure(paths.last()))
    }
}

proof fn lemma_texts_failure_stays(paths: Seq<Seq<u8>>, n: int)
    requires
        0 <= n <= paths.len(),
        texts_failure(paths.take(n)) is Some,
    ensures
        texts_failure(paths) == texts_failure(paths.take(n)),
    decreases paths.len() - n,
{
    if n == paths.len() {
        assert(paths.take(n) =~= paths);
    } else {
        assert(paths.take(n + 1).drop_last() =~= paths.take(n));
        lemma_texts_failure_stays(paths, n + 1);
    }
}

/// The line of a marker for one entry.
pub open spec fn owned_line(f: OwnedFileView) -> Seq<char> {
    "owned="@ + decimal_text(f.mode) + "|"@ + f.sha256 + "|"@ + decode_utf8(f.path) + "\n"@
}

/// A mode in decimal digits.
pub open spec fn decimal_text(mode: u32) -> Seq<char> {
    crate::text::decimal(mode as nat)
}

/// The lines of a marker for some entries.
pub open spec fn owned_lines(files: Seq<OwnedFileView>) -> Seq<char>
    decreases files.len(),
{
    if files.len() == 0 {
        Seq::empty()
    } else {
        owned_lines(files.drop_last()) + owned_line(files.last())
    }
}

/// The lines of a marker for some directories.
pub open spec fn dir_lines(dirs: Seq<Seq<u8>>) -> Seq<char>
    decreases dirs.len(),
{
    if dirs.len() == 0 {
        Seq::empty()
    } else {
        dir_lines(dirs.drop_last()) + ("dir="@ + decode_utf8(dirs.last()) + "\n"@)
    }
}

/// The lines of a marker that name the installation.
pub open spec fn marker_head(record: RecordView, stable: Seq<u8>) -> Seq<char> {
    "HERDR_A2A_RESCUE_V1\nstable_root="@ + decode_utf8(stable) + "\nstable_binary="@ + decode_utf8(
        record.stable_binary,
    ) + "\npi_package_source="@ + decode_utf8(record.pi_package_source) + "\npi_config_path="@
        + decode_utf8(record.pi_config_path) + "\nplugin_root="@ + decode_utf8(record.plugin_root)
        + "\nbroker_digest="@ + record.broker_digest + "\n"@
}

/// The text by which a marker names the state root.
pub open spec fn marker_state_root(record: RecordView) -> Seq<char> {
    if record.purge_authority {
        decode_utf8(record.plugin_state_root)
    } else {
        "disabled"@
    }
}

/// The paths that the lines of a marker name before those of the entries.
pub open spec fn marker_head_failure(record: RecordView, stable: Seq<u8>) -> Option<Failure> {
    or_else(
        path_text_failure(stable),
        or_else(
            path_text_failure(record.stable_binary),
            or_else(
                path_text_failure(record.pi_package_source),
                or_else(
                    path_text_failure(record.pi_config_path),
                    path_text_failure(record.plugin_root),
                ),
            ),
        ),
    )
}

/// The paths of some entries.
pub open spec fn owned_paths(files: Seq<OwnedFileView>) -> Seq<Seq<u8>> {
    files.map_values(|f: OwnedFileView| f.path)
}

/// The text of the marker of an installation, or why it cannot be written. The
/// directories stand deepest first.
pub open spec fn marker_of(record: RecordView, stable: Seq<u8>) -> Result<Seq<char>, Failure> {
    match or_else(
        marker_head_failure(record, stable),
        or_else(
            texts_failure(owned_paths(record.owned_files)),
            if record.purge_authority {
                path_text_failure(record.plugin_state_root)
            } else {
                None
            },
        ),
    ) {
        Some(f) => Err(f),
        None => match removal_dirs(record, stable) {
            Err(f) => Err(f),
            Ok(dirs) => {
                let ordered = sorted_by(SortOrder::DeepestFirst, dirs, itself());
                match texts_failure(ordered) {
                    Some(f) => Err(f),
                    None => Ok(
                        marker_head(record, stable) + owned_lines(record.owned_files)
                            + "state_root="@ + marker_state_root(record) + "\n"@ + dir_lines(
                            ordered,
                        ),
                    ),
                }
            },
        },
    }
}

/// A text or a failure, for a result that holds a text.
pub open spec fn text_outcome(r: Result<String, ManagedError>) -> Result<Seq<char>, Failure> {
    match r {
        Ok(v) => Ok(v@),
        Err(e) => Err(e@),
    }
}

fn push_marker_head(record: &OwnershipRecord, stable_root: &FsPath) -> (r: ManagedResult<String>)
    ensures
        failure(r) == marker_head_failure(record@, stable_root@),
        r is Ok ==> r->Ok_0@ == marker_head(record@, stable_root@),
{
    let stable = path_text(stable_root)?;
    let binary = path_text(&record.stable_binary)?;
    let package = path_text(&record.pi_package_source)?;
    let config = path_text(&record.pi_config_path)?;
    let plugin = path_text(&record.plugin_root)?;
    let mut marker = "HERDR_A2A_RESCUE_V1\nstable_root=".to_owned();
    marker.append(stable.as_str());
    marker.append("\nstable_binary=");
    marker.append(binary.as_str());
    marker.append("\npi_package_source=");
    marker.append(package.as_str());
    marker.append("\npi_config_path=");
    marker.append(config.as_str());
    marker.append("\nplugin_root=");
    marker.append(plugin.as_str());
    marker.append("\nbroker_digest=");
    marker.append(record.broker_digest.as_str());
    marker.append("\n");
    Ok(marker)
}

fn push_owned_line(marker: &mut String, owned: &OwnedFile, path: &str)
    requires
        path@ == decode_utf8(owned.path@),
    ensures
        final(marker)@ == old(marker)@ + owned_line(owned@),
{
    let ghost before = marker@;
    marker.append("owned=");
    push_decimal(marker, owned.mode as u64);
    marker.append("|");
    marker.append(owned.sha256.as_str());
    marker.append("|");
    marker.append(path);
    marker.append("\n");
    assert(marker@ =~= before + owned_line(owned@));
}

/// The text of the marker of an installation.
pub fn rescue_marker(record: &OwnershipRecord, stable_root: &FsPath) -> (r: ManagedResult<String>)
    ensures
        text_outcome(r) == marker_of(record@, stable_root@),
{
    let mut marker = push_marker_head(record, stable_root)?;
    let ghost head = marker@;
    let ghost files = record@.owned_files;
    let ghost paths = owned_paths(files);
    let mut i: usize = 0;
    assert(head + owned_lines(files.take(0)) =~= head);
    while i < record.owned_files.len()
        invariant
            i <= record.owned_files.len(),
            files == record@.owned_files,
            paths == owned_paths(files),
            marker_head_failure(record@, stable_root@) is None,
            texts_failure(paths.take(i as int)) is None,
            marker@ == head + owned_lines(files.take(i as int)),
        decreases record.owned_files.len() - i,
    {
        let owned = &record.owned_files[i];
        proof {
            assert(files[i as int] == owned@);
            assert(files.take(i + 1).drop_last() =~= files.take(i as int));
            assert(paths.take(i + 1).drop_last() =~= paths.take(i as int));
            if texts_failure(paths.take(i + 1)) is Some {
                lemma_texts_failure_stays(paths, i + 1);
            }
        }
        let path = path_text(&owned.path)?;
        push_owned_line(&mut marker, owned, path.as_str());
        assert(marker@ =~= head + owned_lines(files.take(i + 1)));
        i += 1;
    }
    assert(files.take(i as int) =~= files);
    assert(paths.take(i as int) =~= paths);
    marker.append("state_root=");
    if record.purge_authority {
        let state_root = path_text(&record.plugin_state_root)?;
        marker.append(state_root.as_str());
    } else {
        marker.append("disabled");
    }
    marker.append("\n");
    let ghost upper = marker@;
    let listed = removal_directories(record, stable_root)?;
    proof {
        lemma_sorted_map(
            SortOrder::DeepestFirst,
            listed@,
            |p: FsPath| p@,
            location_key::<FsPath>(),
            itself(),
        );
    }
    let ordered = sort_located(SortOrder::DeepestFirst, listed);
    let ghost dirs = path_views(ordered@);
    let mut j: usize = 0;
    assert(upper + dir_lines(dirs.take(0)) =~= upper);
    while j < ordered.len()
        invariant
            j <= ordered.len(),
            dirs == path_views(ordered@),
            texts_failure(dirs.take(j as int)) is None,
            marker@ == upper + dir_lines(dirs.take(j as int)),
            marker_head_failure(record@, stable_root@) is None,
            texts_failure(owned_paths(record@.owned_files)) is None,
            record.purge_authority ==> path_text_failure(record.plugin_state_root@) is None,
            removal_dirs(record@, stable_root@) is Ok,
            dirs == sorted_by(
                SortOrder::DeepestFirst,
                removal_dirs(record@, stable_root@)->Ok_0,
                itself(),
            ),
        decreases ordered.len() - j,
    {
        proof {
            assert(dirs[j as int] == ordered@[j as int]@);
            assert(dirs.take(j + 1).drop_last() =~= dirs.take(j as int));
            if texts_failure(dirs.take(j + 1)) is Some {
                lemma_texts_failure_stays(dirs, j + 1);
            }
        }
        let path = path_text(&ordered[j])?;
        let ghost before = marker@;
        marker.append("dir=");
        marker.append(path.as_str());
        marker.append("\n");
        assert(marker@ =~= upper + dir_lines(dirs.take(j + 1)));
        j += 1;
    }
    assert(dirs.take(j as int) =~= dirs);
    Ok(marker)
}

/// The layout of a rescue directory is told by the modes of its entries: a notice that
/// cannot be run is the current one; one that can is an older one, alone or with a helper
/// that is a copy of the recorded binary.
pub proof fn law_layouts_are_told_by_modes(record: RecordView, stable: Seq<u8>)
    ensures
        ({
            let notice = owned_for(record.owned_files, record.rescue_path);
            let helper = owned_for(
                record.owned_files,
                join(join(stable, utf8("rescue"@)), utf8("herdr-a2a-rescue"@)),
            );
            let found = layout_of(record, stable);
            &&& found == Ok::<RescueLayout, Failure>(RescueLayout::SourceNotice) <==> (notice
                is Some && helper is None && notice->0.mode == 0o600)
            &&& found == Ok::<RescueLayout, Failure>(RescueLayout::LegacyExecutable) <==> (notice
                is Some && helper is None && notice->0.mode == 0o700)
            &&& found == Ok::<RescueLayout, Failure>(RescueLayout::LegacyHelper) <==> (notice
                is Some && helper is Some && notice->0.mode == 0o700 && helper->0.mode == 0o700
                && helper->0.sha256 == record.broker_digest && record.schema_version == 3)
        }),
        notice_mode_of(RescueLayout::SourceNotice) == 0o600,
        notice_mode_of(RescueLayout::LegacyExecutable) == 0o700,
        notice_mode_of(RescueLayout::LegacyHelper) == 0o700,
{
}

/// The pointer to a binary is its path and a line feed.
pub proof fn law_pointers_are_lines(binary: Seq<u8>)
    ensures
        pointer_digest(binary) == sha256_text(binary + seq![10u8]),
{
    assert(binary.push(10) =~= binary + seq![10u8]);
}

/// An accepted record is of the installation that it is read for, of a known kind and a
/// known schema; its values are in shape, and it names a state root just when it has
/// authority.
pub proof fn law_accepted_records_are_of_their_installation(
    record: RecordView,
    stable: Seq<u8>,
    plugin_root: Seq<u8>,
    settings: Result<Seq<u8>, Failure>,
)
    requires
        record_failure(record, stable, plugin_root, settings) is None,
    ensures
        record.schema_version == 2 || record.schema_version == 3,
        record.install_kind == "managed"@ || record.install_kind == "linked-dev"@,
        parts(record.ownership_path) == parts(child(stable, "ownership.json"@)),
        parts(record.rescue_path) == parts(child(stable, "rescue/uninstall.sh"@)),
        parts(record.plugin_root) == parts(plugin_root),
        settings is Ok,
        parts(record.pi_config_path) == parts(settings->Ok_0),
        0 < utf8(record.plugin_version).len() <= 128,
        digest_ok(record.broker_digest),
        digest_ok(record.pi_package_digest),
        record.schema_version == 3 || record.purge_authority ==> digest_ok(
            record.rescue_marker_digest,
        ),
        record.purge_authority <==> record.plugin_state_root.len() > 0,
        stored_path_failure(record.stable_binary, "transaction record path"@) is None,
        stored_path_failure(record.pi_package_source, "transaction record path"@) is None,
        record.purge_authority ==> stored_path_failure(
            record.plugin_state_root,
            "transaction record path"@,
        ) is None,
{
}

/// The binary and the package of an accepted record lie in one generation, and the entry
/// of Pi leads to the package.
pub proof fn law_accepted_records_are_of_one_generation(
    record: RecordView,
    stable: Seq<u8>,
    plugin_root: Seq<u8>,
    settings: Result<Seq<u8>, Failure>,
)
    requires
        record_failure(record, stable, plugin_root, settings) is None,
    ensures
        parent(record.pi_package_source) is Some,
        ({
            let generation = parent(record.pi_package_source)->0;
            &&& parent(generation) is Some
            &&& parts(parent(generation)->0) == parts(child(stable, "generations"@))
            &&& parts(record.stable_binary) == parts(child(generation, "bin/herdr-a2a"@))
            &&& parts(record.pi_package_source) == parts(child(generation, "pi"@))
        }),
        entry_allowed(record.pi_package_entry, record.pi_config_path, record.pi_package_source)
            == Ok::<bool, Failure>(true),
        layout_of(record, stable) is Ok,
{
}

/// Every entry of an accepted record is a file of the installation: it is the binary, the
/// helper, the pointer, a private file of the package, or a file of the rescue directory.
/// Its path can be stored, its digest is one, and no other entry is at its path.
pub proof fn law_accepted_records_own_nothing_else(
    record: RecordView,
    stable: Seq<u8>,
    plugin_root: Seq<u8>,
    settings: Result<Seq<u8>, Failure>,
    i: int,
)
    requires
        record_failure(record, stable, plugin_root, settings) is None,
        0 <= i < record.owned_files.len(),
    ensures
        ({
            let f = record.owned_files[i];
            &&& stored_path_failure(f.path, "transaction owned path"@) is None
            &&& digest_ok(f.sha256)
            &&& forall|j: int|
                0 <= j < record.owned_files.len() && j != i ==> parts(
                    (#[trigger] record.owned_files[j]).path,
                ) != parts(f.path)
            &&& {
                ||| parts(f.path) == parts(record.stable_binary)
                ||| parts(f.path) == parts(child(plugin_root, "libexec/herdr-a2a-dispatch"@))
                ||| parts(f.path) == parts(child(plugin_root, "stable-bin-path"@))
                ||| path_under(f.path, record.pi_package_source) && f.mode == 0o600
                ||| parts(f.path) == parts(record.rescue_path) && (f.mode == 0o600 || f.mode
                    == 0o700)
                ||| parts(f.path) == parts(rescue_marker_file(stable)) && f.mode == 0o600
                ||| parts(f.path) == parts(rescue_helper(stable)) && f.mode == 0o700 && f.sha256
                    == record.broker_digest && layout_of(record, stable) == Ok::<
                    RescueLayout,
                    Failure,
                >(RescueLayout::LegacyHelper)
            }
        }),
{
    let layout = layout_of(record, stable)->Ok_0;
    let n = record.owned_files.len() as int;
    assert(inventory_failure(record, stable, plugin_root, layout) is None);
    lemma_owned_accepted(record, stable, plugin_root, layout, n);
    let f = record.owned_files[i];
    assert(role_of(record, stable, plugin_root, layout, f) != OwnedRole::Unrelated);
    assert forall|j: int| 0 <= j < record.owned_files.len() && j != i implies parts(
        (#[trigger] record.owned_files[j]).path,
    ) != parts(f.path) by {
        if j < i {
            assert(parts(record.owned_files[j].path) != parts(record.owned_files[i].path));
        } else {
            assert(parts(record.owned_files[i].path) != parts(record.owned_files[j].path));
        }
    }
}

proof fn lemma_owned_accepted(
    record: RecordView,
    stable: Seq<u8>,
    plugin_root: Seq<u8>,
    layout: RescueLayout,
    n: int,
)
    requires
        0 <= n <= record.owned_files.len(),
        owned_failure(record, stable, plugin_root, layout, n) is None,
    ensures
        forall|i: int|
            0 <= i < n ==> stored_path_failure(
                (#[trigger] record.owned_files[i]).path,
                "transaction owned path"@,
            ) is None && digest_ok(record.owned_files[i].sha256) && role_of(
                record,
                stable,
                plugin_root,
                layout,
                record.owned_files[i],
            ) != OwnedRole::Unrelated,
        forall|i: int, j: int|
            0 <= i < j < n ==> parts((#[trigger] record.owned_files[i]).path) != parts(
                (#[trigger] record.owned_files[j]).path,
            ),
    decreases n,
{
    if n > 0 {
        lemma_owned_accepted(record, stable, plugin_root, layout, n - 1);
        let before = owned_parts(record.owned_files.take(n - 1));
        assert forall|i: int, j: int| 0 <= i < j < n implies parts(
            (#[trigger] record.owned_files[i]).path,
        ) != parts((#[trigger] record.owned_files[j]).path) by {
            if j == n - 1 {
                assert(before[i] == parts(record.owned_files[i].path));
                assert(before.contains(before[i]));
            }
        }
    }
}

/// An accepted record owns the whole installation: the binary and the helper, which may be
/// run and have the recorded digest; the pointer to the binary; the manifest of the
/// package; the notice; and the marker, with the recorded digest where it is recorded.
pub proof fn law_accepted_records_own_the_whole_installation(
    record: RecordView,
    stable: Seq<u8>,
    plugin_root: Seq<u8>,
    settings: Result<Seq<u8>, Failure>,
)
    requires
        record_failure(record, stable, plugin_root, settings) is None,
    ensures
        ({
            let files = record.owned_files;
            &&& exists|i: int|
                0 <= i < files.len() && parts((#[trigger] files[i]).path) == parts(
                    record.stable_binary,
                ) && files[i].mode == 0o700 && files[i].sha256 == record.broker_digest
            &&& exists|i: int|
                0 <= i < files.len() && parts((#[trigger] files[i]).path) == parts(
                    child(plugin_root, "libexec/herdr-a2a-dispatch"@),
                ) && files[i].mode == 0o700 && files[i].sha256 == record.broker_digest
            &&& exists|i: int|
                0 <= i < files.len() && parts((#[trigger] files[i]).path) == parts(
                    child(plugin_root, "stable-bin-path"@),
                ) && files[i].mode == 0o600 && files[i].sha256 == pointer_digest(
                    record.stable_binary,
                )
            &&& exists|i: int|
                0 <= i < files.len() && parts((#[trigger] files[i]).path) == parts(
                    child(record.pi_package_source, "package.json"@),
                ) && files[i].mode == 0o600
            &&& exists|i: int|
                0 <= i < files.len() && parts((#[trigger] files[i]).path) == parts(
                    record.rescue_path,
                )
            &&& exists|i: int|
                0 <= i < files.len() && parts((#[trigger] files[i]).path) == parts(
                    rescue_marker_file(stable),
                ) && files[i].mode == 0o600 && (record.schema_version == 3
                    || record.purge_authority ==> files[i].sha256 == record.rescue_marker_digest)
        }),
{
    let layout = layout_of(record, stable)->Ok_0;
    assert(inventory_failure(record, stable, plugin_root, layout) is None);
    assert(inventory_complete(record, stable, plugin_root, layout));
    lemma_role_filler(record, stable, plugin_root, layout, OwnedRole::Binary);
    lemma_role_filler(record, stable, plugin_root, layout, OwnedRole::Helper);
    lemma_role_filler(record, stable, plugin_root, layout, OwnedRole::Pointer);
    lemma_role_filler(record, stable, plugin_root, layout, OwnedRole::Package);
    lemma_role_filler(record, stable, plugin_root, layout, OwnedRole::Notice);
    lemma_role_filler(record, stable, plugin_root, layout, OwnedRole::Marker);
}

proof fn lemma_role_filler(
    record: RecordView,
    stable: Seq<u8>,
    plugin_root: Seq<u8>,
    layout: RescueLayout,
    role: OwnedRole,
) -> (i: int)
    requires
        role_filled(record, stable, plugin_root, layout, role, record.owned_files.len() as int),
    ensures
        0 <= i < record.owned_files.len(),
        role_of(record, stable, plugin_root, layout, record.owned_files[i]) == role,
        fills_role(record, role, record.owned_files[i]),
{
    choose|i: int|
        0 <= i < record.owned_files.len() && role_of(
            record,
            stable,
            plugin_root,
            layout,
            #[trigger] record.owned_files[i],
        ) == role && fills_role(record, role, record.owned_files[i])
}

/// Of paths that are the same one is kept, and every path is kept so.
pub proof fn law_distinct_paths_are_all_there_once(paths: Seq<Seq<u8>>)
    ensures
        forall|i: int, j: int|
            0 <= i < j < distinct(paths).len() ==> parts(#[trigger] distinct(paths)[i]) != parts(
                #[trigger] distinct(paths)[j],
            ),
        forall|i: int|
            0 <= i < paths.len() ==> exists|k: int|
                0 <= k < distinct(paths).len() && parts(#[trigger] distinct(paths)[k]) == parts(
                    #[trigger] paths[i],
                ),
        forall|k: int|
            0 <= k < distinct(paths).len() ==> paths.contains(#[trigger] distinct(paths)[k]),
    decreases paths.len(),
{
    if paths.len() > 0 {
        let front = paths.drop_last();
        let last = paths.last();
        let n = paths.len() - 1;
        let before = distinct(front);
        let after = distinct(paths);
        law_distinct_paths_are_all_there_once(front);
        let there = all_parts(before).contains(parts(last));
        if there {
            let k = all_parts(before).index_of(parts(last));
            assert(parts(before[k]) == parts(last));
        } else {
            assert(after[before.len() as int] == last);
        }
        assert forall|i: int, j: int| 0 <= i < j < after.len() implies parts(#[trigger] after[i])
            != parts(#[trigger] after[j]) by {
            if j == before.len() {
                assert(all_parts(before)[i] == parts(before[i]));
                assert(all_parts(before).contains(parts(before[i])));
            }
        }
        assert forall|i: int| 0 <= i < paths.len() implies exists|k: int|
            0 <= k < after.len() && parts(#[trigger] after[k]) == parts(#[trigger] paths[i]) by {
            if i < n {
                assert(front[i] == paths[i]);
                let k = choose|k: int|
                    0 <= k < before.len() && parts(#[trigger] before[k]) == parts(front[i]);
                assert(after[k] == before[k]);
            } else if there {
                let k = all_parts(before).index_of(parts(last));
                assert(after[k] == before[k]);
                assert(parts(after[k]) == parts(paths[i]));
            } else {
                assert(parts(after[before.len() as int]) == parts(paths[i]));
            }
        }
        assert forall|k: int| 0 <= k < after.len() implies paths.contains(#[trigger] after[k]) by {
            if k < before.len() {
                assert(front.contains(before[k]));
                let i = front.index_of(before[k]);
                assert(paths[i] == before[k]);
            } else {
                assert(paths[n] == last);
            }
        }
    }
}

/// A removal empties the directory of the generation, the rescue directory and that of
/// the helper, and those between the generation and its files; none of them twice.
pub proof fn law_removals_empty_every_directory(record: RecordView, stable: Seq<u8>, p: Seq<u8>)
    requires
        removal_dirs(record, stable) is Ok,
    ensures
        ({
            let dirs = removal_dirs(record, stable)->Ok_0;
            let generation = parent(record.pi_package_source)->0;
            &&& p == generation || p == rescue_dir(stable) || p == child(
                record.plugin_root,
                "libexec"@,
            ) || all_ancestors(record.owned_files, generation).contains(p) ==> exists|k: int|
                0 <= k < dirs.len() && parts(#[trigger] dirs[k]) == parts(p)
            &&& dirs.contains(p) ==> p == generation || p == rescue_dir(stable) || p == child(
                record.plugin_root,
                "libexec"@,
            ) || all_ancestors(record.owned_files, generation).contains(p)
        }),
{
    let generation = parent(record.pi_package_source)->0;
    let fixed = seq![generation, rescue_dir(stable), child(record.plugin_root, "libexec"@)];
    let above = all_ancestors(record.owned_files, generation);
    let all = fixed + above;
    let dirs = removal_dirs(record, stable)->Ok_0;
    law_distinct_paths_are_all_there_once(all);
    lemma_sorting_keeps_members(SortOrder::ByPath, distinct(all), itself());
    assert(all.contains(p) <==> fixed.contains(p) || above.contains(p)) by {
        if fixed.contains(p) {
            let k = fixed.index_of(p);
            assert(all[k] == p);
        }
        if above.contains(p) {
            let k = above.index_of(p);
            assert(all[k + 3] == p);
        }
        if all.contains(p) {
            let k = all.index_of(p);
            if k < 3 {
                assert(fixed[k] == p);
            } else {
                assert(above[k - 3] == p);
            }
        }
    }
    assert(fixed[0] == generation && fixed[1] == rescue_dir(stable) && fixed[2] == child(
        record.plugin_root,
        "libexec"@,
    ));
    if all.contains(p) {
        let i = all.index_of(p);
        let k = choose|k: int|
            0 <= k < distinct(all).len() && parts(#[trigger] distinct(all)[k]) == parts(all[i]);
        assert(distinct(all).contains(distinct(all)[k]));
        assert(dirs.contains(distinct(all)[k]));
        let m = dirs.index_of(distinct(all)[k]);
        assert(parts(dirs[m]) == parts(p));
    }
    if dirs.contains(p) {
        assert(distinct(all).contains(p));
        let k = distinct(all).index_of(p);
        assert(all.contains(distinct(all)[k]));
    }
}

/// A marker says where the installation is, has a line for each file that is owned, says
/// which state root may be purged, if any, and has a line for each directory that is to be
/// emptied, from below.
pub proof fn law_markers_have_a_line_for_everything(
    record: RecordView,
    stable: Seq<u8>,
    files: Seq<OwnedFileView>,
    f: OwnedFileView,
    dirs: Seq<Seq<u8>>,
    d: Seq<u8>,
)
    ensures
        marker_of(record, stable) is Ok ==> removal_dirs(record, stable) is Ok && marker_of(
            record,
            stable,
        )->Ok_0 == marker_head(record, stable) + owned_lines(record.owned_files) + "state_root="@ + (
        if record.purge_authority {
            decode_utf8(record.plugin_state_root)
        } else {
            "disabled"@
        }) + "\n"@ + dir_lines(
            sorted_by(
                SortOrder::DeepestFirst,
                removal_dirs(record, stable)->Ok_0,
                |p: Seq<u8>| p,
            ),
        ),
        owned_lines(files.push(f)) == owned_lines(files) + ("owned="@ + crate::text::decimal(
            f.mode as nat,
        ) + "|"@ + f.sha256 + "|"@ + decode_utf8(f.path) + "\n"@),
        owned_lines(Seq::empty()) == Seq::<char>::empty(),
        dir_lines(dirs.push(d)) == dir_lines(dirs) + ("dir="@ + decode_utf8(d) + "\n"@),
        dir_lines(Seq::empty()) == Seq::<char>::empty(),
        marker_head(record, stable) == "HERDR_A2A_RESCUE_V1\n"@ + ("stable_root="@ + decode_utf8(
            stable,
        ) + "\n"@) + ("stable_binary="@ + decode_utf8(record.stable_binary) + "\n"@) + (
        "pi_package_source="@ + decode_utf8(record.pi_package_source) + "\n"@) + (
        "pi_config_path="@ + decode_utf8(record.pi_config_path) + "\n"@) + ("plugin_root="@
            + decode_utf8(record.plugin_root) + "\n"@) + ("broker_digest="@ + record.broker_digest
            + "\n"@),
{
    assert(files.push(f).drop_last() =~= files);
    assert(dirs.push(d).drop_last() =~= dirs);
    assert(itself() =~= (|p: Seq<u8>| p));
    reveal_strlit("\n");
    reveal_strlit("HERDR_A2A_RESCUE_V1\n");
    reveal_strlit("HERDR_A2A_RESCUE_V1\nstable_root=");
    reveal_strlit("stable_root=");
    reveal_strlit("\nstable_binary=");
    reveal_strlit("stable_binary=");
    reveal_strlit("\npi_package_source=");
    reveal_strlit("pi_package_source=");
    reveal_strlit("\npi_config_path=");
    reveal_strlit("pi_config_path=");
    reveal_strlit("\nplugin_root=");
    reveal_strlit("plugin_root=");
    reveal_strlit("\nbroker_digest=");
    reveal_strlit("broker_digest=");
    assert("HERDR_A2A_RESCUE_V1\nstable_root="@ =~= "HERDR_A2A_RESCUE_V1\n"@ + "stable_root="@);
    assert("\nstable_binary="@ =~= "\n"@ + "stable_binary="@);
    assert("\npi_package_source="@ =~= "\n"@ + "pi_package_source="@);
    assert("\npi_config_path="@ =~= "\n"@ + "pi_config_path="@);
    assert("\nplugin_root="@ =~= "\n"@ + "plugin_root="@);
    assert("\nbroker_digest="@ =~= "\n"@ + "broker_digest="@);
    assert(marker_head(record, stable) =~= "HERDR_A2A_RESCUE_V1\n"@ + ("stable_root="@
        + decode_utf8(stable) + "\n"@) + ("stable_binary="@ + decode_utf8(record.stable_binary)
        + "\n"@) + ("pi_package_source="@ + decode_utf8(record.pi_package_source) + "\n"@) + (
    "pi_config_path="@ + decode_utf8(record.pi_config_path) + "\n"@) + ("plugin_root="@
        + decode_utf8(record.plugin_root) + "\n"@) + ("broker_digest="@ + record.broker_digest
        + "\n"@));
}

/// An entry is a file of the installation, by where it is, how it may be used and, for a
/// helper of the rescue directory, what it holds.
pub open spec fn of_the_installation(
    record: RecordView,
    stable: Seq<u8>,
    plugin_root: Seq<u8>,
    layout: RescueLayout,
    f: OwnedFileView,
) -> bool {
    ||| parts(f.path) == parts(record.stable_binary)
    ||| parts(f.path) == parts(child(plugin_root, "libexec/herdr-a2a-dispatch"@))
    ||| parts(f.path) == parts(child(plugin_root, "stable-bin-path"@))
    ||| path_under(f.path, record.pi_package_source) && f.mode == 0o600
    ||| parts(f.path) == parts(record.rescue_path) && f.mode == (if layout is SourceNotice {
        0o600u32
    } else {
        0o700u32
    })
    ||| parts(f.path) == parts(rescue_marker_file(stable)) && f.mode == 0o600
    ||| parts(f.path) == parts(rescue_helper(stable)) && f.mode == 0o700 && f.sha256
        == record.broker_digest && layout is LegacyHelper
}

/// An entry of a record is at a path, with a mode.
pub open spec fn has_entry(record: RecordView, i: int, path: Seq<u8>, mode: u32) -> bool {
    0 <= i < record.owned_files.len() && parts(record.owned_files[i].path) == parts(path)
        && record.owned_files[i].mode == mode
}

/// The places of an installation are different ones, and those of the rescue files are
/// outside of the package.
pub open spec fn places_apart(record: RecordView, stable: Seq<u8>, plugin_root: Seq<u8>) -> bool {
    let fixed = seq![
        record.stable_binary,
        helper_path(plugin_root),
        pointer_path(plugin_root),
        child(record.pi_package_source, "package.json"@),
        record.rescue_path,
        rescue_marker_file(stable),
        rescue_helper(stable),
    ];
    &&& forall|i: int, j: int|
        0 <= i < j < 7 ==> parts(#[trigger] fixed[i]) != parts(#[trigger] fixed[j])
    &&& path_under(fixed[3], record.pi_package_source)
    &&& !path_under(fixed[4], record.pi_package_source)
    &&& !path_under(fixed[5], record.pi_package_source)
    &&& !path_under(fixed[6], record.pi_package_source)
}

/// A record of either schema, of either kind and with any of the layouts is accepted if its
/// values are in shape, its generation and its entry of Pi are where they belong, and its
/// entries are the files of the installation: all of them, each once, and no others. The
/// numbers say where in the inventory the binary, the helper, the pointer, the manifest of
/// the package, the notice, the marker and, where there is one, the helper of the rescue
/// directory stand.
pub proof fn law_whole_records_are_accepted(
    record: RecordView,
    stable: Seq<u8>,
    plugin_root: Seq<u8>,
    settings: Seq<u8>,
    layout: RescueLayout,
    at: Seq<int>,
)
    requires
        record.schema_version == 2 || record.schema_version == 3,
        record.install_kind == "managed"@ || record.install_kind == "linked-dev"@,
        parts(record.ownership_path) == parts(child(stable, "ownership.json"@)),
        parts(record.rescue_path) == parts(child(stable, "rescue/uninstall.sh"@)),
        parts(record.plugin_root) == parts(plugin_root),
        parts(record.pi_config_path) == parts(settings),
        0 < utf8(record.plugin_version).len() <= 128,
        digest_ok(record.broker_digest),
        digest_ok(record.pi_package_digest),
        record.schema_version == 3 || record.purge_authority ==> digest_ok(
            record.rescue_marker_digest,
        ),
        record.purge_authority <==> record.plugin_state_root.len() > 0,
        record_paths_failure(record, stable, plugin_root) is None,
        parent(record.pi_package_source) is Some,
        generation_layout_ok(record, parent(record.pi_package_source)->0, stable),
        parts(record.pi_package_source) == parts(
            child(parent(record.pi_package_source)->0, "pi"@),
        ),
        entry_allowed(record.pi_package_entry, record.pi_config_path, record.pi_package_source)
            == Ok::<bool, Failure>(true),
        layout_of(record, stable) == Ok::<RescueLayout, Failure>(layout),
        places_apart(record, stable, plugin_root),
        forall|i: int|
            0 <= i < record.owned_files.len() ==> stored_path_failure(
                (#[trigger] record.owned_files[i]).path,
                "transaction owned path"@,
            ) is None && digest_ok(record.owned_files[i].sha256) && of_the_installation(
                record,
                stable,
                plugin_root,
                layout,
                record.owned_files[i],
            ),
        forall|i: int, j: int|
            0 <= i < j < record.owned_files.len() ==> parts((#[trigger] record.owned_files[i]).path)
                != parts((#[trigger] record.owned_files[j]).path),
        at.len() == 7,
        has_entry(record, at[0], record.stable_binary, 0o700),
        has_entry(record, at[1], helper_path(plugin_root), 0o700),
        has_entry(record, at[2], pointer_path(plugin_root), 0o600),
        has_entry(record, at[3], child(record.pi_package_source, "package.json"@), 0o600),
        has_entry(record, at[4], record.rescue_path, if layout is SourceNotice {
            0o600u32
        } else {
            0o700u32
        }),
        has_entry(record, at[5], rescue_marker_file(stable), 0o600),
        layout is LegacyHelper ==> has_entry(record, at[6], rescue_helper(stable), 0o700),
        record.owned_files[at[0]].sha256 == record.broker_digest,
        record.owned_files[at[1]].sha256 == record.broker_digest,
        record.owned_files[at[2]].sha256 == pointer_digest(record.stable_binary),
        record.schema_version == 3 || record.purge_authority ==> record.owned_files[at[5]].sha256
            == record.rescue_marker_digest,
        layout is LegacyHelper ==> record.owned_files[at[6]].sha256 == record.broker_digest,
    ensures
        record_failure(record, stable, plugin_root, Ok::<Seq<u8>, Failure>(settings)) is None,
{
    let n = record.owned_files.len() as int;
    let files = record.owned_files;
    assert forall|i: int| 0 <= i < n implies role_of(
        record,
        stable,
        plugin_root,
        layout,
        #[trigger] files[i],
    ) != OwnedRole::Unrelated by {
        assert(of_the_installation(record, stable, plugin_root, layout, files[i]));
        lemma_role_is_known(record, stable, plugin_root, layout, files[i]);
    }
    lemma_entries_accepted(record, stable, plugin_root, layout, n);
    lemma_roles_by_place(record, stable, plugin_root, layout, files[at[0]]);
    lemma_roles_by_place(record, stable, plugin_root, layout, files[at[1]]);
    lemma_roles_by_place(record, stable, plugin_root, layout, files[at[2]]);
    lemma_roles_by_place(record, stable, plugin_root, layout, files[at[3]]);
    lemma_roles_by_place(record, stable, plugin_root, layout, files[at[4]]);
    lemma_roles_by_place(record, stable, plugin_root, layout, files[at[5]]);
    lemma_fills(record, stable, plugin_root, layout, OwnedRole::Binary, at[0]);
    lemma_fills(record, stable, plugin_root, layout, OwnedRole::Helper, at[1]);
    lemma_fills(record, stable, plugin_root, layout, OwnedRole::Pointer, at[2]);
    lemma_fills(record, stable, plugin_root, layout, OwnedRole::Package, at[3]);
    lemma_fills(record, stable, plugin_root, layout, OwnedRole::Notice, at[4]);
    lemma_fills(record, stable, plugin_root, layout, OwnedRole::Marker, at[5]);
    if layout == RescueLayout::LegacyHelper {
        lemma_roles_by_place(record, stable, plugin_root, layout, files[at[6]]);
        lemma_fills(record, stable, plugin_root, layout, OwnedRole::RescueHelper, at[6]);
    }
    lemma_whole_inventory(record, stable, plugin_root, layout);
    assert(record_head_ok(record, stable, plugin_root));
    assert(record_values_ok(record));
    assert(relationships_failure(record, parent(record.pi_package_source)->0, stable) is None);
}

proof fn lemma_whole_inventory(
    record: RecordView,
    stable: Seq<u8>,
    plugin_root: Seq<u8>,
    layout: RescueLayout,
)
    requires
        owned_failure(record, stable, plugin_root, layout, record.owned_files.len() as int) is None,
        inventory_complete(record, stable, plugin_root, layout),
    ensures
        inventory_failure(record, stable, plugin_root, layout) is None,
{
}

proof fn lemma_role_is_known(
    record: RecordView,
    stable: Seq<u8>,
    plugin_root: Seq<u8>,
    layout: RescueLayout,
    f: OwnedFileView,
)
    requires
        of_the_installation(record, stable, plugin_root, layout, f),
    ensures
        role_of(record, stable, plugin_root, layout, f) != OwnedRole::Unrelated,
{
}

proof fn lemma_roles_by_place(
    record: RecordView,
    stable: Seq<u8>,
    plugin_root: Seq<u8>,
    layout: RescueLayout,
    f: OwnedFileView,
)
    requires
        places_apart(record, stable, plugin_root),
    ensures
        parts(f.path) == parts(record.stable_binary) ==> role_of(
            record,
            stable,
            plugin_root,
            layout,
            f,
        ) == OwnedRole::Binary,
        parts(f.path) == parts(helper_path(plugin_root)) ==> role_of(
            record,
            stable,
            plugin_root,
            layout,
            f,
        ) == OwnedRole::Helper,
        parts(f.path) == parts(pointer_path(plugin_root)) ==> role_of(
            record,
            stable,
            plugin_root,
            layout,
            f,
        ) == OwnedRole::Pointer,
        parts(f.path) == parts(child(record.pi_package_source, "package.json"@)) && f.mode == 0o600
            ==> role_of(record, stable, plugin_root, layout, f) == OwnedRole::Package,
        parts(f.path) == parts(record.rescue_path) && f.mode == notice_mode_of(layout) ==> role_of(
            record,
            stable,
            plugin_root,
            layout,
            f,
        ) == OwnedRole::Notice,
        parts(f.path) == parts(rescue_marker_file(stable)) && f.mode == 0o600 ==> role_of(
            record,
            stable,
            plugin_root,
            layout,
            f,
        ) == OwnedRole::Marker,
        parts(f.path) == parts(rescue_helper(stable)) && f.mode == 0o700 && f.sha256
            == record.broker_digest && layout is LegacyHelper ==> role_of(
            record,
            stable,
            plugin_root,
            layout,
            f,
        ) == OwnedRole::RescueHelper,
{
    let fixed = seq![
        record.stable_binary,
        helper_path(plugin_root),
        pointer_path(plugin_root),
        child(record.pi_package_source, "package.json"@),
        record.rescue_path,
        rescue_marker_file(stable),
        rescue_helper(stable),
    ];
    let (p0, p1, p2, p3) = (
        parts(fixed[0]),
        parts(fixed[1]),
        parts(fixed[2]),
        parts(fixed[3]),
    );
    let (p4, p5, p6) = (parts(fixed[4]), parts(fixed[5]), parts(fixed[6]));
    assert(p0 != p1 && p0 != p2 && p0 != p3 && p0 != p4 && p0 != p5 && p0 != p6);
    assert(p1 != p2 && p1 != p3 && p1 != p4 && p1 != p5 && p1 != p6);
    assert(p2 != p3 && p2 != p4 && p2 != p5 && p2 != p6);
    assert(p4 != p5 && p4 != p6 && p5 != p6);
}

proof fn lemma_fills(
    record: RecordView,
    stable: Seq<u8>,
    plugin_root: Seq<u8>,
    layout: RescueLayout,
    role: OwnedRole,
    i: int,
)
    requires
        0 <= i < record.owned_files.len(),
        role_of(record, stable, plugin_root, layout, record.owned_files[i]) == role,
        fills_role(record, role, record.owned_files[i]),
    ensures
        role_filled(record, stable, plugin_root, layout, role, record.owned_files.len() as int),
{
}

proof fn lemma_entries_accepted(
    record: RecordView,
    stable: Seq<u8>,
    plugin_root: Seq<u8>,
    layout: RescueLayout,
    n: int,
)
    requires
        0 <= n <= record.owned_files.len(),
        forall|i: int|
            0 <= i < n ==> stored_path_failure(
                (#[trigger] record.owned_files[i]).path,
                "transaction owned path"@,
            ) is None && digest_ok(record.owned_files[i].sha256) && role_of(
                record,
                stable,
                plugin_root,
                layout,
                record.owned_files[i],
            ) != OwnedRole::Unrelated,
        forall|i: int, j: int|
            0 <= i < j < n ==> parts((#[trigger] record.owned_files[i]).path) != parts(
                (#[trigger] record.owned_files[j]).path,
            ),
    ensures
        owned_failure(record, stable, plugin_root, layout, n) is None,
    decreases n,
{
    if n > 0 {
        lemma_entries_accepted(record, stable, plugin_root, layout, n - 1);
        let f = record.owned_files[n - 1];
        let before = owned_parts(record.owned_files.take(n - 1));
        if before.contains(parts(f.path)) {
            let i = before.index_of(parts(f.path));
            assert(before[i] == parts(record.owned_files[i].path));
        }
    }
}

/// Every path that an accepted record names can be stored.
pub proof fn law_named_paths_can_be_stored(
    record: RecordView,
    stable: Seq<u8>,
    plugin_root: Seq<u8>,
)
    ensures
        record_paths_failure(record, stable, plugin_root) is None <==> (forall|p: Seq<u8>|
            #![trigger stored_path_failure(p, "transaction record path"@)]
            p == stable || p == plugin_root || p == record.stable_binary || p
                == record.pi_package_source || p == record.pi_config_path || p
                == record.ownership_path || p == record.rescue_path || (record.purge_authority && p
                == record.plugin_state_root) ==> stored_path_failure(p, "transaction record path"@)
                is None),
{
    let label = "transaction record path"@;
    assert(stored_path_failure(stable, label) is None || stored_path_failure(stable, label)
        is Some);
    assert(stored_path_failure(plugin_root, label) is None || stored_path_failure(
        plugin_root,
        label,
    ) is Some);
    assert(stored_path_failure(record.stable_binary, label) is None || stored_path_failure(
        record.stable_binary,
        label,
    ) is Some);
    assert(stored_path_failure(record.pi_package_source, label) is None || stored_path_failure(
        record.pi_package_source,
        label,
    ) is Some);
    assert(stored_path_failure(record.pi_config_path, label) is None || stored_path_failure(
        record.pi_config_path,
        label,
    ) is Some);
    assert(stored_path_failure(record.ownership_path, label) is None || stored_path_failure(
        record.ownership_path,
        label,
    ) is Some);
    assert(stored_path_failure(record.rescue_path, label) is None || stored_path_failure(
        record.rescue_path,
        label,
    ) is Some);
    assert(stored_path_failure(record.plugin_state_root, label) is None || stored_path_failure(
        record.plugin_state_root,
        label,
    ) is Some);
}

/// The layout of a generation: in `generations`, with the binary in `bin`.
pub proof fn law_generations_hold_their_binary(
    record: RecordView,
    generation: Seq<u8>,
    stable: Seq<u8>,
)
    ensures
        generation_layout_ok(record, generation, stable) <==> (parent(generation) is Some && parts(
            parent(generation)->0,
        ) == parts(child(stable, "generations"@)) && parts(record.stable_binary) == parts(
            child(generation, "bin/herdr-a2a"@),
        )),
{
}

} // verus!
