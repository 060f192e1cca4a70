//! The registries of managed processes that run and that are being started.

use vstd::prelude::*;
use vstd::string::*;
use vstd::utf8::*;
use crate::error::{fail, failure, or_else, outcome, Failure, ManagedError, ManagedResult};
use crate::lists::lemma_filter_has;
use crate::order::{
    bytes_less, law_sorting_puts_in_order, lemma_sorted_map, lemma_sorting_keeps_items, lemma_sorting_keeps_members, location_key,
    sort_located, sorted_by, Keyed, SortOrder,
};
use crate::path::{
    absolute_normal, absolute_normal_failure, file_name, parent, parts, path_text, path_text_failure,
    require_absolute_normal, same_path, FsPath,
};
use crate::record::{InstallState, OwnershipRecord, RecordView};
use crate::text::{
    byte_len, char_views, chars_text, contains_char, decimal, hex_token, is_hex_token,
    lemma_decimal_reads_back, lemma_number_reads_back, lemma_split_joined, lemma_split_one,
    number_of, parse_number, push_decimal, split_chars, split_lines, split_text, text_chars,
    text_eq, text_lines, utf8, utf8_str, without_return,
};

verus! {

/// The most bytes of a registry.
pub const MAX_PROCESS_REGISTRY_BYTES: u64 = 262144;

/// The most entries of a registry.
pub const MAX_PROCESS_REGISTRY_ENTRIES: usize = 64;

/// The schema of the registry of processes that are being started.
pub const STARTING_PROCESS_REGISTRY_SCHEMA: u32 = 1;

/// A managed coordinator with its broker.
#[derive(Debug)]
pub struct ManagedProcessEntry {
    pub runtime_root: FsPath,
    pub session_key: String,
    pub workspace_id: String,
    pub scope_key: String,
    pub coordinator_pid: u32,
    pub coordinator_start: String,
    pub broker_pid: u32,
    pub broker_start: String,
    pub broker_instance_id: String,
    pub executable_path: FsPath,
    pub executable_digest: String,
    pub control_port: u16,
    pub control_nonce: String,
}

/// What an entry says of a process.
pub struct ProcessView {
    pub runtime_root: Seq<u8>,
    pub session_key: Seq<char>,
    pub workspace_id: Seq<char>,
    pub scope_key: Seq<char>,
    pub coordinator_pid: u32,
    pub coordinator_start: Seq<char>,
    pub broker_pid: u32,
    pub broker_start: Seq<char>,
    pub broker_instance_id: Seq<char>,
    pub executable_path: Seq<u8>,
    pub executable_digest: Seq<char>,
    pub control_port: u16,
    pub control_nonce: Seq<char>,
}

impl View for ManagedProcessEntry {
    type V = ProcessView;

    open spec fn view(&self) -> ProcessView {
        ProcessView {
            runtime_root: self.runtime_root@,
            session_key: self.session_key@,
            workspace_id: self.workspace_id@,
            scope_key: self.scope_key@,
            coordinator_pid: self.coordinator_pid,
            coordinator_start: self.coordinator_start@,
            broker_pid: self.broker_pid,
            broker_start: self.broker_start@,
            broker_instance_id: self.broker_instance_id@,
            executable_path: self.executable_path@,
            executable_digest: self.executable_digest@,
            control_port: self.control_port,
            control_nonce: self.control_nonce@,
        }
    }
}

impl Keyed for ManagedProcessEntry {
    open spec fn location(&self) -> Seq<u8> {
        utf8(self.scope_key@)
    }

    fn key_bytes(&self) -> (r: &[u8]) {
        self.scope_key.as_str().as_bytes()
    }
}

/// The entries that some values stand for.
pub open spec fn process_views(s: Seq<ManagedProcessEntry>) -> Seq<ProcessView> {
    s.map_values(|e: ManagedProcessEntry| e@)
}

/// The key by which entries are sorted.
pub open spec fn process_key() -> spec_fn(ProcessView) -> Seq<u8> {
    |e: ProcessView| utf8(e.scope_key)
}

/// Two entries for the same process.
pub open spec fn same_process(a: ProcessView, b: ProcessView) -> bool {
    &&& same_path(a.runtime_root, b.runtime_root)
    &&& a.session_key == b.session_key
    &&& a.workspace_id == b.workspace_id
    &&& a.scope_key == b.scope_key
    &&& a.coordinator_pid == b.coordinator_pid
    &&& a.coordinator_start == b.coordinator_start
    &&& a.broker_pid == b.broker_pid
    &&& a.broker_start == b.broker_start
    &&& a.broker_instance_id == b.broker_instance_id
    &&& same_path(a.executable_path, b.executable_path)
    &&& a.executable_digest == b.executable_digest
    &&& a.control_port == b.control_port
    &&& a.control_nonce == b.control_nonce
}

impl ManagedProcessEntry {
    /// Whether two entries are for the same process.
    pub fn same(&self, other: &ManagedProcessEntry) -> (r: bool)
        ensures
            r == same_process(self@, other@),
    {
        self.runtime_root.same(&other.runtime_root) && text_eq(
            self.session_key.as_str(),
            other.session_key.as_str(),
        ) && text_eq(self.workspace_id.as_str(), other.workspace_id.as_str()) && text_eq(
            self.scope_key.as_str(),
            other.scope_key.as_str(),
        ) && self.coordinator_pid == other.coordinator_pid && text_eq(
            self.coordinator_start.as_str(),
            other.coordinator_start.as_str(),
        ) && self.broker_pid == other.broker_pid && text_eq(
            self.broker_start.as_str(),
            other.broker_start.as_str(),
        ) && text_eq(self.broker_instance_id.as_str(), other.broker_instance_id.as_str())
            && self.executable_path.same(&other.executable_path) && text_eq(
            self.executable_digest.as_str(),
            other.executable_digest.as_str(),
        ) && self.control_port == other.control_port && text_eq(
            self.control_nonce.as_str(),
            other.control_nonce.as_str(),
        )
    }
}

/// What identifies the broker of a process that is being started.
#[derive(Debug)]
pub struct ManagedStartingBrokerProof {
    pub broker_pid: u32,
    pub broker_start: String,
    pub executable_path: FsPath,
    pub executable_digest: String,
}

/// What a broker proof says.
pub struct BrokerProofView {
    pub broker_pid: u32,
    pub broker_start: Seq<char>,
    pub executable_path: Seq<u8>,
    pub executable_digest: Seq<char>,
}

impl View for ManagedStartingBrokerProof {
    type V = BrokerProofView;

    open spec fn view(&self) -> BrokerProofView {
        BrokerProofView {
            broker_pid: self.broker_pid,
            broker_start: self.broker_start@,
            executable_path: self.executable_path@,
            executable_digest: self.executable_digest@,
        }
    }
}

/// Two proofs of the same broker.
pub open spec fn same_proof(a: BrokerProofView, b: BrokerProofView) -> bool {
    &&& a.broker_pid == b.broker_pid
    &&& a.broker_start == b.broker_start
    &&& same_path(a.executable_path, b.executable_path)
    &&& a.executable_digest == b.executable_digest
}

/// A coordinator that is being started, with its broker once that is bound.
#[derive(Debug)]
pub struct ManagedStartingProcessEntry {
    pub runtime_root: FsPath,
    pub session_key: String,
    pub workspace_id: String,
    pub scope_key: String,
    pub coordinator_pid: u32,
    pub coordinator_start: String,
    pub executable_path: FsPath,
    pub executable_digest: String,
    pub expected_generation: String,
    pub control_port: u16,
    pub control_nonce: String,
    pub broker: Option<ManagedStartingBrokerProof>,
}

/// What an entry says of a process that is being started.
pub struct StartingView {
    pub runtime_root: Seq<u8>,
    pub session_key: Seq<char>,
    pub workspace_id: Seq<char>,
    pub scope_key: Seq<char>,
    pub coordinator_pid: u32,
    pub coordinator_start: Seq<char>,
    pub executable_path: Seq<u8>,
    pub executable_digest: Seq<char>,
    pub expected_generation: Seq<char>,
    pub control_port: u16,
    pub control_nonce: Seq<char>,
    pub broker: Option<BrokerProofView>,
}

/// The proof in an optional proof.
pub open spec fn opt_proof(p: Option<ManagedStartingBrokerProof>) -> Option<BrokerProofView> {
    match p {
        Some(p) => Some(p@),
        None => None,
    }
}

impl View for ManagedStartingProcessEntry {
    type V = StartingView;

    open spec fn view(&self) -> StartingView {
        StartingView {
            runtime_root: self.runtime_root@,
            session_key: self.session_key@,
            workspace_id: self.workspace_id@,
            scope_key: self.scope_key@,
            coordinator_pid: self.coordinator_pid,
            coordinator_start: self.coordinator_start@,
            executable_path: self.executable_path@,
            executable_digest: self.executable_digest@,
            expected_generation: self.expected_generation@,
            control_port: self.control_port,
            control_nonce: self.control_nonce@,
            broker: opt_proof(self.broker),
        }
    }
}

impl Keyed for ManagedStartingProcessEntry {
    open spec fn location(&self) -> Seq<u8> {
        utf8(self.scope_key@)
    }

    fn key_bytes(&self) -> (r: &[u8]) {
        self.scope_key.as_str().as_bytes()
    }
}

/// The entries that some values stand for.
pub open spec fn starting_views(s: Seq<ManagedStartingProcessEntry>) -> Seq<StartingView> {
    s.map_values(|e: ManagedStartingProcessEntry| e@)
}

/// The key by which entries are sorted.
pub open spec fn starting_key() -> spec_fn(StartingView) -> Seq<u8> {
    |e: StartingView| utf8(e.scope_key)
}

/// Two optional proofs of the same broker.
pub open spec fn same_opt_proof(a: Option<BrokerProofView>, b: Option<BrokerProofView>) -> bool {
    match (a, b) {
        (Some(x), Some(y)) => same_proof(x, y),
        (None, None) => true,
        _ => false,
    }
}

/// Two entries for the same process that is being started.
pub open spec fn same_starting(a: StartingView, b: StartingView) -> bool {
    &&& same_path(a.runtime_root, b.runtime_root)
    &&& a.session_key == b.session_key
    &&& a.workspace_id == b.workspace_id
    &&& a.scope_key == b.scope_key
    &&& a.coordinator_pid == b.coordinator_pid
    &&& a.coordinator_start == b.coordinator_start
    &&& same_path(a.executable_path, b.executable_path)
    &&& a.executable_digest == b.executable_digest
    &&& a.expected_generation == b.expected_generation
    &&& a.control_port == b.control_port
    &&& a.control_nonce == b.control_nonce
    &&& same_opt_proof(a.broker, b.broker)
}

impl ManagedStartingBrokerProof {
    /// Whether two proofs are of the same broker.
    pub fn same(&self, other: &ManagedStartingBrokerProof) -> (r: bool)
        ensures
            r == same_proof(self@, other@),
    {
        self.broker_pid == other.broker_pid && text_eq(
            self.broker_start.as_str(),
            other.broker_start.as_str(),
        ) && self.executable_path.same(&other.executable_path) && text_eq(
            self.executable_digest.as_str(),
            other.executable_digest.as_str(),
        )
    }
}

impl ManagedStartingProcessEntry {
    /// Whether two entries are for the same process.
    pub fn same(&self, other: &ManagedStartingProcessEntry) -> (r: bool)
        ensures
            r == same_starting(self@, other@),
    {
        let bound = match (&self.broker, &other.broker) {
            (Some(a), Some(b)) => a.same(b),
            (None, None) => true,
            _ => false,
        };
        bound && self.runtime_root.same(&other.runtime_root) && text_eq(
            self.session_key.as_str(),
            other.session_key.as_str(),
        ) && text_eq(self.workspace_id.as_str(), other.workspace_id.as_str()) && text_eq(
            self.scope_key.as_str(),
            other.scope_key.as_str(),
        ) && self.coordinator_pid == other.coordinator_pid && text_eq(
            self.coordinator_start.as_str(),
            other.coordinator_start.as_str(),
        ) && self.executable_path.same(&other.executable_path) && text_eq(
            self.executable_digest.as_str(),
            other.executable_digest.as_str(),
        ) && text_eq(self.expected_generation.as_str(), other.expected_generation.as_str())
            && self.control_port == other.control_port && text_eq(
            self.control_nonce.as_str(),
            other.control_nonce.as_str(),
        )
    }
}

/// A failure of the process registries.
pub open spec fn mismatch(message: Seq<char>) -> Option<Failure> {
    Some(("owned_process_mismatch"@, message))
}

/// A text that can stand in a registry: not empty, bounded, and without what
/// separates fields and lines.
pub open spec fn field_ok(s: Seq<char>) -> bool {
    s.len() > 0 && utf8(s).len() <= 4096 && !s.contains('|') && !s.contains('\r') && !s.contains(
        '\n',
    )
}

fn is_field_ok(s: &str) -> (r: bool)
    ensures
        r == field_ok(s@),
{
    !s.is_empty() && byte_len(s) <= 4096 && !contains_char(s, '|') && !contains_char(s, '\r')
        && !contains_char(s, '\n')
}

/// Every text field of an entry can stand in a registry.
pub open spec fn process_fields_ok(e: ProcessView) -> bool {
    &&& field_ok(decode_utf8(e.runtime_root))
    &&& field_ok(decode_utf8(e.executable_path))
    &&& field_ok(e.session_key)
    &&& field_ok(e.workspace_id)
    &&& field_ok(e.scope_key)
    &&& field_ok(e.coordinator_start)
    &&& field_ok(e.broker_start)
    &&& field_ok(e.broker_instance_id)
    &&& field_ok(e.executable_digest)
    &&& field_ok(e.control_nonce)
}

/// An entry identifies a process of the recorded installation.
pub open spec fn process_identity_ok(e: ProcessView, record: RecordView) -> bool {
    &&& e.coordinator_pid != 0
    &&& e.broker_pid != 0
    &&& e.control_port != 0
    &&& same_path(e.executable_path, record.stable_binary)
    &&& e.executable_digest == record.broker_digest
    &&& hex_token(e.scope_key, 64)
    &&& hex_token(e.session_key, 64)
    &&& hex_token(e.executable_digest, 64)
}

/// What is wrong with two paths of an entry.
pub open spec fn entry_paths_failure(
    root: Seq<u8>,
    root_label: Seq<char>,
    executable: Seq<u8>,
    executable_label: Seq<char>,
) -> Option<Failure> {
    or_else(
        absolute_normal_failure(root, root_label),
        or_else(
            absolute_normal_failure(executable, executable_label),
            or_else(path_text_failure(root), path_text_failure(executable)),
        ),
    )
}

/// What is wrong with an entry.
pub open spec fn process_failure(e: ProcessView, record: RecordView) -> Option<Failure> {
    or_else(
        entry_paths_failure(
            e.runtime_root,
            "process runtime root"@,
            e.executable_path,
            "process executable"@,
        ),
        if !process_fields_ok(e) {
            mismatch("managed process registry field is invalid"@)
        } else if !process_identity_ok(e, record) {
            mismatch("managed process registry identity is invalid"@)
        } else {
            None
        },
    )
}

fn check_entry_paths(
    root: &FsPath,
    root_label: &str,
    executable: &FsPath,
    executable_label: &str,
) -> (r: ManagedResult<(String, String)>)
    ensures
        failure(r) == entry_paths_failure(root@, root_label@, executable@, executable_label@),
        r is Ok ==> r->Ok_0.0@ == decode_utf8(root@) && r->Ok_0.1@ == decode_utf8(executable@),
{
    match require_absolute_normal(root, root_label) {
        Ok(_) => {},
        Err(e) => {
            return Err(e);
        },
    }
    match require_absolute_normal(executable, executable_label) {
        Ok(_) => {},
        Err(e) => {
            return Err(e);
        },
    }
    let root_text = path_text(root)?;
    let executable_text = path_text(executable)?;
    Ok((root_text, executable_text))
}

/// Checks an entry.
pub fn validate_process_entry(entry: &ManagedProcessEntry, record: &OwnershipRecord) -> (r:
    ManagedResult<()>)
    ensures
        failure(r) == process_failure(entry@, record@),
{
    let (root, executable) = check_entry_paths(
        &entry.runtime_root,
        "process runtime root",
        &entry.executable_path,
        "process executable",
    )?;
    if !is_field_ok(root.as_str()) || !is_field_ok(executable.as_str()) || !is_field_ok(
        entry.session_key.as_str(),
    ) || !is_field_ok(entry.workspace_id.as_str()) || !is_field_ok(entry.scope_key.as_str())
        || !is_field_ok(entry.coordinator_start.as_str()) || !is_field_ok(
        entry.broker_start.as_str(),
    ) || !is_field_ok(entry.broker_instance_id.as_str()) || !is_field_ok(
        entry.executable_digest.as_str(),
    ) || !is_field_ok(entry.control_nonce.as_str()) {
        return fail("owned_process_mismatch", "managed process registry field is invalid");
    }
    if entry.coordinator_pid == 0 || entry.broker_pid == 0 || entry.control_port == 0
        || !entry.executable_path.same(&record.stable_binary) || !text_eq(
        entry.executable_digest.as_str(),
        record.broker_digest.as_str(),
    ) || !is_hex_token(entry.scope_key.as_str(), 64) || !is_hex_token(
        entry.session_key.as_str(),
        64,
    ) || !is_hex_token(entry.executable_digest.as_str(), 64) {
        return fail("owned_process_mismatch", "managed process registry identity is invalid");
    }
    Ok(())
}

/// The name of the generation that a record's binary lies in, or why it has none.
pub open spec fn recorded_generation(record: RecordView) -> Result<Seq<char>, Failure> {
    let binary = record.stable_binary;
    match parent(binary) {
        None => Err(
            ("owned_process_mismatch"@, "managed stable executable has no bin parent"@),
        ),
        Some(bin) => match parent(bin) {
            None => Err(
                (
                    "owned_process_mismatch"@,
                    "managed stable executable has no generation parent"@,
                ),
            ),
            Some(generation) => if file_name(generation) is None || !valid_utf8(
                file_name(generation)->0,
            ) {
                Err(
                    (
                        "owned_process_mismatch"@,
                        "managed stable executable generation name is invalid"@,
                    ),
                )
            } else {
                let name = decode_utf8(file_name(generation)->0);
                if file_name(binary) != Some(utf8("herdr-a2a"@)) || file_name(bin) != Some(
                    utf8("bin"@),
                ) || parent(generation) is None || file_name(parent(generation)->0) != Some(
                    utf8("generations"@),
                ) || !hex_token(name, 32) {
                    Err(
                        (
                            "owned_process_mismatch"@,
                            "managed stable executable generation layout is invalid"@,
                        ),
                    )
                } else {
                    Ok(name)
                }
            },
        },
    }
}

/// The name of the generation that a record's binary lies in.
pub fn expected_generation_for_record(record: &OwnershipRecord) -> (r: ManagedResult<String>)
    ensures
        crate::layout::text_outcome(r) == recorded_generation(record@),
{
    let Some(bin) = record.stable_binary.parent() else {
        return fail("owned_process_mismatch", "managed stable executable has no bin parent");
    };
    let Some(generation) = bin.parent() else {
        return fail(
            "owned_process_mismatch",
            "managed stable executable has no generation parent",
        );
    };
    let Some(bytes) = generation.file_name() else {
        return fail(
            "owned_process_mismatch",
            "managed stable executable generation name is invalid",
        );
    };
    let Some(name) = utf8_str(bytes.as_slice()) else {
        return fail(
            "owned_process_mismatch",
            "managed stable executable generation name is invalid",
        );
    };
    proof {
        encode_utf8_decode_utf8(name@);
    }
    let placed = match generation.parent() {
        Some(above) => above.file_name_is("generations"),
        None => false,
    };
    if !record.stable_binary.file_name_is("herdr-a2a") || !bin.file_name_is("bin") || !placed
        || !is_hex_token(name, 32) {
        return fail(
            "owned_process_mismatch",
            "managed stable executable generation layout is invalid",
        );
    }
    Ok(name.to_owned())
}

/// Every text field of an entry can stand in a registry.
pub open spec fn starting_fields_ok(e: StartingView) -> bool {
    &&& field_ok(decode_utf8(e.runtime_root))
    &&& field_ok(decode_utf8(e.executable_path))
    &&& field_ok(e.session_key)
    &&& field_ok(e.workspace_id)
    &&& field_ok(e.scope_key)
    &&& field_ok(e.coordinator_start)
    &&& field_ok(e.executable_digest)
    &&& field_ok(e.expected_generation)
    &&& field_ok(e.control_nonce)
}

/// What is wrong with the proof of a broker.
pub open spec fn proof_failure(p: BrokerProofView, record: RecordView) -> Option<Failure> {
    or_else(
        absolute_normal_failure(p.executable_path, "starting broker executable"@),
        or_else(
            path_text_failure(p.executable_path),
            if !field_ok(decode_utf8(p.executable_path)) || !field_ok(p.broker_start) || !field_ok(
                p.executable_digest,
            ) {
                mismatch("managed starting broker proof field is invalid"@)
            } else if p.broker_pid == 0 || !same_path(p.executable_path, record.stable_binary)
                || p.executable_digest != record.broker_digest || !hex_token(
                p.executable_digest,
                64,
            ) {
                mismatch("managed starting broker proof identity is invalid"@)
            } else {
                None
            },
        ),
    )
}

/// What is wrong with the identity of an entry.
pub open spec fn starting_identity_failure(e: StartingView, record: RecordView) -> Option<Failure> {
    let refused = mismatch("managed starting reservation identity is invalid"@);
    if e.coordinator_pid == 0 || e.control_port == 0 || !same_path(
        e.executable_path,
        record.stable_binary,
    ) || e.executable_digest != record.broker_digest {
        refused
    } else {
        match recorded_generation(record) {
            Err(f) => Some(f),
            Ok(generation) => if e.expected_generation != generation || !hex_token(e.scope_key, 64)
                || !hex_token(e.session_key, 64) || !hex_token(e.executable_digest, 64) {
                refused
            } else {
                None
            },
        }
    }
}

/// What is wrong with an entry of a process that is being started.
pub open spec fn starting_failure(e: StartingView, record: RecordView) -> Option<Failure> {
    or_else(
        entry_paths_failure(
            e.runtime_root,
            "starting process runtime root"@,
            e.executable_path,
            "starting process executable"@,
        ),
        if !starting_fields_ok(e) {
            mismatch("managed starting reservation field is invalid"@)
        } else {
            or_else(
                starting_identity_failure(e, record),
                match e.broker {
                    Some(p) => proof_failure(p, record),
                    None => None,
                },
            )
        },
    )
}

/// Checks the proof of a broker.
pub fn validate_starting_broker_proof(
    broker: &ManagedStartingBrokerProof,
    record: &OwnershipRecord,
) -> (r: ManagedResult<()>)
    ensures
        failure(r) == proof_failure(broker@, record@),
{
    match require_absolute_normal(&broker.executable_path, "starting broker executable") {
        Ok(_) => {},
        Err(e) => {
            return Err(e);
        },
    }
    let executable = path_text(&broker.executable_path)?;
    if !is_field_ok(executable.as_str()) || !is_field_ok(broker.broker_start.as_str())
        || !is_field_ok(broker.executable_digest.as_str()) {
        return fail("owned_process_mismatch", "managed starting broker proof field is invalid");
    }
    if broker.broker_pid == 0 || !broker.executable_path.same(&record.stable_binary) || !text_eq(
        broker.executable_digest.as_str(),
        record.broker_digest.as_str(),
    ) || !is_hex_token(broker.executable_digest.as_str(), 64) {
        return fail("owned_process_mismatch", "managed starting broker proof identity is invalid");
    }
    Ok(())
}

/// Checks an entry of a process that is being started.
pub fn validate_starting_process_entry(
    entry: &ManagedStartingProcessEntry,
    record: &OwnershipRecord,
) -> (r: ManagedResult<()>)
    ensures
        failure(r) == starting_failure(entry@, record@),
{
    let (root, executable) = check_entry_paths(
        &entry.runtime_root,
        "starting process runtime root",
        &entry.executable_path,
        "starting process executable",
    )?;
    if !is_field_ok(root.as_str()) || !is_field_ok(executable.as_str()) || !is_field_ok(
        entry.session_key.as_str(),
    ) || !is_field_ok(entry.workspace_id.as_str()) || !is_field_ok(entry.scope_key.as_str())
        || !is_field_ok(entry.coordinator_start.as_str()) || !is_field_ok(
        entry.executable_digest.as_str(),
    ) || !is_field_ok(entry.expected_generation.as_str()) || !is_field_ok(
        entry.control_nonce.as_str(),
    ) {
        return fail("owned_process_mismatch", "managed starting reservation field is invalid");
    }
    if entry.coordinator_pid == 0 || entry.control_port == 0 || !entry.executable_path.same(
        &record.stable_binary,
    ) || !text_eq(entry.executable_digest.as_str(), record.broker_digest.as_str()) {
        return fail("owned_process_mismatch", "managed starting reservation identity is invalid");
    }
    let generation = expected_generation_for_record(record)?;
    if !text_eq(entry.expected_generation.as_str(), generation.as_str()) || !is_hex_token(
        entry.scope_key.as_str(),
        64,
    ) || !is_hex_token(entry.session_key.as_str(), 64) || !is_hex_token(
        entry.executable_digest.as_str(),
        64,
    ) {
        return fail("owned_process_mismatch", "managed starting reservation identity is invalid");
    }
    match &entry.broker {
        Some(broker) => validate_starting_broker_proof(broker, record),
        None => Ok(()),
    }
}

/// A reservation with a bound broker is for a process.
pub open spec fn starting_is_for(s: StartingView, p: ProcessView) -> bool {
    &&& same_path(s.runtime_root, p.runtime_root)
    &&& s.session_key == p.session_key
    &&& s.workspace_id == p.workspace_id
    &&& s.scope_key == p.scope_key
    &&& s.coordinator_pid == p.coordinator_pid
    &&& s.coordinator_start == p.coordinator_start
    &&& same_path(s.executable_path, p.executable_path)
    &&& s.executable_digest == p.executable_digest
    &&& s.control_port == p.control_port
    &&& s.control_nonce == p.control_nonce
    &&& s.broker is Some
    &&& same_proof(
        s.broker->0,
        (BrokerProofView {
            broker_pid: p.broker_pid,
            broker_start: p.broker_start,
            executable_path: p.executable_path,
            executable_digest: p.executable_digest,
        }),
    )
}

/// Whether a reservation with a bound broker is for a process.
pub fn starting_matches_process(
    starting: &ManagedStartingProcessEntry,
    process: &ManagedProcessEntry,
) -> (r: bool)
    ensures
        r == starting_is_for(starting@, process@),
{
    let bound = match &starting.broker {
        Some(broker) => broker.broker_pid == process.broker_pid && text_eq(
            broker.broker_start.as_str(),
            process.broker_start.as_str(),
        ) && broker.executable_path.same(&process.executable_path) && text_eq(
            broker.executable_digest.as_str(),
            process.executable_digest.as_str(),
        ),
        None => false,
    };
    bound && starting.runtime_root.same(&process.runtime_root) && text_eq(
        starting.session_key.as_str(),
        process.session_key.as_str(),
    ) && text_eq(starting.workspace_id.as_str(), process.workspace_id.as_str()) && text_eq(
        starting.scope_key.as_str(),
        process.scope_key.as_str(),
    ) && starting.coordinator_pid == process.coordinator_pid && text_eq(
        starting.coordinator_start.as_str(),
        process.coordinator_start.as_str(),
    ) && starting.executable_path.same(&process.executable_path) && text_eq(
        starting.executable_digest.as_str(),
        process.executable_digest.as_str(),
    ) && starting.control_port == process.control_port && text_eq(
        starting.control_nonce.as_str(),
        process.control_nonce.as_str(),
    )
}

/// The position of the first colon of a text, or its length.
pub open spec fn colon_at(s: Seq<char>) -> int
    decreases s.len(),
{
    if s.len() == 0 || s[0] == ':' {
        0
    } else {
        1 + colon_at(s.skip(1))
    }
}

/// The entry that the fields of a line stand for, or why they stand for none.
pub open spec fn fields_entry(fields: Seq<Seq<char>>) -> Result<ProcessView, Failure> {
    if fields.len() != 13 || fields[0] != "entry"@ {
        Err(("owned_process_mismatch"@, "managed process registry entry is invalid"@))
    } else if number_of(fields[5], 4294967295) is None {
        Err(("owned_process_mismatch"@, "coordinator PID is invalid"@))
    } else if number_of(fields[7], 4294967295) is None {
        Err(("owned_process_mismatch"@, "broker PID is invalid"@))
    } else if !fields[12].contains(':') {
        Err(("owned_process_mismatch"@, "control identity is invalid"@))
    } else if number_of(fields[12].take(colon_at(fields[12])), 65535) is None {
        Err(("owned_process_mismatch"@, "control port is invalid"@))
    } else {
        Ok(
            ProcessView {
                scope_key: fields[1],
                workspace_id: fields[2],
                session_key: fields[3],
                runtime_root: utf8(fields[4]),
                coordinator_pid: number_of(fields[5], 4294967295)->0 as u32,
                coordinator_start: fields[6],
                broker_pid: number_of(fields[7], 4294967295)->0 as u32,
                broker_start: fields[8],
                broker_instance_id: fields[9],
                executable_path: utf8(fields[10]),
                executable_digest: fields[11],
                control_port: number_of(fields[12].take(colon_at(fields[12])), 65535)->0 as u16,
                control_nonce: fields[12].skip(colon_at(fields[12]) + 1),
            },
        )
    }
}

/// The scopes of processes.
pub open spec fn process_scopes(entries: Seq<ProcessView>) -> Seq<Seq<char>> {
    entries.map_values(process_scope())
}

/// The scope of a process.
pub open spec fn process_scope() -> spec_fn(ProcessView) -> Seq<char> {
    |e: ProcessView| e.scope_key
}

/// The scopes of reservations.
pub open spec fn starting_scopes(entries: Seq<StartingView>) -> Seq<Seq<char>> {
    entries.map_values(starting_scope())
}

/// The scope of a reservation.
pub open spec fn starting_scope() -> spec_fn(StartingView) -> Seq<char> {
    |e: StartingView| e.scope_key
}

/// An entry has the scope of one before it.
pub open spec fn scope_taken(entries: Seq<ProcessView>, scope: Seq<char>) -> bool {
    exists|i: int| 0 <= i < entries.len() && (#[trigger] entries[i]).scope_key == scope
}

/// The entries that the first `n` lines after the head stand for.
pub open spec fn lines_entries(lines: Seq<Seq<char>>, record: RecordView, n: int) -> Result<
    Seq<ProcessView>,
    Failure,
>
    decreases n,
{
    if n <= 0 {
        Ok(Seq::empty())
    } else {
        match lines_entries(lines, record, n - 1) {
            Err(f) => Err(f),
            Ok(entries) => if lines[n - 1].len() == 0 || entries.len()
                >= MAX_PROCESS_REGISTRY_ENTRIES {
                Err(("owned_process_mismatch"@, "managed process registry shape is invalid"@))
            } else {
                match fields_entry(split_text(lines[n - 1], '|')) {
                    Err(f) => Err(f),
                    Ok(e) => match process_failure(e, record) {
                        Some(f) => Err(f),
                        None => if scope_taken(entries, e.scope_key) {
                            Err(
                                (
                                    "owned_process_mismatch"@,
                                    "managed process registry contains a duplicate scope"@,
                                ),
                            )
                        } else {
                            Ok(entries.push(e))
                        },
                    },
                }
            },
        }
    }
}

/// The line that a registry starts with.
pub open spec fn registry_magic() -> Seq<char> {
    "HERDR_A2A_PROCESS_REGISTRY_V1"@
}

/// The entries of a registry, or what is wrong with it.
pub open spec fn registry_entries(text: Seq<char>, record: RecordView) -> Result<
    Seq<ProcessView>,
    Failure,
> {
    let lines = text_lines(text);
    if lines.len() == 0 || lines[0] != registry_magic() {
        Err(("owned_process_mismatch"@, "managed process registry schema is invalid"@))
    } else {
        match lines_entries(lines.skip(1), record, lines.len() - 1) {
            Err(f) => Err(f),
            Ok(entries) => if text.last() != '\n' {
                Err(
                    (
                        "owned_process_mismatch"@,
                        "managed process registry is not newline terminated"@,
                    ),
                )
            } else {
                Ok(entries)
            },
        }
    }
}

/// A result that holds entries.
pub open spec fn entries_outcome(r: Result<Vec<ManagedProcessEntry>, ManagedError>) -> Result<
    Seq<ProcessView>,
    Failure,
> {
    match r {
        Ok(v) => Ok(process_views(v@)),
        Err(e) => Err(e@),
    }
}

fn find_colon(s: &[char]) -> (r: usize)
    ensures
        r == colon_at(s@),
        r <= s.len(),
        (r < s.len()) == s@.contains(':'),
{
    let mut i: usize = 0;
    assert(s@.skip(0) =~= s@);
    while i < s.len()
        invariant
            i <= s.len(),
            colon_at(s@) == i + colon_at(s@.skip(i as int)),
            forall|k: int| 0 <= k < i ==> s@[k] != ':',
        decreases s.len() - i,
    {
        assert(s@.skip(i as int)[0] == s@[i as int]);
        assert(s@.skip(i as int).skip(1) =~= s@.skip(i + 1));
        if s[i] == ':' {
            assert(s@.contains(':'));
            return i;
        }
        i += 1;
    }
    i
}

fn entry_from_fields(fields: &Vec<Vec<char>>) -> (r: ManagedResult<ManagedProcessEntry>)
    ensures
        outcome(r) == fields_entry(char_views(fields@)),
{
    let ghost views = char_views(fields@);
    assert(views.len() == fields@.len());
    if fields.len() != 13 {
        return fail("owned_process_mismatch", "managed process registry entry is invalid");
    }
    assert forall|k: int| 0 <= k < 13 implies #[trigger] views[k] == fields@[k]@ by {}
    let kind = chars_text(fields[0].as_slice());
    if !text_eq(kind.as_str(), "entry") {
        return fail("owned_process_mismatch", "managed process registry entry is invalid");
    }
    let Some(coordinator_pid) = parse_number(fields[5].as_slice(), 4294967295) else {
        return fail("owned_process_mismatch", "coordinator PID is invalid");
    };
    let Some(broker_pid) = parse_number(fields[7].as_slice(), 4294967295) else {
        return fail("owned_process_mismatch", "broker PID is invalid");
    };
    let control = fields[12].as_slice();
    let colon: usize = find_colon(control);
    if colon >= control.len() {
        return fail("owned_process_mismatch", "control identity is invalid");
    }
    let port_digits = vstd::slice::slice_subrange(control, 0, colon);
    assert(port_digits@ =~= control@.take(colon as int));
    let Some(control_port) = parse_number(port_digits, 65535) else {
        return fail("owned_process_mismatch", "control port is invalid");
    };
    let nonce = vstd::slice::slice_subrange(control, colon + 1, control.len());
    assert(nonce@ =~= control@.skip(colon + 1));
    Ok(
        ManagedProcessEntry {
            scope_key: chars_text(fields[1].as_slice()),
            workspace_id: chars_text(fields[2].as_slice()),
            session_key: chars_text(fields[3].as_slice()),
            runtime_root: FsPath::from_text(chars_text(fields[4].as_slice()).as_str()),
            coordinator_pid: coordinator_pid as u32,
            coordinator_start: chars_text(fields[6].as_slice()),
            broker_pid: broker_pid as u32,
            broker_start: chars_text(fields[8].as_slice()),
            broker_instance_id: chars_text(fields[9].as_slice()),
            executable_path: FsPath::from_text(chars_text(fields[10].as_slice()).as_str()),
            executable_digest: chars_text(fields[11].as_slice()),
            control_port: control_port as u16,
            control_nonce: chars_text(nonce),
        },
    )
}

/// Whether an entry has a scope.
pub fn has_scope(entries: &Vec<ManagedProcessEntry>, scope: &str) -> (r: bool)
    ensures
        r == scope_taken(process_views(entries@), scope@),
{
    let ghost views = process_views(entries@);
    let mut i: usize = 0;
    while i < entries.len()
        invariant
            i <= entries.len(),
            views == process_views(entries@),
            forall|k: int| 0 <= k < i ==> (#[trigger] views[k]).scope_key != scope@,
        decreases entries.len() - i,
    {
        assert(views[i as int] == entries@[i as int]@);
        if text_eq(entries[i].scope_key.as_str(), scope) {
            return true;
        }
        i += 1;
    }
    false
}

proof fn lemma_lines_failure_stays(lines: Seq<Seq<char>>, record: RecordView, n: int, m: int)
    requires
        0 <= n <= m,
        lines_entries(lines, record, n) is Err,
    ensures
        lines_entries(lines, record, m) == lines_entries(lines, record, n),
    decreases m - n,
{
    if n < m {
        lemma_lines_failure_stays(lines, record, n, m - 1);
    }
}

/// Reads the entries of a registry.
pub fn read_process_registry(text: &str, record: &OwnershipRecord) -> (r: ManagedResult<
    Vec<ManagedProcessEntry>,
>)
    ensures
        entries_outcome(r) == registry_entries(text@, record@),
{
    let cs = text_chars(text);
    let lines = split_lines(cs.as_slice());
    let ghost views = char_views(lines@);
    assert(views.len() == lines@.len());
    if lines.len() == 0 {
        return fail("owned_process_mismatch", "managed process registry schema is invalid");
    }
    assert(views[0] == lines@[0]@);
    let head = chars_text(lines[0].as_slice());
    if !text_eq(head.as_str(), "HERDR_A2A_PROCESS_REGISTRY_V1") {
        return fail("owned_process_mismatch", "managed process registry schema is invalid");
    }
    let ghost rest = views.skip(1);
    let ghost total: int = views.len() - 1;
    let mut entries: Vec<ManagedProcessEntry> = Vec::new();
    let mut i: usize = 1;
    assert(process_views(entries@) =~= Seq::<ProcessView>::empty());
    while i < lines.len()
        invariant
            1 <= i <= lines.len(),
            views == char_views(lines@),
            views == text_lines(text@),
            views.len() == lines@.len(),
            views.len() > 0,
            views[0] == registry_magic(),
            rest == views.skip(1),
            total == views.len() - 1,
            lines_entries(rest, record@, i - 1) == Ok::<Seq<ProcessView>, Failure>(
                process_views(entries@),
            ),
        decreases lines.len() - i,
    {
        proof {
            assert(rest[i - 1] == lines@[i as int]@);
            assert(process_views(entries@).len() == entries@.len());
            if lines_entries(rest, record@, i as int) is Err {
                lemma_lines_failure_stays(rest, record@, i as int, total);
            }
        }
        if lines[i].len() == 0 || entries.len() >= MAX_PROCESS_REGISTRY_ENTRIES {
            return fail("owned_process_mismatch", "managed process registry shape is invalid");
        }
        let fields = split_chars(lines[i].as_slice(), '|');
        let entry = entry_from_fields(&fields)?;
        validate_process_entry(&entry, record)?;
        if has_scope(&entries, entry.scope_key.as_str()) {
            return fail(
                "owned_process_mismatch",
                "managed process registry contains a duplicate scope",
            );
        }
        let ghost before = process_views(entries@);
        let ghost added = entry@;
        entries.push(entry);
        assert(process_views(entries@) =~= before.push(added));
        i += 1;
    }
    if cs.len() == 0 || cs[cs.len() - 1] != '\n' {
        proof {
            if cs.len() == 0 {
                assert(split_text(text@, '\n') =~= seq![Seq::<char>::empty()]);
                assert(text_lines(text@).len() == 0);
            }
        }
        return fail(
            "owned_process_mismatch",
            "managed process registry is not newline terminated",
        );
    }
    Ok(entries)
}

/// The line of an entry in a registry, without its line feed.
pub open spec fn entry_line(e: ProcessView) -> Seq<char> {
    "entry"@ + "|"@ + e.scope_key + "|"@ + e.workspace_id + "|"@ + e.session_key + "|"@
        + decode_utf8(e.runtime_root) + "|"@ + decimal(e.coordinator_pid as nat) + "|"@
        + e.coordinator_start + "|"@ + decimal(e.broker_pid as nat) + "|"@ + e.broker_start + "|"@
        + e.broker_instance_id + "|"@ + decode_utf8(e.executable_path) + "|"@ + e.executable_digest
        + "|"@ + (decimal(e.control_port as nat) + ":"@ + e.control_nonce)
}

/// The text of a registry.
pub open spec fn registry_text(entries: Seq<ProcessView>) -> Seq<char>
    decreases entries.len(),
{
    if entries.len() == 0 {
        registry_magic() + "\n"@
    } else {
        registry_text(entries.drop_last()) + entry_line(entries.last()) + "\n"@
    }
}

/// The first entry with a fault.
pub open spec fn processes_failure(entries: Seq<ProcessView>, record: RecordView) -> Option<Failure>
    decreases entries.len(),
{
    if entries.len() == 0 {
        None
    } else {
        or_else(
            processes_failure(entries.drop_last(), record),
            process_failure(entries.last(), record),
        )
    }
}

proof fn lemma_processes_failure_stays(entries: Seq<ProcessView>, record: RecordView, n: int)
    requires
        0 <= n <= entries.len(),
        processes_failure(entries.take(n), record) is Some,
    ensures
        processes_failure(entries, record) == processes_failure(entries.take(n), record),
    decreases entries.len() - n,
{
    if n == entries.len() {
        assert(entries.take(n) =~= entries);
    } else {
        assert(entries.take(n + 1).drop_last() =~= entries.take(n));
        lemma_processes_failure_stays(entries, record, n + 1);
    }
}

/// The text that a registry is written as, or why it is not written.
pub open spec fn written_registry(entries: Seq<ProcessView>, record: RecordView) -> Result<
    Seq<char>,
    Failure,
> {
    if entries.len() > MAX_PROCESS_REGISTRY_ENTRIES {
        Err(("owned_process_mismatch"@, "managed process registry is full"@))
    } else {
        match processes_failure(entries, record) {
            Some(f) => Err(f),
            None => if utf8(registry_text(entries)).len() > MAX_PROCESS_REGISTRY_BYTES {
                Err(("owned_process_mismatch"@, "managed process registry is oversized"@))
            } else {
                Ok(registry_text(entries))
            },
        }
    }
}

fn push_entry_line(out: &mut String, e: &ManagedProcessEntry, root: &str, executable: &str)
    requires
        root@ == decode_utf8(e.runtime_root@),
        executable@ == decode_utf8(e.executable_path@),
    ensures
        final(out)@ == old(out)@ + entry_line(e@) + "\n"@,
{
    let ghost before = out@;
    let mut line = "entry".to_owned();
    line.append("|");
    line.append(e.scope_key.as_str());
    line.append("|");
    line.append(e.workspace_id.as_str());
    line.append("|");
    line.append(e.session_key.as_str());
    line.append("|");
    line.append(root);
    line.append("|");
    push_decimal(&mut line, e.coordinator_pid as u64);
    line.append("|");
    line.append(e.coordinator_start.as_str());
    line.append("|");
    push_decimal(&mut line, e.broker_pid as u64);
    line.append("|");
    line.append(e.broker_start.as_str());
    line.append("|");
    line.append(e.broker_instance_id.as_str());
    line.append("|");
    line.append(executable);
    line.append("|");
    line.append(e.executable_digest.as_str());
    line.append("|");
    let mut control = String::new();
    push_decimal(&mut control, e.control_port as u64);
    assert(control@ =~= decimal(e.control_port as nat));
    control.append(":");
    control.append(e.control_nonce.as_str());
    line.append(control.as_str());
    assert(line@ == entry_line(e@));
    out.append(line.as_str());
    out.append("\n");
}

/// Writes a registry.
pub fn write_process_registry(entries: &Vec<ManagedProcessEntry>, record: &OwnershipRecord) -> (r:
    ManagedResult<String>)
    ensures
        crate::layout::text_outcome(r) == written_registry(process_views(entries@), record@),
{
    let ghost views = process_views(entries@);
    assert(views.len() == entries@.len());
    if entries.len() > MAX_PROCESS_REGISTRY_ENTRIES {
        return fail("owned_process_mismatch", "managed process registry is full");
    }
    let mut out = "HERDR_A2A_PROCESS_REGISTRY_V1".to_owned();
    out.append("\n");
    let mut i: usize = 0;
    assert(out@ == registry_text(views.take(0)));
    while i < entries.len()
        invariant
            i <= entries.len(),
            views == process_views(entries@),
            views.len() == entries@.len(),
            views.len() <= MAX_PROCESS_REGISTRY_ENTRIES,
            processes_failure(views.take(i as int), record@) is None,
            out@ == registry_text(views.take(i as int)),
        decreases entries.len() - i,
    {
        proof {
            assert(views[i as int] == entries@[i as int]@);
            assert(views.take(i + 1).drop_last() =~= views.take(i as int));
            assert(views.take(i + 1).last() == views[i as int]);
            if processes_failure(views.take(i + 1), record@) is Some {
                lemma_processes_failure_stays(views, record@, i + 1);
            }
        }
        validate_process_entry(&entries[i], record)?;
        let root = path_text(&entries[i].runtime_root)?;
        let executable = path_text(&entries[i].executable_path)?;
        push_entry_line(&mut out, &entries[i], root.as_str(), executable.as_str());
        i += 1;
    }
    assert(views.take(i as int) =~= views);
    if byte_len(out.as_str()) as u64 > MAX_PROCESS_REGISTRY_BYTES {
        return fail("owned_process_mismatch", "managed process registry is oversized");
    }
    Ok(out)
}

/// Some fields with a bar between each two.
pub open spec fn barred(fields: Seq<Seq<char>>) -> Seq<char>
    decreases fields.len(),
{
    if fields.len() == 0 {
        Seq::empty()
    } else if fields.len() == 1 {
        fields[0]
    } else {
        barred(fields.drop_last()).push('|') + fields.last()
    }
}

/// The fields of the line of an entry.
pub open spec fn entry_fields(e: ProcessView) -> Seq<Seq<char>> {
    seq![
        "entry"@,
        e.scope_key,
        e.workspace_id,
        e.session_key,
        decode_utf8(e.runtime_root),
        decimal(e.coordinator_pid as nat),
        e.coordinator_start,
        decimal(e.broker_pid as nat),
        e.broker_start,
        e.broker_instance_id,
        decode_utf8(e.executable_path),
        e.executable_digest,
        decimal(e.control_port as nat) + ":"@ + e.control_nonce,
    ]
}

proof fn lemma_barred_splits(fields: Seq<Seq<char>>)
    requires
        fields.len() > 0,
        forall|i: int| 0 <= i < fields.len() ==> !(#[trigger] fields[i]).contains('|'),
    ensures
        split_text(barred(fields), '|') == fields,
    decreases fields.len(),
{
    lemma_split_one(fields.last(), '|');
    if fields.len() == 1 {
        assert(fields =~= seq![fields[0]]);
    } else {
        let rest = fields.drop_last();
        assert forall|i: int| 0 <= i < rest.len() implies !(#[trigger] rest[i]).contains('|') by {
            assert(rest[i] == fields[i]);
        }
        lemma_barred_splits(rest);
        lemma_split_joined(barred(rest), fields.last(), '|');
        assert(rest + seq![fields.last()] =~= fields);
    }
}

proof fn lemma_barred_free_of(fields: Seq<Seq<char>>, c: char)
    requires
        c != '|',
        forall|i: int| 0 <= i < fields.len() ==> !(#[trigger] fields[i]).contains(c),
    ensures
        !barred(fields).contains(c),
    decreases fields.len(),
{
    if fields.len() > 1 {
        let rest = fields.drop_last();
        assert forall|i: int| 0 <= i < rest.len() implies !(#[trigger] rest[i]).contains(c) by {
            assert(rest[i] == fields[i]);
        }
        lemma_barred_free_of(rest, c);
        let whole = barred(fields);
        if whole.contains(c) {
            let k = choose|k: int| 0 <= k < whole.len() && whole[k] == c;
            let n = barred(rest).len() as int;
            if k < n {
                assert(barred(rest)[k] == c);
            } else if k > n {
                assert(fields.last()[k - n - 1] == c);
                assert(!fields[fields.len() - 1].contains(c));
            }
        }
    }
}

proof fn lemma_entry_line_is_barred(e: ProcessView)
    ensures
        entry_line(e) == barred(entry_fields(e)),
{
    reveal_strlit("|");
    let f = entry_fields(e);
    assert("|"@ =~= seq!['|']);
    assert forall|a: Seq<char>, b: Seq<char>| #[trigger] (a.push('|') + b) == a + "|"@ + b by {
        assert(a.push('|') =~= a + "|"@);
    }
    lemma_barred_prefix(f, 1);
    lemma_barred_prefix(f, 2);
    lemma_barred_prefix(f, 3);
    lemma_barred_prefix(f, 4);
    lemma_barred_prefix(f, 5);
    lemma_barred_prefix(f, 6);
    lemma_barred_prefix(f, 7);
    lemma_barred_prefix(f, 8);
    lemma_barred_prefix(f, 9);
    lemma_barred_prefix(f, 10);
    lemma_barred_prefix(f, 11);
    lemma_barred_prefix(f, 12);
    assert(f.take(1) =~= seq![f[0]]);
    assert(f.take(13) =~= f);
}

proof fn lemma_barred_prefix(f: Seq<Seq<char>>, n: int)
    requires
        1 <= n < f.len(),
    ensures
        barred(f.take(n + 1)) == barred(f.take(n)).push('|') + f[n],
{
    assert(f.take(n + 1).drop_last() =~= f.take(n));
}

proof fn lemma_digits_free_of(n: nat, c: char)
    requires
        !('0' <= c && c <= '9'),
    ensures
        !decimal(n).contains(c),
{
    lemma_decimal_reads_back(n);
}

proof fn lemma_entry_fields_free(e: ProcessView, record: RecordView, c: char)
    requires
        process_failure(e, record) is None,
        c == '|' || c == '\r' || c == '\n',
    ensures
        forall|i: int| 0 <= i < 13 ==> !(#[trigger] entry_fields(e)[i]).contains(c),
{
    reveal_strlit("entry");
    reveal_strlit(":");
    lemma_digits_free_of(e.coordinator_pid as nat, c);
    lemma_digits_free_of(e.broker_pid as nat, c);
    lemma_digits_free_of(e.control_port as nat, c);
    let control = decimal(e.control_port as nat) + ":"@ + e.control_nonce;
    assert(!control.contains(c)) by {
        if control.contains(c) {
            let k = choose|k: int| 0 <= k < control.len() && control[k] == c;
            let d = decimal(e.control_port as nat);
            if k < d.len() {
                assert(d[k] == c);
            } else if k > d.len() {
                assert(e.control_nonce[k - d.len() - 1] == c);
            }
        }
    }
    assert(!"entry"@.contains(c));
}

proof fn lemma_colon_after(a: Seq<char>, b: Seq<char>)
    requires
        !a.contains(':'),
    ensures
        colon_at(a.push(':') + b) == a.len(),
    decreases a.len(),
{
    let whole = a.push(':') + b;
    if a.len() > 0 {
        assert(a[0] != ':') by {
            assert(a.contains(a[0]));
        }
        assert(whole.skip(1) =~= a.skip(1).push(':') + b);
        assert(!a.skip(1).contains(':')) by {
            if a.skip(1).contains(':') {
                let k = choose|k: int| 0 <= k < a.skip(1).len() && a.skip(1)[k] == ':';
                assert(a[k + 1] == ':');
            }
        }
        lemma_colon_after(a.skip(1), b);
    }
}

proof fn lemma_entry_reads_back(e: ProcessView, record: RecordView)
    requires
        process_failure(e, record) is None,
    ensures
        split_text(entry_line(e), '|') == entry_fields(e),
        fields_entry(entry_fields(e)) == Ok::<ProcessView, Failure>(e),
        !entry_line(e).contains('\n'),
        !entry_line(e).contains('\r'),
        entry_line(e).len() > 0,
{
    reveal_strlit(":");
    lemma_entry_line_is_barred(e);
    lemma_entry_fields_free(e, record, '|');
    lemma_entry_fields_free(e, record, '\n');
    lemma_entry_fields_free(e, record, '\r');
    let f = entry_fields(e);
    lemma_barred_splits(f);
    lemma_barred_free_of(f, '\n');
    lemma_barred_free_of(f, '\r');
    lemma_number_reads_back(e.coordinator_pid as nat, 4294967295);
    lemma_number_reads_back(e.broker_pid as nat, 4294967295);
    lemma_number_reads_back(e.control_port as nat, 65535);
    let d = decimal(e.control_port as nat);
    lemma_digits_free_of(e.control_port as nat, ':');
    lemma_colon_after(d, e.control_nonce);
    assert(":"@ =~= seq![':']);
    assert(f[12] =~= d.push(':') + e.control_nonce);
    assert(f[12][d.len() as int] == ':');
    assert(f[12].contains(':'));
    assert(f[12].take(d.len() as int) =~= d);
    assert(f[12].skip(d.len() as int + 1) =~= e.control_nonce);
    decode_utf8_encode_utf8(e.runtime_root);
    decode_utf8_encode_utf8(e.executable_path);
    assert(barred(f.take(13)) == barred(f.take(12)).push('|') + f[12]) by {
        lemma_barred_prefix(f, 12);
    }
    assert(f.take(13) =~= f);
}

/// The text of a registry without its last line feed.
spec fn open_registry(entries: Seq<ProcessView>) -> Seq<char>
    decreases entries.len(),
{
    if entries.len() == 0 {
        registry_magic()
    } else {
        open_registry(entries.drop_last()).push('\n') + entry_line(entries.last())
    }
}

/// The lines of a registry.
spec fn registry_lines(entries: Seq<ProcessView>) -> Seq<Seq<char>> {
    seq![registry_magic()] + entries.map_values(|e: ProcessView| entry_line(e))
}

proof fn lemma_registry_closes(entries: Seq<ProcessView>)
    ensures
        registry_text(entries) == open_registry(entries).push('\n'),
    decreases entries.len(),
{
    reveal_strlit("\n");
    assert("\n"@ =~= seq!['\n']);
    if entries.len() > 0 {
        lemma_registry_closes(entries.drop_last());
    }
    assert(registry_text(entries) =~= open_registry(entries).push('\n'));
}

proof fn lemma_magic_is_one_line()
    ensures
        split_text(registry_magic(), '\n') == seq![registry_magic()],
{
    reveal_strlit("HERDR_A2A_PROCESS_REGISTRY_V1");
    assert(!registry_magic().contains('\n'));
    lemma_split_one(registry_magic(), '\n');
}

#[verifier::rlimit(40)]
proof fn lemma_registry_splits(entries: Seq<ProcessView>, record: RecordView)
    requires
        processes_failure(entries, record) is None,
    ensures
        split_text(open_registry(entries), '\n') == registry_lines(entries),
    decreases entries.len(),
{
    if entries.len() == 0 {
        lemma_magic_is_one_line();
        assert(registry_lines(entries) =~= seq![registry_magic()]);
    } else {
        let rest = entries.drop_last();
        lemma_registry_splits(rest, record);
        lemma_entry_reads_back(entries.last(), record);
        lemma_split_one(entry_line(entries.last()), '\n');
        lemma_split_joined(open_registry(rest), entry_line(entries.last()), '\n');
        assert(registry_lines(rest) + seq![entry_line(entries.last())] =~= registry_lines(entries));
    }
}

proof fn lemma_each_entry_sound(entries: Seq<ProcessView>, record: RecordView, i: int)
    requires
        processes_failure(entries, record) is None,
        0 <= i < entries.len(),
    ensures
        process_failure(entries[i], record) is None,
    decreases entries.len(),
{
    if i < entries.len() - 1 {
        lemma_each_entry_sound(entries.drop_last(), record, i);
    }
}

proof fn lemma_registry_text_lines(entries: Seq<ProcessView>, record: RecordView)
    requires
        processes_failure(entries, record) is None,
    ensures
        text_lines(registry_text(entries)) == registry_lines(entries),
{
    lemma_registry_closes(entries);
    lemma_registry_splits(entries, record);
    let empty = Seq::<char>::empty();
    lemma_split_joined(open_registry(entries), empty, '\n');
    assert(open_registry(entries).push('\n') + empty =~= registry_text(entries));
    let pieces = split_text(registry_text(entries), '\n');
    assert(split_text(empty, '\n') =~= seq![empty]);
    assert(pieces =~= registry_lines(entries).push(empty));
    assert(pieces.drop_last() =~= registry_lines(entries));
    let lines = registry_lines(entries);
    assert forall|i: int| 0 <= i < lines.len() implies without_return(#[trigger] lines[i])
        == lines[i] by {
        if i == 0 {
            reveal_strlit("HERDR_A2A_PROCESS_REGISTRY_V1");
            assert(lines[0] == registry_magic());
        } else {
            lemma_each_entry_sound(entries, record, i - 1);
            lemma_entry_reads_back(entries[i - 1], record);
            assert(lines[i] == entry_line(entries[i - 1]));
            if lines[i].last() == '\r' {
                assert(lines[i].contains('\r'));
            }
        }
    }
    assert(lines.map_values(|p: Seq<char>| without_return(p)) =~= lines);
}

proof fn lemma_lines_read_back(entries: Seq<ProcessView>, record: RecordView, n: int)
    requires
        processes_failure(entries, record) is None,
        entries.len() <= MAX_PROCESS_REGISTRY_ENTRIES,
        process_scopes(entries).no_duplicates(),
        0 <= n <= entries.len(),
    ensures
        lines_entries(registry_lines(entries).skip(1), record, n) == Ok::<
            Seq<ProcessView>,
            Failure,
        >(entries.take(n)),
    decreases n,
{
    let lines = registry_lines(entries).skip(1);
    if n > 0 {
        lemma_lines_read_back(entries, record, n - 1);
        lemma_each_entry_sound(entries, record, n - 1);
        lemma_entry_reads_back(entries[n - 1], record);
        assert(lines[n - 1] == entry_line(entries[n - 1]));
        assert(!scope_taken(entries.take(n - 1), entries[n - 1].scope_key)) by {
            let scopes = process_scopes(entries);
            assert forall|i: int| 0 <= i < n - 1 implies (#[trigger] entries.take(
                n - 1,
            )[i]).scope_key != entries[n - 1].scope_key by {
                assert(scopes[i] != scopes[n - 1]);
            }
        }
        assert(entries.take(n) =~= entries.take(n - 1).push(entries[n - 1]));
    } else {
        assert(entries.take(0) =~= Seq::<ProcessView>::empty());
    }
}

/// A registry that was written is read back entry by entry.
pub proof fn law_written_registry_reads_back(entries: Seq<ProcessView>, record: RecordView)
    requires
        written_registry(entries, record) is Ok,
        process_scopes(entries).no_duplicates(),
    ensures
        registry_entries(written_registry(entries, record)->Ok_0, record) == Ok::<
            Seq<ProcessView>,
            Failure,
        >(entries),
{
    let text = registry_text(entries);
    lemma_registry_text_lines(entries, record);
    lemma_lines_read_back(entries, record, entries.len() as int);
    lemma_registry_closes(entries);
    assert(entries.take(entries.len() as int) =~= entries);
    assert(registry_lines(entries)[0] == registry_magic());
}

/// Whether the installation takes new processes.
pub open spec fn accepts_processes(state: InstallState) -> bool {
    state == InstallState::Ready || state == InstallState::PiAdapterPending
}

/// Checks that the installation takes new processes.
fn check_accepting(state: InstallState, message: &str) -> (r: ManagedResult<()>)
    ensures
        failure(r) == if accepts_processes(state) {
            None
        } else {
            mismatch(message@)
        },
{
    match state {
        InstallState::Ready | InstallState::PiAdapterPending => Ok(()),
        _ => fail("owned_process_mismatch", message),
    }
}

/// Another entry has the scope of one.
pub open spec fn starting_conflict(entries: Seq<StartingView>, e: StartingView) -> bool {
    exists|i: int|
        0 <= i < entries.len() && (#[trigger] entries[i]).scope_key == e.scope_key && !same_starting(
            entries[i],
            e,
        )
}

/// The same entry is there already.
pub open spec fn starting_present(entries: Seq<StartingView>, e: StartingView) -> bool {
    exists|i: int| 0 <= i < entries.len() && same_starting(#[trigger] entries[i], e)
}

fn find_starting_conflict(
    entries: &Vec<ManagedStartingProcessEntry>,
    e: &ManagedStartingProcessEntry,
) -> (r: (bool, bool))
    ensures
        r.0 == starting_conflict(starting_views(entries@), e@),
        r.1 == starting_present(starting_views(entries@), e@),
{
    let ghost views = starting_views(entries@);
    let mut conflict = false;
    let mut present = false;
    let mut i: usize = 0;
    while i < entries.len()
        invariant
            i <= entries.len(),
            views == starting_views(entries@),
            conflict == exists|k: int|
                0 <= k < i && (#[trigger] views[k]).scope_key == e@.scope_key && !same_starting(
                    views[k],
                    e@,
                ),
            present == exists|k: int| 0 <= k < i && same_starting(#[trigger] views[k], e@),
        decreases entries.len() - i,
    {
        assert(views[i as int] == entries@[i as int]@);
        let same = entries[i].same(e);
        if same {
            assert(same_starting(views[i as int], e@));
            present = true;
        } else if text_eq(entries[i].scope_key.as_str(), e.scope_key.as_str()) {
            assert(views[i as int].scope_key == e@.scope_key);
            conflict = true;
        }
        i += 1;
    }
    (conflict, present)
}

/// The reservations after one more, or why it is refused.
pub open spec fn reserved(
    state: InstallState,
    record: RecordView,
    record_check: Option<Failure>,
    registered: Seq<ProcessView>,
    entries: Seq<StartingView>,
    e: StartingView,
) -> Result<Seq<StartingView>, Failure> {
    if !accepts_processes(state) {
        Err(
            (
                "owned_process_mismatch"@,
                "managed installation is not accepting process reservations"@,
            ),
        )
    } else {
        match or_else(record_check, starting_failure(e, record)) {
            Some(f) => Err(f),
            None => if scope_taken(registered, e.scope_key) {
                Err(
                    (
                        "owned_process_mismatch"@,
                        "a registered process generation already owns this managed scope"@,
                    ),
                )
            } else if starting_conflict(entries, e) {
                Err(
                    (
                        "owned_process_mismatch"@,
                        "a different starting process generation already owns this managed scope"@,
                    ),
                )
            } else if starting_present(entries, e) {
                Ok(entries)
            } else {
                Ok(sorted_by(SortOrder::ByBytes, entries.push(e), starting_key()))
            },
        }
    }
}

/// A result that holds reservations and whether they changed.
pub open spec fn starting_outcome(
    r: Result<(Vec<ManagedStartingProcessEntry>, bool), ManagedError>,
) -> Result<Seq<StartingView>, Failure> {
    match r {
        Ok(v) => Ok(starting_views(v.0@)),
        Err(e) => Err(e@),
    }
}

/// Reserves the start of a process. The second part of the result tells whether
/// the reservations changed and are to be written.
pub fn reserve_managed_process_start(
    record: &OwnershipRecord,
    record_check: &ManagedResult<()>,
    registered: &Vec<ManagedProcessEntry>,
    entries: Vec<ManagedStartingProcessEntry>,
    entry: ManagedStartingProcessEntry,
) -> (r: ManagedResult<(Vec<ManagedStartingProcessEntry>, bool)>)
    ensures
        starting_outcome(r) == reserved(
            record.state,
            record@,
            failure(*record_check),
            process_views(registered@),
            starting_views(entries@),
            entry@,
        ),
        r is Ok ==> r->Ok_0.1 == !starting_present(starting_views(entries@), entry@),
{
    check_accepting(record.state, "managed installation is not accepting process reservations")?;
    match record_check {
        Ok(_) => {},
        Err(e) => {
            return Err(e.copy());
        },
    }
    validate_starting_process_entry(&entry, record)?;
    if has_scope(registered, entry.scope_key.as_str()) {
        return fail(
            "owned_process_mismatch",
            "a registered process generation already owns this managed scope",
        );
    }
    let (conflict, present) = find_starting_conflict(&entries, &entry);
    if conflict {
        return fail(
            "owned_process_mismatch",
            "a different starting process generation already owns this managed scope",
        );
    }
    if present {
        return Ok((entries, false));
    }
    let ghost before = starting_views(entries@);
    let ghost added = entry@;
    let mut entries = entries;
    entries.push(entry);
    proof {
        assert(starting_views(entries@) =~= before.push(added));
        lemma_sorted_map(
            SortOrder::ByBytes,
            entries@,
            |e: ManagedStartingProcessEntry| e@,
            location_key::<ManagedStartingProcessEntry>(),
            starting_key(),
        );
    }
    Ok((sort_located(SortOrder::ByBytes, entries), true))
}

/// The position of the first reservation that equals one, or their number.
pub open spec fn starting_at(entries: Seq<StartingView>, e: StartingView) -> int
    decreases entries.len(),
{
    if entries.len() == 0 || same_starting(entries[0], e) {
        0
    } else {
        1 + starting_at(entries.skip(1), e)
    }
}

fn find_starting(
    entries: &Vec<ManagedStartingProcessEntry>,
    e: &ManagedStartingProcessEntry,
) -> (r: usize)
    ensures
        r == starting_at(starting_views(entries@), e@),
        r <= entries.len(),
        (r < entries.len()) == starting_present(starting_views(entries@), e@),
{
    let ghost views = starting_views(entries@);
    let mut i: usize = 0;
    assert(views.skip(0) =~= views);
    while i < entries.len()
        invariant
            i <= entries.len(),
            views == starting_views(entries@),
            starting_at(views, e@) == i + starting_at(views.skip(i as int), e@),
            forall|k: int| 0 <= k < i ==> !same_starting(#[trigger] views[k], e@),
        decreases entries.len() - i,
    {
        assert(views[i as int] == entries@[i as int]@);
        assert(views.skip(i as int)[0] == views[i as int]);
        assert(views.skip(i as int).skip(1) =~= views.skip(i + 1));
        if entries[i].same(e) {
            assert(same_starting(views[i as int], e@));
            return i;
        }
        i += 1;
    }
    i
}

/// The reservations with a broker bound to one of them, or why it is refused.
pub open spec fn bound(
    record: RecordView,
    entries: Seq<StartingView>,
    original: StartingView,
    broker: BrokerProofView,
) -> Result<Seq<StartingView>, Failure> {
    if !accepts_processes(record.state) {
        Err(
            (
                "owned_process_mismatch"@,
                "managed installation is not accepting process reservations"@,
            ),
        )
    } else {
        match or_else(starting_failure(original, record), proof_failure(broker, record)) {
            Some(f) => Err(f),
            None => if original.broker is Some {
                Err(
                    (
                        "owned_process_mismatch"@,
                        "managed starting reservation already has a broker proof"@,
                    ),
                )
            } else if !starting_present(entries, original) {
                Err(
                    (
                        "owned_process_mismatch"@,
                        "managed starting reservation disappeared before broker binding"@,
                    ),
                )
            } else {
                let at = starting_at(entries, original);
                Ok(entries.update(at, StartingView { broker: Some(broker), ..entries[at] }))
            },
        }
    }
}

/// Binds a broker to a reservation that has none.
pub fn bind_managed_process_start_broker(
    record: &OwnershipRecord,
    entries: Vec<ManagedStartingProcessEntry>,
    original: &ManagedStartingProcessEntry,
    broker: ManagedStartingBrokerProof,
) -> (r: ManagedResult<Vec<ManagedStartingProcessEntry>>)
    ensures
        (match r {
            Ok(v) => Ok::<Seq<StartingView>, Failure>(starting_views(v@)),
            Err(e) => Err(e@),
        }) == bound(record@, starting_views(entries@), original@, broker@),
{
    check_accepting(record.state, "managed installation is not accepting process reservations")?;
    validate_starting_process_entry(original, record)?;
    validate_starting_broker_proof(&broker, record)?;
    if original.broker.is_some() {
        return fail(
            "owned_process_mismatch",
            "managed starting reservation already has a broker proof",
        );
    }
    let ghost views = starting_views(entries@);
    let ghost proved = broker@;
    let mut entries = entries;
    let i: usize = find_starting(&entries, original);
    if i == entries.len() {
        return fail(
            "owned_process_mismatch",
            "managed starting reservation disappeared before broker binding",
        );
    }
    let old_entry = entries.remove(i);
    let new_entry = ManagedStartingProcessEntry { broker: Some(broker), ..old_entry };
    let ghost changed = new_entry@;
    entries.insert(i, new_entry);
    assert(changed == (StartingView { broker: Some(proved), ..views[i as int] }));
    assert(starting_views(entries@) =~= views.update(i as int, changed));
    Ok(entries)
}

/// Whether a reservation is not one.
pub open spec fn other_start(e: StartingView) -> spec_fn(StartingView) -> bool {
    |x: StartingView| !same_starting(x, e)
}

/// The reservations without those that equal one; the second part of the result
/// tells whether any was removed.
pub fn unregister_managed_process_start(
    entries: Vec<ManagedStartingProcessEntry>,
    entry: &ManagedStartingProcessEntry,
) -> (r: (Vec<ManagedStartingProcessEntry>, bool))
    ensures
        starting_views(r.0@) == starting_views(entries@).filter(other_start(entry@)),
        r.1 == (r.0@.len() != entries@.len()),
{
    let ghost views = starting_views(entries@);
    let ghost keep = other_start(entry@);
    let total: usize = entries.len();
    let mut rest = entries;
    let mut kept: Vec<ManagedStartingProcessEntry> = Vec::new();
    let ghost mut n: int = 0;
    proof {
        reveal(Seq::filter);
        assert(starting_views(kept@) =~= views.take(0).filter(keep));
    }
    while rest.len() > 0
        invariant
            0 <= n <= views.len(),
            keep == other_start(entry@),
            starting_views(rest@) == views.skip(n),
            starting_views(kept@) == views.take(n).filter(keep),
        decreases rest.len(),
    {
        let ghost before = kept@;
        let ghost left = starting_views(rest@);
        assert(left.len() == rest@.len());
        let x = rest.remove(0);
        proof {
            assert(left[0] == x@);
            assert(views.skip(n).len() > 0);
            assert(views.skip(n)[0] == views[n]);
            assert(views[n] == x@);
            assert(views.skip(n).skip(1) =~= views.skip(n + 1));
            assert(starting_views(rest@) =~= left.skip(1));
            crate::pi::lemma_filter_next(views, keep, n);
            assert(starting_views(rest@) =~= views.skip(n + 1));
            n = n + 1;
        }
        let ghost added = x@;
        if !x.same(entry) {
            kept.push(x);
            assert(starting_views(kept@) =~= starting_views(before).push(added));
        }
    }
    proof {
        assert(views.skip(n).len() == 0) by {
            assert(starting_views(rest@).len() == 0);
        }
        assert(views.take(n) =~= views);
    }
    let changed = kept.len() != total;
    (kept, changed)
}

/// Another entry has the scope of one.
pub open spec fn process_conflict(entries: Seq<ProcessView>, e: ProcessView) -> bool {
    exists|i: int|
        0 <= i < entries.len() && (#[trigger] entries[i]).scope_key == e.scope_key && !same_process(
            entries[i],
            e,
        )
}

/// The same entry is there already.
pub open spec fn process_present(entries: Seq<ProcessView>, e: ProcessView) -> bool {
    exists|i: int| 0 <= i < entries.len() && same_process(#[trigger] entries[i], e)
}

/// The position of the first reservation that is for a process, or their number.
pub open spec fn reservation_at(starting: Seq<StartingView>, e: ProcessView) -> int
    decreases starting.len(),
{
    if starting.len() == 0 || starting_is_for(starting[0], e) {
        0
    } else {
        1 + reservation_at(starting.skip(1), e)
    }
}

/// The processes and the reservations after a start is complete, or why it is
/// refused: the process takes the place of its reservation.
pub open spec fn registered(
    record: RecordView,
    record_check: Option<Failure>,
    entries: Seq<ProcessView>,
    starting: Seq<StartingView>,
    e: ProcessView,
) -> Result<(Seq<ProcessView>, Seq<StartingView>), Failure> {
    if !accepts_processes(record.state) {
        Err(
            (
                "owned_process_mismatch"@,
                "managed installation is not accepting process registrations"@,
            ),
        )
    } else {
        match or_else(record_check, process_failure(e, record)) {
            Some(f) => Err(f),
            None => {
                let at = reservation_at(starting, e);
                if at >= starting.len() {
                    Err(
                        (
                            "owned_process_mismatch"@,
                            "managed process has no exact bound starting reservation"@,
                        ),
                    )
                } else if process_conflict(entries, e) {
                    Err(
                        (
                            "owned_process_mismatch"@,
                            "a different process generation already owns this managed scope"@,
                        ),
                    )
                } else {
                    Ok(
                        (
                            if process_present(entries, e) {
                                entries
                            } else {
                                sorted_by(SortOrder::ByBytes, entries.push(e), process_key())
                            },
                            starting.remove(at),
                        ),
                    )
                }
            },
        }
    }
}

fn find_reservation(starting: &Vec<ManagedStartingProcessEntry>, e: &ManagedProcessEntry) -> (r:
    usize)
    ensures
        r == reservation_at(starting_views(starting@), e@),
        r <= starting.len(),
{
    let ghost views = starting_views(starting@);
    let mut i: usize = 0;
    assert(views.skip(0) =~= views);
    while i < starting.len()
        invariant
            i <= starting.len(),
            views == starting_views(starting@),
            reservation_at(views, e@) == i + reservation_at(views.skip(i as int), e@),
        decreases starting.len() - i,
    {
        assert(views.skip(i as int)[0] == starting@[i as int]@);
        assert(views.skip(i as int).skip(1) =~= views.skip(i + 1));
        if starting_matches_process(&starting[i], e) {
            return i;
        }
        i += 1;
    }
    i
}

fn find_process_conflict(entries: &Vec<ManagedProcessEntry>, e: &ManagedProcessEntry) -> (r: (
    bool,
    bool,
))
    ensures
        r.0 == process_conflict(process_views(entries@), e@),
        r.1 == process_present(process_views(entries@), e@),
{
    let ghost views = process_views(entries@);
    let mut conflict = false;
    let mut present = false;
    let mut i: usize = 0;
    while i < entries.len()
        invariant
            i <= entries.len(),
            views == process_views(entries@),
            conflict == exists|k: int|
                0 <= k < i && (#[trigger] views[k]).scope_key == e@.scope_key && !same_process(
                    views[k],
                    e@,
                ),
            present == exists|k: int| 0 <= k < i && same_process(#[trigger] views[k], e@),
        decreases entries.len() - i,
    {
        assert(views[i as int] == entries@[i as int]@);
        let same = entries[i].same(e);
        if same {
            assert(same_process(views[i as int], e@));
            present = true;
        } else if text_eq(entries[i].scope_key.as_str(), e.scope_key.as_str()) {
            assert(views[i as int].scope_key == e@.scope_key);
            conflict = true;
        }
        i += 1;
    }
    (conflict, present)
}

/// Registers a process in place of its reservation.
pub fn register_managed_process(
    record: &OwnershipRecord,
    record_check: &ManagedResult<()>,
    entries: Vec<ManagedProcessEntry>,
    starting: Vec<ManagedStartingProcessEntry>,
    entry: ManagedProcessEntry,
) -> (r: ManagedResult<(Vec<ManagedProcessEntry>, Vec<ManagedStartingProcessEntry>)>)
    ensures
        (match r {
            Ok(v) => Ok::<(Seq<ProcessView>, Seq<StartingView>), Failure>(
                (process_views(v.0@), starting_views(v.1@)),
            ),
            Err(e) => Err(e@),
        }) == registered(
            record@,
            failure(*record_check),
            process_views(entries@),
            starting_views(starting@),
            entry@,
        ),
{
    check_accepting(record.state, "managed installation is not accepting process registrations")?;
    match record_check {
        Ok(_) => {},
        Err(e) => {
            return Err(e.copy());
        },
    }
    validate_process_entry(&entry, record)?;
    let at: usize = find_reservation(&starting, &entry);
    assert(starting_views(starting@).len() == starting@.len());
    if at >= starting.len() {
        return fail(
            "owned_process_mismatch",
            "managed process has no exact bound starting reservation",
        );
    }
    let (conflict, present) = find_process_conflict(&entries, &entry);
    if conflict {
        return fail(
            "owned_process_mismatch",
            "a different process generation already owns this managed scope",
        );
    }
    let ghost before = process_views(entries@);
    let ghost before_starting = starting_views(starting@);
    let ghost added = entry@;
    let mut entries = entries;
    let mut starting = starting;
    if !present {
        entries.push(entry);
        proof {
            assert(process_views(entries@) =~= before.push(added));
            lemma_sorted_map(
                SortOrder::ByBytes,
                entries@,
                |e: ManagedProcessEntry| e@,
                location_key::<ManagedProcessEntry>(),
                process_key(),
            );
        }
        entries = sort_located(SortOrder::ByBytes, entries);
    }
    let _ = starting.remove(at);
    assert(starting_views(starting@) =~= before_starting.remove(at as int));
    Ok((entries, starting))
}

/// Whether an entry is for another process.
pub open spec fn other_process(e: ProcessView) -> spec_fn(ProcessView) -> bool {
    |x: ProcessView| !same_process(x, e)
}

/// Whether a reservation is for another process.
pub open spec fn start_of_other(e: ProcessView) -> spec_fn(StartingView) -> bool {
    |x: StartingView| !starting_is_for(x, e)
}

/// The processes without one; the second part of the result tells whether any
/// entry was removed.
pub fn unregister_managed_process(entries: Vec<ManagedProcessEntry>, entry: &ManagedProcessEntry) -> (r:
    (Vec<ManagedProcessEntry>, bool))
    ensures
        process_views(r.0@) == process_views(entries@).filter(other_process(entry@)),
        r.1 == (r.0@.len() != entries@.len()),
{
    let ghost views = process_views(entries@);
    let ghost keep = other_process(entry@);
    let total: usize = entries.len();
    let mut rest = entries;
    let mut kept: Vec<ManagedProcessEntry> = Vec::new();
    let ghost mut n: int = 0;
    proof {
        reveal(Seq::filter);
        assert(process_views(kept@) =~= views.take(0).filter(keep));
    }
    while rest.len() > 0
        invariant
            0 <= n <= views.len(),
            keep == other_process(entry@),
            process_views(rest@) == views.skip(n),
            process_views(kept@) == views.take(n).filter(keep),
        decreases rest.len(),
    {
        let ghost before = kept@;
        let ghost left = process_views(rest@);
        assert(left.len() == rest@.len());
        let x = rest.remove(0);
        proof {
            assert(left[0] == x@);
            assert(views.skip(n).len() > 0);
            assert(views.skip(n)[0] == views[n]);
            assert(views[n] == x@);
            assert(views.skip(n).skip(1) =~= views.skip(n + 1));
            assert(process_views(rest@) =~= left.skip(1));
            crate::pi::lemma_filter_next(views, keep, n);
            assert(process_views(rest@) =~= views.skip(n + 1));
            n = n + 1;
        }
        let ghost added = x@;
        if !x.same(entry) {
            kept.push(x);
            assert(process_views(kept@) =~= process_views(before).push(added));
        }
    }
    proof {
        assert(views.skip(n).len() == 0) by {
            assert(process_views(rest@).len() == 0);
        }
        assert(views.take(n) =~= views);
    }
    let changed = kept.len() != total;
    (kept, changed)
}

/// The reservations without those for a process; the second part of the result
/// tells whether any was removed.
pub fn drop_reservations_of(
    starting: Vec<ManagedStartingProcessEntry>,
    entry: &ManagedProcessEntry,
) -> (r: (Vec<ManagedStartingProcessEntry>, bool))
    ensures
        starting_views(r.0@) == starting_views(starting@).filter(start_of_other(entry@)),
        r.1 == (r.0@.len() != starting@.len()),
{
    let ghost views = starting_views(starting@);
    let ghost keep = start_of_other(entry@);
    let total: usize = starting.len();
    let mut rest = starting;
    let mut kept: Vec<ManagedStartingProcessEntry> = Vec::new();
    let ghost mut n: int = 0;
    proof {
        reveal(Seq::filter);
        assert(starting_views(kept@) =~= views.take(0).filter(keep));
    }
    while rest.len() > 0
        invariant
            0 <= n <= views.len(),
            keep == start_of_other(entry@),
            starting_views(rest@) == views.skip(n),
            starting_views(kept@) == views.take(n).filter(keep),
        decreases rest.len(),
    {
        let ghost before = kept@;
        let ghost left = starting_views(rest@);
        assert(left.len() == rest@.len());
        let x = rest.remove(0);
        proof {
            assert(left[0] == x@);
            assert(views.skip(n).len() > 0);
            assert(views.skip(n)[0] == views[n]);
            assert(views[n] == x@);
            assert(views.skip(n).skip(1) =~= views.skip(n + 1));
            assert(starting_views(rest@) =~= left.skip(1));
            crate::pi::lemma_filter_next(views, keep, n);
            assert(starting_views(rest@) =~= views.skip(n + 1));
            n = n + 1;
        }
        let ghost added = x@;
        if !starting_matches_process(&x, entry) {
            kept.push(x);
            assert(starting_views(kept@) =~= starting_views(before).push(added));
        }
    }
    proof {
        assert(views.skip(n).len() == 0) by {
            assert(starting_views(rest@).len() == 0);
        }
        assert(views.take(n) =~= views);
    }
    let changed = kept.len() != total;
    (kept, changed)
}

/// What is wrong with the first `n` reservations of a registry that was read.
pub open spec fn reservations_failure(
    entries: Seq<StartingView>,
    record: RecordView,
    n: int,
) -> Option<Failure>
    decreases n,
{
    if n <= 0 {
        None
    } else {
        or_else(
            reservations_failure(entries, record, n - 1),
            or_else(
                starting_failure(entries[n - 1], record),
                if exists|i: int|
                    0 <= i < n - 1 && (#[trigger] entries[i]).scope_key == entries[n
                        - 1].scope_key {
                    mismatch("managed starting process registry contains a duplicate scope"@)
                } else {
                    None
                },
            ),
        )
    }
}

proof fn lemma_reservations_failure_stays(
    entries: Seq<StartingView>,
    record: RecordView,
    n: int,
    m: int,
)
    requires
        0 <= n <= m,
        reservations_failure(entries, record, n) is Some,
    ensures
        reservations_failure(entries, record, m) == reservations_failure(entries, record, n),
    decreases m - n,
{
    if n < m {
        lemma_reservations_failure_stays(entries, record, n, m - 1);
    }
}

fn scope_repeats(entries: &Vec<ManagedStartingProcessEntry>, at: usize) -> (r: bool)
    requires
        at < entries@.len(),
    ensures
        r == exists|i: int|
            0 <= i < at && (#[trigger] starting_views(entries@)[i]).scope_key == starting_views(
                entries@,
            )[at as int].scope_key,
{
    let ghost views = starting_views(entries@);
    assert(views[at as int] == entries@[at as int]@);
    let mut j: usize = 0;
    while j < at
        invariant
            j <= at < entries.len(),
            views == starting_views(entries@),
            views[at as int] == entries@[at as int]@,
            forall|k: int| 0 <= k < j ==> (#[trigger] views[k]).scope_key != views[at as int].scope_key,
        decreases at - j,
    {
        assert(views[j as int] == entries@[j as int]@);
        if text_eq(entries[j].scope_key.as_str(), entries[at].scope_key.as_str()) {
            return true;
        }
        j += 1;
    }
    false
}

/// What is wrong with the registry of processes that are being started, as it was read.
pub open spec fn unread_reservations(
    schema_version: u32,
    entries: Seq<StartingView>,
    record: RecordView,
) -> Option<Failure> {
    if schema_version != STARTING_PROCESS_REGISTRY_SCHEMA || entries.len()
        > MAX_PROCESS_REGISTRY_ENTRIES {
        mismatch("managed starting process registry schema is invalid"@)
    } else {
        reservations_failure(entries, record, entries.len() as int)
    }
}

/// Checks the registry of processes that are being started, as it was read.
pub fn read_starting_process_registry(
    schema_version: u32,
    entries: &Vec<ManagedStartingProcessEntry>,
    record: &OwnershipRecord,
) -> (r: ManagedResult<()>)
    ensures
        failure(r) == unread_reservations(schema_version, starting_views(entries@), record@),
{
    if schema_version != STARTING_PROCESS_REGISTRY_SCHEMA || entries.len()
        > MAX_PROCESS_REGISTRY_ENTRIES {
        return fail(
            "owned_process_mismatch",
            "managed starting process registry schema is invalid",
        );
    }
    let ghost views = starting_views(entries@);
    let mut i: usize = 0;
    while i < entries.len()
        invariant
            i <= entries.len(),
            entries.len() <= MAX_PROCESS_REGISTRY_ENTRIES,
            schema_version == STARTING_PROCESS_REGISTRY_SCHEMA,
            views == starting_views(entries@),
            reservations_failure(views, record@, i as int) is None,
        decreases entries.len() - i,
    {
        proof {
            assert(views[i as int] == entries@[i as int]@);
            if reservations_failure(views, record@, i + 1) is Some {
                lemma_reservations_failure_stays(views, record@, i + 1, entries@.len() as int);
            }
        }
        validate_starting_process_entry(&entries[i], record)?;
        if scope_repeats(entries, i) {
            return fail(
                "owned_process_mismatch",
                "managed starting process registry contains a duplicate scope",
            );
        }
        i += 1;
    }
    Ok(())
}

/// What is wrong with reservations that are to be written.
pub open spec fn unwritable_reservations(entries: Seq<StartingView>, record: RecordView) -> Option<
    Failure,
>
    decreases entries.len(),
{
    if entries.len() == 0 {
        None
    } else {
        or_else(
            unwritable_reservations(entries.drop_last(), record),
            starting_failure(entries.last(), record),
        )
    }
}

proof fn lemma_unwritable_stays(entries: Seq<StartingView>, record: RecordView, n: int)
    requires
        0 <= n <= entries.len(),
        unwritable_reservations(entries.take(n), record) is Some,
    ensures
        unwritable_reservations(entries, record) == unwritable_reservations(
            entries.take(n),
            record,
        ),
    decreases entries.len() - n,
{
    if n == entries.len() {
        assert(entries.take(n) =~= entries);
    } else {
        assert(entries.take(n + 1).drop_last() =~= entries.take(n));
        lemma_unwritable_stays(entries, record, n + 1);
    }
}

/// Why reservations are not written.
pub open spec fn unwritten_reservations(entries: Seq<StartingView>, record: RecordView) -> Option<
    Failure,
> {
    if entries.len() > MAX_PROCESS_REGISTRY_ENTRIES {
        mismatch("managed starting process registry is full"@)
    } else {
        unwritable_reservations(entries, record)
    }
}

/// Checks reservations that are to be written.
pub fn write_starting_process_registry(
    entries: &Vec<ManagedStartingProcessEntry>,
    record: &OwnershipRecord,
) -> (r: ManagedResult<()>)
    ensures
        failure(r) == unwritten_reservations(starting_views(entries@), record@),
{
    if entries.len() > MAX_PROCESS_REGISTRY_ENTRIES {
        return fail("owned_process_mismatch", "managed starting process registry is full");
    }
    let ghost views = starting_views(entries@);
    let mut i: usize = 0;
    while i < entries.len()
        invariant
            i <= entries.len(),
            entries.len() <= MAX_PROCESS_REGISTRY_ENTRIES,
            views == starting_views(entries@),
            unwritable_reservations(views.take(i as int), record@) is None,
        decreases entries.len() - i,
    {
        proof {
            assert(views[i as int] == entries@[i as int]@);
            assert(views.take(i + 1).drop_last() =~= views.take(i as int));
            assert(views.take(i + 1).last() == views[i as int]);
            if unwritable_reservations(views.take(i + 1), record@) is Some {
                lemma_unwritable_stays(views, record@, i + 1);
            }
        }
        validate_starting_process_entry(&entries[i], record)?;
        i += 1;
    }
    assert(views.take(i as int) =~= views);
    Ok(())
}

/// No process is registered in the scope of a reservation.
pub open spec fn no_scope_in_both(entries: Seq<ProcessView>, starting: Seq<StartingView>) -> bool {
    forall|scope: Seq<char>| #[trigger]
        process_scopes(entries).contains(scope) ==> !starting_scopes(starting).contains(scope)
}

proof fn lemma_pushed_scope(scopes: Seq<Seq<char>>, scope: Seq<char>)
    requires
        scopes.no_duplicates(),
        !scopes.contains(scope),
    ensures
        scopes.push(scope).no_duplicates(),
        forall|x: Seq<char>| #[trigger]
            scopes.push(scope).contains(x) ==> scopes.contains(x) || x == scope,
{
    let grown = scopes.push(scope);
    assert forall|i: int, j: int| 0 <= i < grown.len() && 0 <= j < grown.len() && i != j implies grown[i]
        != grown[j] by {
        if i < scopes.len() {
            assert(scopes.contains(scopes[i]));
        }
        if j < scopes.len() {
            assert(scopes.contains(scopes[j]));
        }
    }
    assert forall|x: Seq<char>| #[trigger] grown.contains(x) implies scopes.contains(x) || x
        == scope by {
        let i = choose|i: int| 0 <= i < grown.len() && grown[i] == x;
        if i < scopes.len() {
            assert(scopes[i] == x);
        }
    }
}

proof fn lemma_sorted_scopes<T>(
    s: Seq<T>,
    scope: spec_fn(T) -> Seq<char>,
    key: spec_fn(T) -> Seq<u8>,
)
    requires
        forall|x: T| key(x) == utf8(#[trigger] scope(x)),
        s.map_values(scope).no_duplicates(),
    ensures
        sorted_by(SortOrder::ByBytes, s, key).map_values(scope).no_duplicates(),
        forall|c: Seq<char>|
            s.map_values(scope).contains(c) == #[trigger] sorted_by(
                SortOrder::ByBytes,
                s,
                key,
            ).map_values(scope).contains(c),
{
    let by_text = |c: Seq<char>| utf8(c);
    let scopes = s.map_values(scope);
    let sorted = sorted_by(SortOrder::ByBytes, scopes, by_text);
    lemma_sorted_map(SortOrder::ByBytes, s, scope, key, by_text);
    lemma_sorting_keeps_items(SortOrder::ByBytes, scopes, by_text);
    lemma_sorting_keeps_members(SortOrder::ByBytes, scopes, by_text);
    scopes.lemma_multiset_has_no_duplicates();
    sorted.lemma_multiset_has_no_duplicates_conv();
    assert forall|c: Seq<char>| scopes.contains(c) == #[trigger] sorted_by(
        SortOrder::ByBytes,
        s,
        key,
    ).map_values(scope).contains(c) by {
        assert(scopes.contains(c) == sorted.contains(c));
    }
}

proof fn lemma_filtered_scopes<T>(
    s: Seq<T>,
    scope: spec_fn(T) -> Seq<char>,
    keep: spec_fn(T) -> bool,
)
    requires
        s.map_values(scope).no_duplicates(),
    ensures
        s.filter(keep).map_values(scope).no_duplicates(),
        forall|c: Seq<char>| #[trigger]
            s.filter(keep).map_values(scope).contains(c) ==> s.map_values(scope).contains(c),
    decreases s.len(),
{
    reveal(Seq::filter);
    let kept = s.filter(keep).map_values(scope);
    let scopes = s.map_values(scope);
    if s.len() > 0 {
        let front = s.drop_last();
        let before = front.filter(keep).map_values(scope);
        let fronts = front.map_values(scope);
        assert(fronts =~= scopes.drop_last());
        assert forall|i: int, j: int|
            0 <= i < fronts.len() && 0 <= j < fronts.len() && i != j implies fronts[i]
            != fronts[j] by {
            assert(fronts[i] == scopes[i]);
            assert(fronts[j] == scopes[j]);
        }
        lemma_filtered_scopes(front, scope, keep);
        assert(!fronts.contains(scope(s.last()))) by {
            if fronts.contains(scope(s.last())) {
                let i = choose|i: int| 0 <= i < fronts.len() && fronts[i] == scope(s.last());
                assert(scopes[i] == scopes[s.len() - 1]);
            }
        }
        assert forall|c: Seq<char>| #[trigger] before.contains(c) implies scopes.contains(c) by {
            let i = choose|i: int| 0 <= i < fronts.len() && fronts[i] == c;
            assert(fronts.contains(c));
            assert(scopes[i] == c);
        }
        if keep(s.last()) {
            assert(kept =~= before.push(scope(s.last())));
            lemma_pushed_scope(before, scope(s.last()));
            assert(scopes[s.len() - 1] == scope(s.last()));
            assert(scopes.contains(scope(s.last())));
        } else {
            assert(kept =~= before);
        }
    }
}

/// A registry that is read has one entry for a scope, of those that run and of those
/// that are being started.
pub proof fn law_read_registries_have_one_entry_for_a_scope(
    text: Seq<char>,
    starting: Seq<StartingView>,
    record: RecordView,
)
    ensures
        registry_entries(text, record) is Ok ==> process_scopes(
            registry_entries(text, record)->Ok_0,
        ).no_duplicates(),
        reservations_failure(starting, record, starting.len() as int) is None ==> starting_scopes(
            starting,
        ).no_duplicates(),
{
    if registry_entries(text, record) is Ok {
        let lines = text_lines(text);
        lemma_read_scopes(lines.skip(1), record, lines.len() - 1);
    }
    if reservations_failure(starting, record, starting.len() as int) is None {
        lemma_read_reservations(starting, record, starting.len() as int);
        assert(starting.take(starting.len() as int) =~= starting);
    }
}

proof fn lemma_read_scopes(lines: Seq<Seq<char>>, record: RecordView, n: int)
    requires
        lines_entries(lines, record, n) is Ok,
    ensures
        process_scopes(lines_entries(lines, record, n)->Ok_0).no_duplicates(),
    decreases n,
{
    if n > 0 {
        lemma_read_scopes(lines, record, n - 1);
        let before = lines_entries(lines, record, n - 1)->Ok_0;
        let e = fields_entry(split_text(lines[n - 1], '|'))->Ok_0;
        let scopes = process_scopes(before);
        assert(process_scopes(before.push(e)) =~= scopes.push(e.scope_key));
        assert(!scopes.contains(e.scope_key)) by {
            if scopes.contains(e.scope_key) {
                let i = choose|i: int| 0 <= i < scopes.len() && scopes[i] == e.scope_key;
                assert(before[i].scope_key == e.scope_key);
            }
        }
        lemma_pushed_scope(scopes, e.scope_key);
    }
}

proof fn lemma_read_reservations(entries: Seq<StartingView>, record: RecordView, n: int)
    requires
        0 <= n <= entries.len(),
        reservations_failure(entries, record, n) is None,
    ensures
        starting_scopes(entries.take(n)).no_duplicates(),
    decreases n,
{
    if n > 0 {
        lemma_read_reservations(entries, record, n - 1);
        let scopes = starting_scopes(entries.take(n - 1));
        let e = entries[n - 1];
        assert(starting_scopes(entries.take(n)) =~= scopes.push(e.scope_key));
        assert(!scopes.contains(e.scope_key)) by {
            if scopes.contains(e.scope_key) {
                let i = choose|i: int| 0 <= i < scopes.len() && scopes[i] == e.scope_key;
                assert(entries[i].scope_key == e.scope_key);
            }
        }
        lemma_pushed_scope(scopes, e.scope_key);
    }
}

/// A reservation that is made leaves one reservation for a scope, and none in the scope
/// of a registered process.
pub proof fn law_reserving_keeps_scopes_apart(
    state: InstallState,
    record: RecordView,
    record_check: Option<Failure>,
    registered: Seq<ProcessView>,
    entries: Seq<StartingView>,
    e: StartingView,
)
    requires
        reserved(state, record, record_check, registered, entries, e) is Ok,
        starting_scopes(entries).no_duplicates(),
    ensures
        starting_scopes(
            reserved(state, record, record_check, registered, entries, e)->Ok_0,
        ).no_duplicates(),
        no_scope_in_both(registered, entries) ==> no_scope_in_both(
            registered,
            reserved(state, record, record_check, registered, entries, e)->Ok_0,
        ),
{
    if !starting_present(entries, e) {
        let scopes = starting_scopes(entries);
        assert(!scopes.contains(e.scope_key)) by {
            if scopes.contains(e.scope_key) {
                let i = choose|i: int| 0 <= i < scopes.len() && scopes[i] == e.scope_key;
                assert(entries[i].scope_key == e.scope_key);
                assert(same_starting(entries[i], e));
            }
        }
        lemma_pushed_scope(scopes, e.scope_key);
        assert(starting_scopes(entries.push(e)) =~= scopes.push(e.scope_key));
        lemma_sorted_scopes(entries.push(e), starting_scope(), starting_key());
        let after = sorted_by(SortOrder::ByBytes, entries.push(e), starting_key());
        if no_scope_in_both(registered, entries) {
            assert forall|scope: Seq<char>| #[trigger]
                process_scopes(registered).contains(scope) implies !starting_scopes(
                after,
            ).contains(scope) by {
                let taken = process_scopes(registered);
                let i = choose|i: int| 0 <= i < taken.len() && taken[i] == scope;
                assert(registered[i].scope_key == scope);
                assert(scope != e.scope_key);
                assert(scopes.push(e.scope_key).contains(scope) == starting_scopes(
                    after,
                ).contains(scope));
            }
        }
    }
}

proof fn lemma_starting_at(entries: Seq<StartingView>, e: StartingView)
    requires
        starting_present(entries, e),
    ensures
        0 <= starting_at(entries, e) < entries.len(),
    decreases entries.len(),
{
    let i = choose|i: int| 0 <= i < entries.len() && same_starting(#[trigger] entries[i], e);
    if !same_starting(entries[0], e) {
        assert(entries.skip(1)[i - 1] == entries[i]);
        lemma_starting_at(entries.skip(1), e);
    }
}

/// A broker that is bound to a reservation leaves every scope with its reservation.
pub proof fn law_binding_keeps_the_scopes(
    record: RecordView,
    entries: Seq<StartingView>,
    original: StartingView,
    broker: BrokerProofView,
)
    requires
        bound(record, entries, original, broker) is Ok,
    ensures
        starting_scopes(bound(record, entries, original, broker)->Ok_0) == starting_scopes(entries),
{
    lemma_starting_at(entries, original);
    assert(starting_scopes(bound(record, entries, original, broker)->Ok_0) =~= starting_scopes(
        entries,
    ));
}

proof fn lemma_reservation_at(starting: Seq<StartingView>, e: ProcessView)
    requires
        reservation_at(starting, e) < starting.len(),
    ensures
        0 <= reservation_at(starting, e),
        starting_is_for(starting[reservation_at(starting, e)], e),
    decreases starting.len(),
{
    if !starting_is_for(starting[0], e) {
        lemma_reservation_at(starting.skip(1), e);
        assert(starting.skip(1)[reservation_at(starting.skip(1), e)] == starting[reservation_at(
            starting,
            e,
        )]);
    }
}

/// A process that is registered leaves one process for a scope and one reservation for
/// a scope, and takes the scope over from its reservation.
pub proof fn law_registering_keeps_scopes_apart(
    record: RecordView,
    record_check: Option<Failure>,
    entries: Seq<ProcessView>,
    starting: Seq<StartingView>,
    e: ProcessView,
)
    requires
        registered(record, record_check, entries, starting, e) is Ok,
        process_scopes(entries).no_duplicates(),
        starting_scopes(starting).no_duplicates(),
    ensures
        ({
            let after = registered(record, record_check, entries, starting, e)->Ok_0;
            &&& process_scopes(after.0).no_duplicates()
            &&& starting_scopes(after.1).no_duplicates()
            &&& process_scopes(after.0).contains(e.scope_key)
            &&& !starting_scopes(after.1).contains(e.scope_key)
            &&& no_scope_in_both(entries, starting) ==> no_scope_in_both(after.0, after.1)
        }),
{
    let after = registered(record, record_check, entries, starting, e)->Ok_0;
    let at = reservation_at(starting, e);
    lemma_reservation_at(starting, e);
    let before = starting_scopes(starting);
    let left = starting_scopes(after.1);
    assert(left =~= before.remove(at));
    assert(before[at] == e.scope_key);
    assert forall|i: int, j: int| 0 <= i < left.len() && 0 <= j < left.len() && i != j implies left[i]
        != left[j] by {
        assert(left[i] == before[if i < at {
            i
        } else {
            i + 1
        }]);
        assert(left[j] == before[if j < at {
            j
        } else {
            j + 1
        }]);
    }
    assert forall|scope: Seq<char>| #[trigger] left.contains(scope) implies before.contains(scope)
        && scope != e.scope_key by {
        let i = choose|i: int| 0 <= i < left.len() && left[i] == scope;
        let k = if i < at {
            i
        } else {
            i + 1
        };
        assert(before[k] == scope);
    }
    let scopes = process_scopes(entries);
    if process_present(entries, e) {
        let i = choose|i: int| 0 <= i < entries.len() && same_process(#[trigger] entries[i], e);
        assert(scopes[i] == e.scope_key);
    } else {
        assert(!scopes.contains(e.scope_key)) by {
            if scopes.contains(e.scope_key) {
                let i = choose|i: int| 0 <= i < scopes.len() && scopes[i] == e.scope_key;
                assert(entries[i].scope_key == e.scope_key);
                assert(same_process(entries[i], e));
            }
        }
        lemma_pushed_scope(scopes, e.scope_key);
        assert(process_scopes(entries.push(e)) =~= scopes.push(e.scope_key));
        assert(scopes.push(e.scope_key)[scopes.len() as int] == e.scope_key);
        lemma_sorted_scopes(entries.push(e), process_scope(), process_key());
        assert(scopes.push(e.scope_key).contains(e.scope_key) == process_scopes(
            after.0,
        ).contains(e.scope_key));
    }
    if no_scope_in_both(entries, starting) {
        assert forall|scope: Seq<char>| #[trigger]
            process_scopes(after.0).contains(scope) implies !left.contains(scope) by {
            assert(scopes.contains(scope) || scope == e.scope_key) by {
                if !process_present(entries, e) {
                    assert(scopes.push(e.scope_key).contains(scope));
                }
            }
        }
    }
}

/// A process or a reservation that is removed leaves one entry for a scope, and none in
/// a scope that had none.
pub proof fn law_removing_keeps_scopes_apart(
    entries: Seq<ProcessView>,
    starting: Seq<StartingView>,
    e: ProcessView,
    start: StartingView,
)
    requires
        process_scopes(entries).no_duplicates(),
        starting_scopes(starting).no_duplicates(),
    ensures
        process_scopes(entries.filter(other_process(e))).no_duplicates(),
        starting_scopes(starting.filter(other_start(start))).no_duplicates(),
        starting_scopes(starting.filter(start_of_other(e))).no_duplicates(),
        no_scope_in_both(entries, starting) ==> {
            &&& no_scope_in_both(entries.filter(other_process(e)), starting)
            &&& no_scope_in_both(entries, starting.filter(other_start(start)))
            &&& no_scope_in_both(entries, starting.filter(start_of_other(e)))
        },
{
    lemma_filtered_scopes(entries, process_scope(), other_process(e));
    lemma_filtered_scopes(starting, starting_scope(), other_start(start));
    lemma_filtered_scopes(starting, starting_scope(), start_of_other(e));
}

/// A registry of processes that are being started is accepted when it is read, as it
/// was written, if it has one reservation for a scope.
pub proof fn law_written_reservations_are_accepted(entries: Seq<StartingView>, record: RecordView)
    requires
        unwritten_reservations(entries, record) is None,
        starting_scopes(entries).no_duplicates(),
    ensures
        unread_reservations(STARTING_PROCESS_REGISTRY_SCHEMA, entries, record) is None,
{
    lemma_accepted_reservations(entries, record, entries.len() as int);
}

proof fn lemma_accepted_reservations(entries: Seq<StartingView>, record: RecordView, n: int)
    requires
        0 <= n <= entries.len(),
        unwritable_reservations(entries, record) is None,
        starting_scopes(entries).no_duplicates(),
    ensures
        reservations_failure(entries, record, n) is None,
    decreases n,
{
    if n > 0 {
        lemma_accepted_reservations(entries, record, n - 1);
        let scopes = starting_scopes(entries);
        assert forall|i: int| 0 <= i < n - 1 implies (#[trigger] entries[i]).scope_key
            != entries[n - 1].scope_key by {
            assert(scopes[i] != scopes[n - 1]);
        }
        lemma_sound_reservation(entries, record, n - 1);
    }
}

proof fn lemma_sound_reservation(entries: Seq<StartingView>, record: RecordView, i: int)
    requires
        unwritable_reservations(entries, record) is None,
        0 <= i < entries.len(),
    ensures
        starting_failure(entries[i], record) is None,
    decreases entries.len(),
{
    if i < entries.len() - 1 {
        lemma_sound_reservation(entries.drop_last(), record, i);
        assert(entries.drop_last()[i] == entries[i]);
    }
}

/// How long the processes of an installation may take to stop, in milliseconds.
pub const PROCESS_DRAIN_TIMEOUT_MS: u64 = 15000;

/// Why registries are not waited for any longer.
pub open spec fn drain_late(now_ms: u64, deadline_ms: u64, work_began: bool) -> Option<Failure> {
    if work_began && now_ms >= deadline_ms {
        mismatch(
            "managed process registries did not drain before the coordinated-stop deadline"@,
        )
    } else {
        None
    }
}

/// Refuses to go on past the deadline once work has begun.
pub fn ensure_drain_deadline(now_ms: u64, deadline_ms: u64, work_began: bool) -> (r: ManagedResult<
    (),
>)
    ensures
        failure(r) == drain_late(now_ms, deadline_ms, work_began),
{
    if work_began && now_ms >= deadline_ms {
        return fail(
            "owned_process_mismatch",
            "managed process registries did not drain before the coordinated-stop deadline",
        );
    }
    Ok(())
}

/// Until when one process is waited for: its own limit, but no longer than all together.
pub open spec fn stop_by(now_ms: u64, shared_ms: u64, limit_ms: u64) -> u64 {
    if now_ms + limit_ms < shared_ms {
        (now_ms + limit_ms) as u64
    } else {
        shared_ms
    }
}

/// The deadline for one process: its own limit, but never past the shared one.
pub fn bounded_stop_deadline(now_ms: u64, shared_ms: u64, limit_ms: u64) -> (r: ManagedResult<u64>)
    ensures
        r is Ok == (now_ms < shared_ms),
        r is Ok ==> r->Ok_0 == stop_by(now_ms, shared_ms, limit_ms),
        r is Err ==> failure(r) == mismatch(
            "managed process registries did not drain before the coordinated-stop deadline"@,
        ),
{
    ensure_drain_deadline(now_ms, shared_ms, true)?;
    if shared_ms - now_ms <= limit_ms {
        Ok(shared_ms)
    } else {
        Ok(now_ms + limit_ms)
    }
}

/// What is to be done while the processes of an installation are stopped.
#[derive(Clone, Copy, Debug, PartialEq, Eq, Structural)]
pub enum DrainStep {
    /// Both registries are empty.
    Done,
    /// Every process that was found is to be stopped, those that are being
    /// started first.
    Stop,
}

/// There is nothing to stop, or time to do so.
pub open spec fn drain_in_time(
    starting: usize,
    registered: usize,
    work_began: bool,
    now_ms: u64,
    deadline_ms: u64,
) -> bool {
    !((work_began || starting > 0 || registered > 0) && now_ms >= deadline_ms)
}

/// Decides whether processes are left to be stopped. Nothing left counts in time
/// as long as no work had begun.
pub fn drain_step(
    starting: usize,
    registered: usize,
    work_began: bool,
    now_ms: u64,
    deadline_ms: u64,
) -> (r: ManagedResult<DrainStep>)
    ensures
        r is Ok == drain_in_time(starting, registered, work_began, now_ms, deadline_ms),
        r is Ok ==> (r->Ok_0 == DrainStep::Done) == (starting == 0 && registered == 0),
        r is Err ==> failure(r) == mismatch(
            "managed process registries did not drain before the coordinated-stop deadline"@,
        ),
{
    if starting == 0 && registered == 0 {
        ensure_drain_deadline(now_ms, deadline_ms, work_began)?;
        return Ok(DrainStep::Done);
    }
    ensure_drain_deadline(now_ms, deadline_ms, true)?;
    Ok(DrainStep::Stop)
}

/// Two entries are for the same process just when they are the same but for how
/// their two paths are spelled.
pub proof fn law_entries_of_one_process_are_the_same(a: ProcessView, b: ProcessView)
    ensures
        same_process(a, b) <==> (parts(a.runtime_root) == parts(b.runtime_root) && parts(
            a.executable_path,
        ) == parts(b.executable_path) && b == (ProcessView {
            runtime_root: b.runtime_root,
            executable_path: b.executable_path,
            ..a
        })),
{
}

/// Two reservations are the same just when they are so but for how their paths, and
/// that of the bound broker, are spelled.
pub proof fn law_equal_reservations_are_the_same(a: StartingView, b: StartingView)
    ensures
        same_starting(a, b) <==> (parts(a.runtime_root) == parts(b.runtime_root) && parts(
            a.executable_path,
        ) == parts(b.executable_path) && (a.broker is None <==> b.broker is None) && (
        a.broker is Some && b.broker is Some ==> parts(a.broker->0.executable_path) == parts(
            b.broker->0.executable_path,
        ) && b.broker->0 == (BrokerProofView {
            executable_path: b.broker->0.executable_path,
            ..a.broker->0
        })) && b == (StartingView {
            runtime_root: b.runtime_root,
            executable_path: b.executable_path,
            broker: b.broker,
            ..a
        })),
{
}

/// A reservation is for a process when it has a broker bound, and the process that it
/// would become with that broker is that process.
pub proof fn law_a_reservation_is_for_what_it_becomes(s: StartingView, p: ProcessView)
    ensures
        starting_is_for(s, p) <==> (s.broker is Some && parts(s.broker->0.executable_path)
            == parts(p.executable_path) && s.broker->0.executable_digest == p.executable_digest
            && same_process(
            (ProcessView {
                runtime_root: s.runtime_root,
                session_key: s.session_key,
                workspace_id: s.workspace_id,
                scope_key: s.scope_key,
                coordinator_pid: s.coordinator_pid,
                coordinator_start: s.coordinator_start,
                broker_pid: s.broker->0.broker_pid,
                broker_start: s.broker->0.broker_start,
                broker_instance_id: p.broker_instance_id,
                executable_path: s.executable_path,
                executable_digest: s.executable_digest,
                control_port: s.control_port,
                control_nonce: s.control_nonce,
            }),
            p,
        )),
{
}

/// A field of a registry is a text of up to 4096 bytes, not empty, without bars and
/// without line ends.
pub proof fn law_fields_hold_no_separator(s: Seq<char>)
    ensures
        field_ok(s) <==> (0 < s.len() && utf8(s).len() <= 4096 && forall|i: int|
            0 <= i < s.len() ==> #[trigger] s[i] != '|' && s[i] != '\r' && s[i] != '\n'),
{
    if field_ok(s) {
        assert forall|i: int| 0 <= i < s.len() implies #[trigger] s[i] != '|' && s[i] != '\r'
            && s[i] != '\n' by {
            assert(s.contains(s[i]));
        }
    }
}

/// A process is accepted just when its paths are absolute and can be written, its
/// fields hold no separator, its processes and its port are named, and it runs the
/// binary that the record names, with the digest that the record has of it.
pub proof fn law_accepted_processes_are_of_the_installation(e: ProcessView, record: RecordView)
    ensures
        process_failure(e, record) is None <==> {
            &&& absolute_normal(e.runtime_root)
            &&& absolute_normal(e.executable_path)
            &&& path_text_failure(e.runtime_root) is None
            &&& path_text_failure(e.executable_path) is None
            &&& parts(e.executable_path) == parts(record.stable_binary)
            &&& e.executable_digest == record.broker_digest
            &&& e.coordinator_pid > 0
            &&& e.broker_pid > 0
            &&& e.control_port > 0
            &&& hex_token(e.scope_key, 64)
            &&& hex_token(e.session_key, 64)
            &&& hex_token(e.executable_digest, 64)
            &&& field_ok(decode_utf8(e.runtime_root))
            &&& field_ok(decode_utf8(e.executable_path))
            &&& field_ok(e.session_key)
            &&& field_ok(e.workspace_id)
            &&& field_ok(e.scope_key)
            &&& field_ok(e.coordinator_start)
            &&& field_ok(e.broker_start)
            &&& field_ok(e.broker_instance_id)
            &&& field_ok(e.executable_digest)
            &&& field_ok(e.control_nonce)
        },
{
}

/// A reservation that is accepted is of the installation: of its binary with its
/// digest, and of the generation that the binary lies in. So is the broker that is
/// bound to it, if one is.
pub proof fn law_accepted_reservations_are_of_the_installation(e: StartingView, record: RecordView)
    ensures
        starting_failure(e, record) is None <==> {
            &&& absolute_normal(e.runtime_root)
            &&& absolute_normal(e.executable_path)
            &&& path_text_failure(e.runtime_root) is None
            &&& path_text_failure(e.executable_path) is None
            &&& parts(e.executable_path) == parts(record.stable_binary)
            &&& e.executable_digest == record.broker_digest
            &&& recorded_generation(record) == Ok::<Seq<char>, Failure>(e.expected_generation)
            &&& e.coordinator_pid > 0
            &&& e.control_port > 0
            &&& hex_token(e.scope_key, 64)
            &&& hex_token(e.session_key, 64)
            &&& hex_token(e.executable_digest, 64)
            &&& field_ok(decode_utf8(e.runtime_root))
            &&& field_ok(decode_utf8(e.executable_path))
            &&& field_ok(e.session_key)
            &&& field_ok(e.workspace_id)
            &&& field_ok(e.scope_key)
            &&& field_ok(e.coordinator_start)
            &&& field_ok(e.executable_digest)
            &&& field_ok(e.expected_generation)
            &&& field_ok(e.control_nonce)
            &&& e.broker is Some ==> proof_failure(e.broker->0, record) is None
        },
{
}

/// A broker that is bound runs the binary that the record names, with its digest.
pub proof fn law_bound_brokers_are_of_the_installation(p: BrokerProofView, record: RecordView)
    ensures
        proof_failure(p, record) is None <==> {
            &&& p.broker_pid > 0
            &&& absolute_normal(p.executable_path)
            &&& path_text_failure(p.executable_path) is None
            &&& parts(p.executable_path) == parts(record.stable_binary)
            &&& p.executable_digest == record.broker_digest
            &&& hex_token(p.executable_digest, 64)
            &&& field_ok(decode_utf8(p.executable_path))
            &&& field_ok(p.broker_start)
            &&& field_ok(p.executable_digest)
        },
{
}

/// The generation of a record is told from where its binary lies: the binary of this
/// name, in `bin`, in a directory of 32 hexadecimal digits, in `generations`. Such a
/// binary always gives its generation, and no other does.
pub proof fn law_generations_are_told_from_the_binary(record: RecordView, name: Seq<char>)
    ensures
        recorded_generation(record) == Ok::<Seq<char>, Failure>(name) <==> ({
            let binary = record.stable_binary;
            &&& file_name(binary) == Some(utf8("herdr-a2a"@))
            &&& parent(binary) is Some
            &&& file_name(parent(binary)->0) == Some(utf8("bin"@))
            &&& parent(parent(binary)->0) is Some
            &&& file_name(parent(parent(binary)->0)->0) is Some
            &&& valid_utf8(file_name(parent(parent(binary)->0)->0)->0)
            &&& name == decode_utf8(file_name(parent(parent(binary)->0)->0)->0)
            &&& hex_token(name, 32)
            &&& parent(parent(parent(binary)->0)->0) is Some
            &&& file_name(parent(parent(parent(binary)->0)->0)->0) == Some(utf8("generations"@))
        }),
{
}

/// The registry of a written or a read list is faultless just when every entry is, and
/// it has at most 64.
pub proof fn law_registries_hold_only_accepted_entries(
    entries: Seq<ProcessView>,
    starting: Seq<StartingView>,
    record: RecordView,
)
    ensures
        written_registry(entries, record) is Ok ==> entries.len() <= 64,
        written_registry(entries, record) is Ok ==> forall|i: int|
            0 <= i < entries.len() ==> process_failure(#[trigger] entries[i], record) is None,
        unwritten_reservations(starting, record) is None <==> (starting.len() <= 64 && forall|
            i: int,
        |
            0 <= i < starting.len() ==> starting_failure(#[trigger] starting[i], record) is None),
        unread_reservations(STARTING_PROCESS_REGISTRY_SCHEMA, starting, record) is None <==> (
        starting.len() <= 64 && (forall|i: int|
            0 <= i < starting.len() ==> starting_failure(#[trigger] starting[i], record) is None)
            && (forall|i: int, j: int|
            0 <= i < j < starting.len() ==> (#[trigger] starting[i]).scope_key != (
            #[trigger] starting[j]).scope_key)),
{
    lemma_processes_accepted(entries, record);
    lemma_starts_writable(starting, record);
    lemma_starts_readable(starting, record, starting.len() as int);
}

proof fn lemma_processes_accepted(entries: Seq<ProcessView>, record: RecordView)
    ensures
        processes_failure(entries, record) is None <==> forall|i: int|
            0 <= i < entries.len() ==> process_failure(#[trigger] entries[i], record) is None,
    decreases entries.len(),
{
    if entries.len() > 0 {
        let front = entries.drop_last();
        lemma_processes_accepted(front, record);
        if processes_failure(entries, record) is None {
            assert forall|i: int| 0 <= i < entries.len() implies process_failure(
                #[trigger] entries[i],
                record,
            ) is None by {
                if i < front.len() {
                    assert(front[i] == entries[i]);
                }
            }
        }
        if forall|i: int|
            0 <= i < entries.len() ==> process_failure(#[trigger] entries[i], record) is None {
            assert forall|i: int| 0 <= i < front.len() implies process_failure(
                #[trigger] front[i],
                record,
            ) is None by {
                assert(front[i] == entries[i]);
            }
        }
    }
}

proof fn lemma_starts_writable(entries: Seq<StartingView>, record: RecordView)
    ensures
        unwritable_reservations(entries, record) is None <==> forall|i: int|
            0 <= i < entries.len() ==> starting_failure(#[trigger] entries[i], record) is None,
    decreases entries.len(),
{
    if entries.len() > 0 {
        let front = entries.drop_last();
        lemma_starts_writable(front, record);
        if unwritable_reservations(entries, record) is None {
            assert forall|i: int| 0 <= i < entries.len() implies starting_failure(
                #[trigger] entries[i],
                record,
            ) is None by {
                if i < front.len() {
                    assert(front[i] == entries[i]);
                }
            }
        }
        if forall|i: int|
            0 <= i < entries.len() ==> starting_failure(#[trigger] entries[i], record) is None {
            assert forall|i: int| 0 <= i < front.len() implies starting_failure(
                #[trigger] front[i],
                record,
            ) is None by {
                assert(front[i] == entries[i]);
            }
        }
    }
}

proof fn lemma_starts_readable(entries: Seq<StartingView>, record: RecordView, n: int)
    requires
        0 <= n <= entries.len(),
    ensures
        reservations_failure(entries, record, n) is None <==> ((forall|i: int|
            0 <= i < n ==> starting_failure(#[trigger] entries[i], record) is None) && (forall|
            i: int,
            j: int,
        |
            0 <= i < j < n ==> (#[trigger] entries[i]).scope_key != (
            #[trigger] entries[j]).scope_key)),
    decreases n,
{
    if n > 0 {
        lemma_starts_readable(entries, record, n - 1);
        let last = entries[n - 1];
        if reservations_failure(entries, record, n) is None {
            assert forall|i: int| 0 <= i < n implies starting_failure(
                #[trigger] entries[i],
                record,
            ) is None by {
            }
            assert forall|i: int, j: int| 0 <= i < j < n implies (#[trigger] entries[i]).scope_key
                != (#[trigger] entries[j]).scope_key by {
                if j == n - 1 {
                    assert(entries[i].scope_key != last.scope_key);
                }
            }
        }
    }
}

/// The entries of a registry that is read are at most 64, all accepted, and as many as
/// there are lines after the head; each is what its line stands for.
pub proof fn law_read_entries_are_accepted(text: Seq<char>, record: RecordView)
    requires
        registry_entries(text, record) is Ok,
    ensures
        ({
            let lines = text_lines(text);
            let entries = registry_entries(text, record)->Ok_0;
            &&& lines[0] == "HERDR_A2A_PROCESS_REGISTRY_V1"@
            &&& text.last() == '\n'
            &&& entries.len() == lines.len() - 1
            &&& entries.len() <= 64
            &&& forall|i: int|
                0 <= i < entries.len() ==> process_failure(#[trigger] entries[i], record) is None
            &&& forall|i: int|
                0 <= i < entries.len() ==> fields_entry(split_text(lines[i + 1], '|')) == Ok::<
                    ProcessView,
                    Failure,
                >(#[trigger] entries[i])
        }),
{
    let lines = text_lines(text);
    lemma_read_lines(lines.skip(1), record, lines.len() - 1);
    let entries = registry_entries(text, record)->Ok_0;
    assert forall|i: int| 0 <= i < entries.len() implies fields_entry(
        split_text(lines[i + 1], '|'),
    ) == Ok::<ProcessView, Failure>(#[trigger] entries[i]) by {
        assert(lines.skip(1)[i] == lines[i + 1]);
    }
}

proof fn lemma_read_lines(lines: Seq<Seq<char>>, record: RecordView, n: int)
    requires
        0 <= n <= lines.len(),
        lines_entries(lines, record, n) is Ok,
    ensures
        ({
            let entries = lines_entries(lines, record, n)->Ok_0;
            &&& entries.len() == n
            &&& n <= 64
            &&& forall|i: int|
                0 <= i < n ==> process_failure(#[trigger] entries[i], record) is None
            &&& forall|i: int|
                0 <= i < n ==> fields_entry(split_text(lines[i], '|')) == Ok::<
                    ProcessView,
                    Failure,
                >(#[trigger] entries[i])
        }),
    decreases n,
{
    if n > 0 {
        lemma_read_lines(lines, record, n - 1);
        let before = lines_entries(lines, record, n - 1)->Ok_0;
        let entries = lines_entries(lines, record, n)->Ok_0;
        let e = fields_entry(split_text(lines[n - 1], '|'))->Ok_0;
        assert(entries == before.push(e));
        assert forall|i: int| 0 <= i < n implies process_failure(#[trigger] entries[i], record)
            is None by {
            if i < n - 1 {
                assert(entries[i] == before[i]);
            }
        }
        assert forall|i: int| 0 <= i < n implies fields_entry(split_text(lines[i], '|')) == Ok::<
            ProcessView,
            Failure,
        >(#[trigger] entries[i]) by {
            if i < n - 1 {
                assert(entries[i] == before[i]);
            }
        }
    }
}

/// A reservation is made just when the installation takes processes, its record and the
/// reservation are accepted, no process is registered in the scope, and whatever is
/// reserved in the scope is this very reservation.
pub proof fn law_a_scope_is_reserved_once(
    state: InstallState,
    record: RecordView,
    record_check: Option<Failure>,
    registered: Seq<ProcessView>,
    entries: Seq<StartingView>,
    e: StartingView,
)
    ensures
        reserved(state, record, record_check, registered, entries, e) is Ok <==> {
            &&& state is Ready || state is PiAdapterPending
            &&& record_check is None
            &&& starting_failure(e, record) is None
            &&& forall|i: int|
                0 <= i < registered.len() ==> (#[trigger] registered[i]).scope_key != e.scope_key
            &&& forall|i: int|
                0 <= i < entries.len() && (#[trigger] entries[i]).scope_key == e.scope_key
                    ==> same_starting(entries[i], e)
        },
{
}

/// A reservation adds itself and nothing else, unless it is there already, and leaves
/// the reservations in the order of their scopes.
pub proof fn law_reserving_adds_one_reservation(
    state: InstallState,
    record: RecordView,
    record_check: Option<Failure>,
    registered: Seq<ProcessView>,
    entries: Seq<StartingView>,
    e: StartingView,
)
    requires
        reserved(state, record, record_check, registered, entries, e) is Ok,
    ensures
        ({
            let after = reserved(state, record, record_check, registered, entries, e)->Ok_0;
            let there = exists|i: int|
                0 <= i < entries.len() && same_starting(#[trigger] entries[i], e);
            &&& there ==> after == entries
            &&& !there ==> after.to_multiset() == entries.to_multiset().insert(e)
            &&& !there ==> forall|i: int, j: int|
                0 <= i < j < after.len() ==> !bytes_less(
                    utf8((#[trigger] after[j]).scope_key),
                    utf8((#[trigger] after[i]).scope_key),
                )
        }),
{
    broadcast use vstd::seq_lib::group_to_multiset_ensures;

    let after = reserved(state, record, record_check, registered, entries, e)->Ok_0;
    lemma_sorting_keeps_items(SortOrder::ByBytes, entries.push(e), starting_key());
    if !starting_present(entries, e) {
        assert forall|i: int, j: int| 0 <= i < j < after.len() implies !bytes_less(
            utf8((#[trigger] after[j]).scope_key),
            utf8((#[trigger] after[i]).scope_key),
        ) by {
            law_sorting_puts_in_order(SortOrder::ByBytes, entries.push(e), starting_key(), i, j);
        }
    }
}

/// A broker is bound to a reservation that is there and has none yet, while the
/// installation takes processes; the reservation then has this broker and is otherwise
/// as it was, and no other reservation changes.
pub proof fn law_binding_changes_one_reservation(
    record: RecordView,
    entries: Seq<StartingView>,
    original: StartingView,
    broker: BrokerProofView,
)
    ensures
        bound(record, entries, original, broker) is Ok <==> {
            &&& record.state is Ready || record.state is PiAdapterPending
            &&& starting_failure(original, record) is None
            &&& proof_failure(broker, record) is None
            &&& original.broker is None
            &&& exists|i: int|
                0 <= i < entries.len() && same_starting(#[trigger] entries[i], original)
        },
        bound(record, entries, original, broker) is Ok ==> ({
            let after = bound(record, entries, original, broker)->Ok_0;
            exists|k: int|
                #![trigger entries[k]]
                {
                    &&& 0 <= k < entries.len()
                    &&& same_starting(entries[k], original)
                    &&& after.len() == entries.len()
                    &&& after[k].broker == Some(broker)
                    &&& (StartingView { broker: None, ..after[k] }) == entries[k]
                    &&& forall|i: int|
                        0 <= i < entries.len() && i != k ==> #[trigger] after[i] == entries[i]
                }
        }),
{
    if bound(record, entries, original, broker) is Ok {
        lemma_found_start(entries, original);
        let k = starting_at(entries, original);
        assert(entries[k].broker is None);
    }
}

proof fn lemma_found_start(entries: Seq<StartingView>, e: StartingView)
    requires
        starting_present(entries, e),
    ensures
        0 <= starting_at(entries, e) < entries.len(),
        same_starting(entries[starting_at(entries, e)], e),
    decreases entries.len(),
{
    let i = choose|i: int| 0 <= i < entries.len() && same_starting(#[trigger] entries[i], e);
    if !same_starting(entries[0], e) {
        assert(entries.skip(1)[i - 1] == entries[i]);
        lemma_found_start(entries.skip(1), e);
    }
}

/// A process is registered just when the installation takes processes, its record and
/// the process are accepted, a reservation is for it, and whatever is registered in its
/// scope is this very process.
pub proof fn law_only_reserved_processes_register(
    record: RecordView,
    record_check: Option<Failure>,
    entries: Seq<ProcessView>,
    starting: Seq<StartingView>,
    e: ProcessView,
)
    ensures
        registered(record, record_check, entries, starting, e) is Ok <==> {
            &&& record.state is Ready || record.state is PiAdapterPending
            &&& record_check is None
            &&& process_failure(e, record) is None
            &&& exists|i: int| 0 <= i < starting.len() && starting_is_for(#[trigger] starting[i], e)
            &&& forall|i: int|
                0 <= i < entries.len() && (#[trigger] entries[i]).scope_key == e.scope_key
                    ==> same_process(entries[i], e)
        },
{
    lemma_found_reservation(starting, e);
}

proof fn lemma_found_reservation(starting: Seq<StartingView>, e: ProcessView)
    ensures
        0 <= reservation_at(starting, e) <= starting.len(),
        reservation_at(starting, e) < starting.len() ==> starting_is_for(
            starting[reservation_at(starting, e)],
            e,
        ),
        reservation_at(starting, e) < starting.len() <==> exists|i: int|
            0 <= i < starting.len() && starting_is_for(#[trigger] starting[i], e),
    decreases starting.len(),
{
    if starting.len() > 0 {
        let rest = starting.skip(1);
        lemma_found_reservation(rest, e);
        if exists|i: int| 0 <= i < starting.len() && starting_is_for(#[trigger] starting[i], e) {
            let i = choose|i: int|
                0 <= i < starting.len() && starting_is_for(#[trigger] starting[i], e);
            if !starting_is_for(starting[0], e) {
                assert(rest[i - 1] == starting[i]);
            }
        }
    }
}

/// A process that registers is added, unless it is there already, and one reservation
/// for it goes; everything else stays. The processes are in the order of their scopes
/// where one was added.
pub proof fn law_registering_replaces_one_reservation(
    record: RecordView,
    record_check: Option<Failure>,
    entries: Seq<ProcessView>,
    starting: Seq<StartingView>,
    e: ProcessView,
)
    requires
        registered(record, record_check, entries, starting, e) is Ok,
    ensures
        ({
            let after = registered(record, record_check, entries, starting, e)->Ok_0;
            let there = exists|i: int|
                0 <= i < entries.len() && same_process(#[trigger] entries[i], e);
            &&& there ==> after.0 == entries
            &&& !there ==> after.0.to_multiset() == entries.to_multiset().insert(e)
            &&& !there ==> forall|i: int, j: int|
                0 <= i < j < after.0.len() ==> !bytes_less(
                    utf8((#[trigger] after.0[j]).scope_key),
                    utf8((#[trigger] after.0[i]).scope_key),
                )
            &&& exists|k: int|
                0 <= k < starting.len() && starting_is_for(#[trigger] starting[k], e) && after.1
                    == starting.remove(k)
        }),
{
    broadcast use vstd::seq_lib::group_to_multiset_ensures;

    let after = registered(record, record_check, entries, starting, e)->Ok_0;
    lemma_sorting_keeps_items(SortOrder::ByBytes, entries.push(e), process_key());
    lemma_found_reservation(starting, e);
    if !process_present(entries, e) {
        assert forall|i: int, j: int| 0 <= i < j < after.0.len() implies !bytes_less(
            utf8((#[trigger] after.0[j]).scope_key),
            utf8((#[trigger] after.0[i]).scope_key),
        ) by {
            law_sorting_puts_in_order(SortOrder::ByBytes, entries.push(e), process_key(), i, j);
        }
    }
}

/// Removing a process or a reservation removes those that are the same and leaves all
/// others; a registered process takes away the reservations that are for it.
pub proof fn law_removing_removes_only_its_own(
    entries: Seq<ProcessView>,
    starting: Seq<StartingView>,
    e: ProcessView,
    start: StartingView,
    p: ProcessView,
    s: StartingView,
)
    ensures
        entries.filter(other_process(e)).contains(p) <==> entries.contains(p) && !same_process(p, e),
        starting.filter(other_start(start)).contains(s) <==> starting.contains(s)
            && !same_starting(s, start),
        starting.filter(start_of_other(e)).contains(s) <==> starting.contains(s)
            && !starting_is_for(s, e),
{
    lemma_filter_has(entries, other_process(e), p);
    lemma_filter_has(starting, other_start(start), s);
    lemma_filter_has(starting, start_of_other(e), s);
}

/// A registry is waited for up to the deadline once work began; before, there is no
/// deadline, and an empty one is never late. One process is waited for up to its own limit,
/// and never past what all share.
pub proof fn law_draining_ends_at_the_deadline(
    starting: usize,
    registered: usize,
    work_began: bool,
    now_ms: u64,
    deadline_ms: u64,
    limit_ms: u64,
)
    ensures
        drain_late(now_ms, deadline_ms, work_began) is None <==> (!work_began || now_ms
            < deadline_ms),
        drain_in_time(starting, registered, work_began, now_ms, deadline_ms) <==> (now_ms
            < deadline_ms || (!work_began && starting == 0 && registered == 0)),
        stop_by(now_ms, deadline_ms, limit_ms) <= deadline_ms,
        now_ms + limit_ms <= deadline_ms ==> stop_by(now_ms, deadline_ms, limit_ms) == now_ms
            + limit_ms,
        now_ms + limit_ms > deadline_ms ==> stop_by(now_ms, deadline_ms, limit_ms) == deadline_ms,
{
}

} // verus!
