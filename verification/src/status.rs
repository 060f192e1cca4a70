//! The status of a workspace, as its broker reports and proves it.

use vstd::prelude::*;
use vstd::string::*;
use crate::digest::{
    base64url_decode, base64url_decoded, base64url_encode, base64url_encoded, constant_time_eq,
    hmac_sha256, hmac_sha256_once, sha256, sha256_once,
};
use crate::text::{byte_len, text_bytes, text_eq, utf8};
use crate::wire::{bounded_control_free, is_bounded_control_free, single, single_header};

verus! {

/// The most bytes that a status may have.
pub const MAX_STATUS_BYTES: usize = 262_144;

/// How long a status may take, in milliseconds.
pub const STATUS_TIMEOUT_MS: u64 = 3_000;

/// The header with the proof of a status.
pub const STATUS_PROOF_HEADER: &'static str = "x-herdr-a2a-status-proof";

/// The header with the instance of the broker.
pub const INSTANCE_HEADER: &'static str = "x-herdr-a2a-instance";

/// What can go wrong with a status.
#[derive(Clone, Copy, Debug, PartialEq, Eq, Structural)]
pub enum OperationsError {
    BrokerUnavailable,
    BrokerProofFailed,
    InvalidResponse,
    StorageReconciliationFailed,
}

impl OperationsError {
    /// The text of the error.
    pub open spec fn spec_text(self) -> Seq<char> {
        match self {
            OperationsError::BrokerUnavailable => "workspace broker is unavailable"@,
            OperationsError::BrokerProofFailed => "workspace broker proof failed"@,
            OperationsError::InvalidResponse =>
                "workspace broker returned invalid redacted status"@,
            OperationsError::StorageReconciliationFailed =>
                "workspace broker storage reconciliation failed"@,
        }
    }

    /// The text of the error.
    pub fn text(self) -> (r: &'static str)
        ensures
            r@ == self.spec_text(),
    {
        match self {
            OperationsError::BrokerUnavailable => "workspace broker is unavailable",
            OperationsError::BrokerProofFailed => "workspace broker proof failed",
            OperationsError::InvalidResponse => "workspace broker returned invalid redacted status",
            OperationsError::StorageReconciliationFailed =>
                "workspace broker storage reconciliation failed",
        }
    }
}

/// A letter from a to z.
pub open spec fn is_lower(c: char) -> bool {
    'a' <= c && c <= 'z'
}

/// A character of a role after the first.
pub open spec fn is_role_char(c: char) -> bool {
    is_lower(c) || ('0' <= c && c <= '9') || c == '_' || c == '-'
}

/// A role: a letter, and then up to 31 letters, digits, underscores and hyphens.
pub open spec fn role_ok(s: Seq<char>) -> bool {
    1 <= s.len() <= 32 && is_lower(s[0]) && forall|i: int|
        0 <= i < s.len() ==> is_role_char(#[trigger] s[i])
}

/// Whether a text is a role.
pub fn is_role(s: &str) -> (r: bool)
    ensures
        r == role_ok(s@),
{
    let mut count: usize = 0;
    for c in it: s.chars()
        invariant
            it.seq() == s@,
            count == it.index(),
            count <= 32,
            forall|k: int| 0 <= k < it.index() ==> is_role_char(#[trigger] s@[k]),
            count > 0 ==> is_lower(s@[0]),
    {
        assert(s@[it.index() as int] == c);
        let lower = 'a' <= c && c <= 'z';
        if count == 0 {
            if !lower {
                return false;
            }
        } else if !lower && !('0' <= c && c <= '9') && c != '_' && c != '-' {
            return false;
        }
        if count == 32 {
            return false;
        }
        count += 1;
    }
    count > 0
}

/// One agent of a workspace.
#[derive(Debug)]
pub struct AgentStatus {
    pub role: String,
    pub canonical_name: String,
    pub status: String,
}

/// One agent of a workspace.
pub struct AgentView {
    pub role: Seq<char>,
    pub canonical_name: Seq<char>,
    pub status: Seq<char>,
}

impl View for AgentStatus {
    type V = AgentView;

    open spec fn view(&self) -> AgentView {
        AgentView {
            role: self.role@,
            canonical_name: self.canonical_name@,
            status: self.status@,
        }
    }
}

impl AgentStatus {
    /// An agent with a role and a canonical name, which the naming rules of the
    /// workspace have accepted or not.
    pub fn new(role: &str, canonical_name: Option<&str>, status: &str) -> (r: Result<
        Self,
        OperationsError,
    >)
        ensures
            r is Ok == (role_ok(role@) && canonical_name is Some && status@ == "connected"@),
            r is Ok ==> r->Ok_0@ == (AgentView {
                role: role@,
                canonical_name: canonical_name->0@,
                status: status@,
            }),
            r is Err ==> r->Err_0 == OperationsError::InvalidResponse,
    {
        if !is_role(role) {
            return Err(OperationsError::InvalidResponse);
        }
        let Some(name) = canonical_name else {
            return Err(OperationsError::InvalidResponse);
        };
        if !text_eq(status, "connected") {
            return Err(OperationsError::InvalidResponse);
        }
        Ok(
            AgentStatus {
                role: role.to_owned(),
                canonical_name: name.to_owned(),
                status: status.to_owned(),
            },
        )
    }
}

/// How many tasks are in which state.
#[derive(Clone, Copy, Debug, PartialEq, Eq, Structural)]
pub struct BrokerTaskCounts {
    pub queued: u64,
    pub leased: u64,
    pub waiting_reply: u64,
    pub terminal: u64,
}

/// The last event of a workspace.
#[derive(Debug)]
pub struct BrokerStatusEvent {
    pub canonical_name: String,
    pub kind: String,
    pub unix_time: u64,
}

/// The last event of a workspace.
pub struct EventView {
    pub canonical_name: Seq<char>,
    pub kind: Seq<char>,
    pub unix_time: u64,
}

impl View for BrokerStatusEvent {
    type V = EventView;

    open spec fn view(&self) -> EventView {
        EventView {
            canonical_name: self.canonical_name@,
            kind: self.kind@,
            unix_time: self.unix_time,
        }
    }
}

/// What the broker counts.
#[derive(Debug)]
pub struct BrokerOperationsSnapshot {
    pub registrations: usize,
    pub tasks: BrokerTaskCounts,
    pub last_event: Option<BrokerStatusEvent>,
}

/// The status of a workspace.
#[derive(Debug)]
pub struct WorkspaceStatus {
    pub workspace_id: String,
    pub broker: String,
    pub storage: String,
    pub registrations: usize,
    pub agents: Vec<AgentStatus>,
    pub tasks: BrokerTaskCounts,
    pub last_event: Option<BrokerStatusEvent>,
}

/// The status of a workspace.
pub struct StatusView {
    pub workspace_id: Seq<char>,
    pub broker: Seq<char>,
    pub storage: Seq<char>,
    pub registrations: usize,
    pub agents: Seq<AgentView>,
    pub tasks: BrokerTaskCounts,
    pub last_event: Option<EventView>,
}

/// Some agents.
pub open spec fn agent_views(agents: Seq<AgentStatus>) -> Seq<AgentView> {
    agents.map_values(|a: AgentStatus| a@)
}

/// An event, if there is one.
pub open spec fn opt_event(e: Option<BrokerStatusEvent>) -> Option<EventView> {
    match e {
        Some(event) => Some(event@),
        None => None,
    }
}

impl View for WorkspaceStatus {
    type V = StatusView;

    open spec fn view(&self) -> StatusView {
        StatusView {
            workspace_id: self.workspace_id@,
            broker: self.broker@,
            storage: self.storage@,
            registrations: self.registrations,
            agents: agent_views(self.agents@),
            tasks: self.tasks,
            last_event: opt_event(self.last_event),
        }
    }
}

/// All agents are connected, and no two have the same canonical name.
pub open spec fn agents_ok(agents: Seq<AgentView>) -> bool {
    &&& forall|i: int|
        0 <= i < agents.len() ==> (#[trigger] agents[i]).status == "connected"@
    &&& forall|i: int, j: int|
        0 <= i < j < agents.len() ==> (#[trigger] agents[i]).canonical_name != (
        #[trigger] agents[j]).canonical_name
}

/// A character of the kind of an event.
pub open spec fn is_kind_char(c: char) -> bool {
    is_lower(c) || c == '_'
}

/// The kind of an event: up to 64 small letters and underscores.
pub open spec fn kind_ok(kind: Seq<char>) -> bool {
    1 <= kind.len() <= 64 && forall|i: int|
        0 <= i < kind.len() ==> is_kind_char(#[trigger] kind[i])
}

/// A status that may be shown.
pub open spec fn status_ok(s: StatusView) -> bool {
    &&& bounded_control_free(s.workspace_id, 1024)
    &&& s.broker == "healthy"@
    &&& s.storage == "reconciled"@
    &&& s.agents.len() <= s.registrations
    &&& agents_ok(s.agents)
    &&& s.last_event is Some ==> kind_ok(s.last_event->0.kind)
}

fn is_kind(kind: &str) -> (r: bool)
    ensures
        r == kind_ok(kind@),
{
    let mut count: usize = 0;
    for c in it: kind.chars()
        invariant
            it.seq() == kind@,
            count == it.index(),
            count <= 64,
            forall|k: int| 0 <= k < it.index() ==> is_kind_char(#[trigger] kind@[k]),
    {
        assert(kind@[it.index() as int] == c);
        if !('a' <= c && c <= 'z') && c != '_' {
            return false;
        }
        if count == 64 {
            return false;
        }
        count += 1;
    }
    count > 0
}

fn are_agents_ok(agents: &Vec<AgentStatus>) -> (r: bool)
    ensures
        r == agents_ok(agent_views(agents@)),
{
    let ghost v = agent_views(agents@);
    let mut i: usize = 0;
    while i < agents.len()
        invariant
            i <= agents.len(),
            v == agent_views(agents@),
            forall|a: int| 0 <= a < i ==> (#[trigger] v[a]).status == "connected"@,
            forall|a: int, b: int|
                0 <= a < b < i ==> (#[trigger] v[a]).canonical_name != (
                #[trigger] v[b]).canonical_name,
        decreases agents.len() - i,
    {
        assert(v[i as int] == agents@[i as int]@);
        if !text_eq(agents[i].status.as_str(), "connected") {
            return false;
        }
        let mut j: usize = 0;
        while j < i
            invariant
                j <= i < agents.len(),
                v == agent_views(agents@),
                forall|a: int|
                    0 <= a < j ==> (#[trigger] v[a]).canonical_name
                        != v[i as int].canonical_name,
            decreases i - j,
        {
            assert(v[j as int] == agents@[j as int]@);
            assert(v[i as int] == agents@[i as int]@);
            if text_eq(agents[j].canonical_name.as_str(), agents[i].canonical_name.as_str()) {
                assert(v[j as int].canonical_name == v[i as int].canonical_name);
                return false;
            }
            j += 1;
        }
        i += 1;
    }
    true
}

impl WorkspaceStatus {
    /// The status of a workspace whose broker answers.
    pub fn from_broker(
        workspace_id: &str,
        agents: Vec<AgentStatus>,
        snapshot: BrokerOperationsSnapshot,
    ) -> (r: Result<Self, OperationsError>)
        ensures
            ({
                let made = StatusView {
                    workspace_id: workspace_id@,
                    broker: "healthy"@,
                    storage: "reconciled"@,
                    registrations: snapshot.registrations,
                    agents: agent_views(agents@),
                    tasks: snapshot.tasks,
                    last_event: opt_event(snapshot.last_event),
                };
                &&& r is Ok == status_ok(made)
                &&& r is Ok ==> r->Ok_0@ == made
                &&& r is Err ==> r->Err_0 == OperationsError::InvalidResponse
            }),
    {
        let status = WorkspaceStatus {
            workspace_id: workspace_id.to_owned(),
            broker: "healthy".to_owned(),
            storage: "reconciled".to_owned(),
            registrations: snapshot.registrations,
            agents,
            tasks: snapshot.tasks,
            last_event: snapshot.last_event,
        };
        status.validate()?;
        Ok(status)
    }

    /// Checks that the status may be shown.
    pub fn validate(&self) -> (r: Result<(), OperationsError>)
        ensures
            r is Ok == status_ok(self@),
            r is Err ==> r->Err_0 == OperationsError::InvalidResponse,
    {
        if !is_bounded_control_free(self.workspace_id.as_str(), 1024) || !text_eq(
            self.broker.as_str(),
            "healthy",
        ) || !text_eq(self.storage.as_str(), "reconciled") || self.agents.len()
            > self.registrations {
            return Err(OperationsError::InvalidResponse);
        }
        if !are_agents_ok(&self.agents) {
            return Err(OperationsError::InvalidResponse);
        }
        match &self.last_event {
            Some(event) => {
                if !is_kind(event.kind.as_str()) {
                    return Err(OperationsError::InvalidResponse);
                }
            },
            None => {},
        }
        Ok(())
    }

    /// The status of a healthy workspace with one worker.
    pub fn healthy_fixture(workspace_id: &str) -> (r: Self)
        ensures
            r@.workspace_id == workspace_id@,
            r@.broker == "healthy"@,
            r@.storage == "reconciled"@,
            r@.registrations == 1,
            r@.agents == seq![
                AgentView {
                    role: "worker"@,
                    canonical_name: "worker-k7m2"@,
                    status: "connected"@,
                },
            ],
            r@.tasks == (BrokerTaskCounts { queued: 0, leased: 0, waiting_reply: 0, terminal: 0 }),
            r@.last_event is None,
            status_ok(r@) == bounded_control_free(workspace_id@, 1024),
    {
        let mut agents: Vec<AgentStatus> = Vec::new();
        agents.push(
            AgentStatus {
                role: "worker".to_owned(),
                canonical_name: "worker-k7m2".to_owned(),
                status: "connected".to_owned(),
            },
        );
        let status = WorkspaceStatus {
            workspace_id: workspace_id.to_owned(),
            broker: "healthy".to_owned(),
            storage: "reconciled".to_owned(),
            registrations: 1,
            agents,
            tasks: BrokerTaskCounts { queued: 0, leased: 0, waiting_reply: 0, terminal: 0 },
            last_event: None,
        };
        assert(status@.agents =~= seq![
            AgentView {
                role: "worker"@,
                canonical_name: "worker-k7m2"@,
                status: "connected"@,
            },
        ]);
        status
    }
}

/// What is known of a broker from its descriptor.
#[derive(Debug)]
pub struct BrokerIdentity {
    pub base_url: String,
    pub workspace_id: String,
    pub broker_instance_id: String,
    pub bearer_token: String,
}

/// A text is the one encoding of some number of bytes.
pub open spec fn canonical_encoding(text: Seq<char>, n: int) -> bool {
    base64url_decoded(text) is Some && base64url_decoded(text)->0.len() == n && base64url_encoded(
        base64url_decoded(text)->0,
    ) == text
}

fn decode_canonical(text: &str) -> (r: Option<Vec<u8>>)
    ensures
        r is Some == canonical_encoding(text@, 32),
        r is Some ==> Some(r->0@) == base64url_decoded(text@),
{
    let Some(decoded) = base64url_decode(text) else {
        return None;
    };
    if decoded.len() != 32 {
        return None;
    }
    let encoded = base64url_encode(decoded.as_slice());
    if !text_eq(encoded.as_str(), text) {
        return None;
    }
    Some(decoded)
}

/// The instance of a broker has its one form: 43 characters for 32 bytes.
pub open spec fn instance_ok(id: Seq<char>) -> bool {
    canonical_encoding(id, 32) && utf8(id).len() == 43
}

/// Checks the instance of a broker.
pub fn validate_instance_id(identity: &BrokerIdentity) -> (r: Result<Vec<u8>, OperationsError>)
    ensures
        r is Ok == instance_ok(identity.broker_instance_id@),
        r is Ok ==> Some(r->Ok_0@) == base64url_decoded(identity.broker_instance_id@),
        r is Err ==> r->Err_0 == OperationsError::BrokerProofFailed,
{
    let Some(decoded) = decode_canonical(identity.broker_instance_id.as_str()) else {
        return Err(OperationsError::BrokerProofFailed);
    };
    if byte_len(identity.broker_instance_id.as_str()) != 43 {
        return Err(OperationsError::BrokerProofFailed);
    }
    Ok(decoded)
}

/// Where the status for a nonce is asked for.
pub fn status_url(identity: &BrokerIdentity, nonce: &[u8]) -> (r: String)
    requires
        nonce@.len() == 32,
    ensures
        r@ == identity.base_url@ + "/health/status/"@ + base64url_encoded(nonce@),
{
    let mut url = identity.base_url.clone();
    url.append("/health/status/");
    url.append(base64url_encode(nonce).as_str());
    url
}

/// The message that the proof of a status is a code of.
pub open spec fn proof_message(instance: Seq<char>, nonce: Seq<u8>, body: Seq<u8>) -> Seq<u8> {
    utf8("herdr-a2a-status-v1\0"@) + utf8(instance) + nonce + body
}

/// The proof of a status for a nonce, which takes the bearer token to make.
pub open spec fn expected_proof(
    token: Seq<char>,
    instance: Seq<char>,
    nonce: Seq<u8>,
    body: Seq<u8>,
) -> Seq<u8> {
    hmac_sha256(sha256(utf8(token)), proof_message(instance, nonce, body))
}

/// A status is proved: it names the instance that was asked, and its proof is the
/// one for the nonce and the body.
pub open spec fn proved(
    instance_header: Option<Seq<char>>,
    proof_header: Option<Seq<char>>,
    token: Seq<char>,
    instance: Seq<char>,
    nonce: Seq<u8>,
    body: Seq<u8>,
) -> bool {
    &&& instance_header == Some(instance)
    &&& proof_header is Some
    &&& canonical_encoding(proof_header->0, 32)
    &&& base64url_decoded(proof_header->0) == Some(expected_proof(token, instance, nonce, body))
}

/// Checks the proof of a status.
pub fn verify_status_response(
    identity: &BrokerIdentity,
    nonce: &[u8],
    instance_values: &Vec<Option<String>>,
    proof_values: &Vec<Option<String>>,
    body: &[u8],
) -> (r: Result<(), OperationsError>)
    ensures
        r is Ok == proved(
            single(instance_values@),
            single(proof_values@),
            identity.bearer_token@,
            identity.broker_instance_id@,
            nonce@,
            body@,
        ),
        r is Err ==> r->Err_0 == OperationsError::BrokerProofFailed,
{
    let Some(instance) = single_header(instance_values) else {
        return Err(OperationsError::BrokerProofFailed);
    };
    if !text_eq(instance.as_str(), identity.broker_instance_id.as_str()) {
        return Err(OperationsError::BrokerProofFailed);
    }
    let Some(proof_text) = single_header(proof_values) else {
        return Err(OperationsError::BrokerProofFailed);
    };
    let Some(proof) = decode_canonical(proof_text.as_str()) else {
        return Err(OperationsError::BrokerProofFailed);
    };
    let key = sha256_once(text_bytes(identity.bearer_token.as_str()).as_slice());
    let mut message = text_bytes("herdr-a2a-status-v1\0");
    message.extend_from_slice(text_bytes(identity.broker_instance_id.as_str()).as_slice());
    message.extend_from_slice(nonce);
    message.extend_from_slice(body);
    assert(message@ =~= proof_message(identity.broker_instance_id@, nonce@, body@));
    let expected = hmac_sha256_once(key.as_slice(), message.as_slice());
    if !constant_time_eq(proof.as_slice(), expected.as_slice()) {
        return Err(OperationsError::BrokerProofFailed);
    }
    Ok(())
}

/// What came back for a status.
#[derive(Debug)]
pub struct StatusReply {
    /// Where the reply came from.
    pub url: String,
    /// The HTTP status of the reply.
    pub code: u16,
    /// The length that the reply announces, if it does.
    pub content_length: Option<u64>,
    pub instance_values: Vec<Option<String>>,
    pub proof_values: Vec<Option<String>>,
    /// The body, if it could be read within its limit.
    pub body: Option<Vec<u8>>,
}

/// What the body of a reply says.
#[derive(Debug)]
pub struct StatusBody {
    /// The code of an error, if the body is one.
    pub error_code: Option<String>,
    /// The status, if the body is one.
    pub status: Option<WorkspaceStatus>,
}

/// What a reply comes to: a status that may be shown, or what is wrong.
pub open spec fn settled(
    identity: BrokerIdentity,
    nonce: Seq<u8>,
    url: Seq<char>,
    reply: StatusReply,
    said: StatusBody,
) -> Result<StatusView, OperationsError> {
    if reply.url@ != url {
        Err(OperationsError::InvalidResponse)
    } else if reply.content_length is Some && reply.content_length->0 > MAX_STATUS_BYTES {
        Err(OperationsError::InvalidResponse)
    } else if reply.body is None {
        Err(OperationsError::InvalidResponse)
    } else if !proved(
        single(reply.instance_values@),
        single(reply.proof_values@),
        identity.bearer_token@,
        identity.broker_instance_id@,
        nonce,
        reply.body->0@,
    ) {
        Err(OperationsError::BrokerProofFailed)
    } else if reply.code == 503 {
        if said.error_code is Some && said.error_code->0@ == "persistence_unavailable"@ {
            Err(OperationsError::StorageReconciliationFailed)
        } else {
            Err(OperationsError::InvalidResponse)
        }
    } else if reply.code != 200 {
        Err(OperationsError::InvalidResponse)
    } else if said.status is None || said.status->0.workspace_id@ != identity.workspace_id@
        || !status_ok(said.status->0@) {
        Err(OperationsError::InvalidResponse)
    } else {
        Ok(said.status->0@)
    }
}

/// Decides what a reply comes to.
pub fn settle_status(
    identity: &BrokerIdentity,
    nonce: &[u8],
    url: &str,
    reply: &StatusReply,
    said: StatusBody,
) -> (r: Result<WorkspaceStatus, OperationsError>)
    ensures
        match r {
            Ok(status) => settled(*identity, nonce@, url@, *reply, said) == Ok::<
                StatusView,
                OperationsError,
            >(status@),
            Err(e) => settled(*identity, nonce@, url@, *reply, said) == Err::<
                StatusView,
                OperationsError,
            >(e),
        },
{
    if !text_eq(reply.url.as_str(), url) {
        return Err(OperationsError::InvalidResponse);
    }
    if let Some(length) = reply.content_length {
        if length > MAX_STATUS_BYTES as u64 {
            return Err(OperationsError::InvalidResponse);
        }
    }
    let body = match &reply.body {
        Some(body) => body,
        None => {
            return Err(OperationsError::InvalidResponse);
        },
    };
    verify_status_response(
        identity,
        nonce,
        &reply.instance_values,
        &reply.proof_values,
        body.as_slice(),
    )?;
    if reply.code == 503 {
        return match &said.error_code {
            Some(code) => if text_eq(code.as_str(), "persistence_unavailable") {
                Err(OperationsError::StorageReconciliationFailed)
            } else {
                Err(OperationsError::InvalidResponse)
            },
            None => Err(OperationsError::InvalidResponse),
        };
    }
    if reply.code != 200 {
        return Err(OperationsError::InvalidResponse);
    }
    match said.status {
        None => Err(OperationsError::InvalidResponse),
        Some(status) => {
            if !text_eq(status.workspace_id.as_str(), identity.workspace_id.as_str()) {
                return Err(OperationsError::InvalidResponse);
            }
            status.validate()?;
            Ok(status)
        },
    }
}

/// A status is shown only when the broker has proved it with the bearer token, for
/// the nonce that was sent and for the whole body; and it is then one of the
/// workspace that was asked for.
pub proof fn law_shown_status_is_proved(
    identity: BrokerIdentity,
    nonce: Seq<u8>,
    url: Seq<char>,
    reply: StatusReply,
    said: StatusBody,
)
    requires
        settled(identity, nonce, url, reply, said) is Ok,
    ensures
        reply.body is Some,
        base64url_decoded(single(reply.proof_values@)->0) == Some(
            expected_proof(
                identity.bearer_token@,
                identity.broker_instance_id@,
                nonce,
                reply.body->0@,
            ),
        ),
        settled(identity, nonce, url, reply, said)->Ok_0.workspace_id == identity.workspace_id@,
        status_ok(settled(identity, nonce, url, reply, said)->Ok_0),
{
}

/// A status that may be shown is that of a healthy broker with its storage in
/// order. Its agents are connected, are of different names, and are no more than
/// are registered; its last event is of a kind of up to 64 characters.
pub proof fn law_shown_statuses_are_healthy(s: StatusView)
    requires
        status_ok(s),
    ensures
        0 < s.workspace_id.len(),
        utf8(s.workspace_id).len() <= 1024,
        crate::wire::control_free(s.workspace_id),
        s.broker == "healthy"@,
        s.storage == "reconciled"@,
        s.agents.len() <= s.registrations,
        s.last_event is Some ==> 0 < s.last_event->0.kind.len() <= 64,
        forall|i: int|
            0 <= i < s.agents.len() ==> (#[trigger] s.agents[i]).status == "connected"@,
        forall|i: int, j: int|
            0 <= i < s.agents.len() && 0 <= j < s.agents.len() && (#[trigger] s.agents[i])
                .canonical_name == (#[trigger] s.agents[j]).canonical_name ==> i == j,
{
    assert forall|i: int, j: int|
        0 <= i < s.agents.len() && 0 <= j < s.agents.len() && (#[trigger] s.agents[i])
            .canonical_name == (#[trigger] s.agents[j]).canonical_name implies i == j by {
        if i < j {
            assert(s.agents[i].canonical_name != s.agents[j].canonical_name);
        } else if j < i {
            assert(s.agents[j].canonical_name != s.agents[i].canonical_name);
        }
    }
}

/// A role is up to 32 small letters, digits, underscores and hyphens, of which the
/// first is a letter; the kind of an event is up to 64 small letters and
/// underscores.
pub proof fn law_roles_and_kinds_are_plain(s: Seq<char>)
    ensures
        role_ok(s) <==> (0 < s.len() && s.len() < 33 && 'a' <= s[0] && s[0] <= 'z' && forall|i: int|

            0 <= i < s.len() ==> ('a' <= #[trigger] s[i] && s[i] <= 'z') || ('0' <= s[i] && s[i]
                <= '9') || s[i] == '_' || s[i] == '-'),
        kind_ok(s) <==> (0 < s.len() && s.len() < 65 && forall|i: int|
            0 <= i < s.len() ==> ('a' <= #[trigger] s[i] && s[i] <= 'z') || s[i] == '_'),
{
}

/// A proof is a code under the digest of the bearer token, of the name of the
/// procedure, the instance, the nonce and the body, in this order and with nothing
/// else.
pub proof fn law_proofs_bind_instance_nonce_and_body(
    token: Seq<char>,
    instance: Seq<char>,
    nonce: Seq<u8>,
    body: Seq<u8>,
)
    ensures
        ({
            let name = utf8("herdr-a2a-status-v1\0"@);
            let id = utf8(instance);
            let message = proof_message(instance, nonce, body);
            let (a, b, c) = (
                name.len() as int,
                (name.len() + id.len()) as int,
                (name.len() + id.len() + nonce.len()) as int,
            );
            &&& expected_proof(token, instance, nonce, body) == hmac_sha256(
                sha256(utf8(token)),
                message,
            )
            &&& message.len() == name.len() + id.len() + nonce.len() + body.len()
            &&& message.subrange(0, a) == name
            &&& message.subrange(a, b) == id
            &&& message.subrange(b, c) == nonce
            &&& message.skip(c) == body
        }),
{
    let name = utf8("herdr-a2a-status-v1\0"@);
    let id = utf8(instance);
    let message = proof_message(instance, nonce, body);
    let (a, b, c) = (
        name.len() as int,
        (name.len() + id.len()) as int,
        (name.len() + id.len() + nonce.len()) as int,
    );
    assert(message.subrange(0, a) =~= name);
    assert(message.subrange(a, b) =~= id);
    assert(message.subrange(b, c) =~= nonce);
    assert(message.skip(c) =~= body);
}

/// A reply is believed only with one header for the instance that was asked and one
/// for its proof, which is 32 bytes in their one encoding.
pub proof fn law_believed_replies_carry_one_proof(
    identity: BrokerIdentity,
    nonce: Seq<u8>,
    url: Seq<char>,
    reply: StatusReply,
    said: StatusBody,
)
    requires
        ({
            let r = settled(identity, nonce, url, reply, said);
            r is Ok || r == Err::<StatusView, OperationsError>(
                OperationsError::StorageReconciliationFailed,
            )
        }),
    ensures
        reply.url@ == url,
        reply.content_length is Some ==> reply.content_length->0 <= 262_144,
        reply.instance_values@.len() == 1,
        reply.instance_values@[0] is Some,
        reply.instance_values@[0]->0@ == identity.broker_instance_id@,
        reply.proof_values@.len() == 1,
        reply.proof_values@[0] is Some,
        base64url_decoded(reply.proof_values@[0]->0@) is Some,
        base64url_decoded(reply.proof_values@[0]->0@)->0.len() == 32,
        base64url_encoded(base64url_decoded(reply.proof_values@[0]->0@)->0)
            == reply.proof_values@[0]->0@,
        reply.code == (if settled(identity, nonce, url, reply, said) is Ok {
            200u16
        } else {
            503u16
        }),
{
}

/// What a proved reply says is taken at its word: with 200 its status is shown as it
/// is, if it may be and is of the workspace; with 503 and the code for it, the
/// storage has failed; anything else is no valid response. A reply that came as it
/// should but is not proved is told from those.
pub proof fn law_proved_replies_are_taken_at_their_word(
    identity: BrokerIdentity,
    nonce: Seq<u8>,
    url: Seq<char>,
    reply: StatusReply,
    said: StatusBody,
)
    requires
        reply.url@ == url,
        reply.content_length is Some ==> reply.content_length->0 <= 262_144,
        reply.body is Some,
    ensures
        ({
            let r = settled(identity, nonce, url, reply, said);
            let shown = proved(
                single(reply.instance_values@),
                single(reply.proof_values@),
                identity.bearer_token@,
                identity.broker_instance_id@,
                nonce,
                reply.body->0@,
            );
            let failed = said.error_code is Some && said.error_code->0@
                == "persistence_unavailable"@;
            let fits = said.status is Some && said.status->0.workspace_id@
                == identity.workspace_id@ && status_ok(said.status->0@);
            &&& r == Err::<StatusView, OperationsError>(OperationsError::BrokerProofFailed)
                <==> !shown
            &&& r == Err::<StatusView, OperationsError>(
                OperationsError::StorageReconciliationFailed,
            ) <==> shown && reply.code == 503 && failed
            &&& r is Ok <==> shown && reply.code == 200 && fits
            &&& r is Ok ==> r->Ok_0 == said.status->0@
            &&& r != Err::<StatusView, OperationsError>(OperationsError::BrokerUnavailable)
        }),
{
}

/// An instance is named in 43 bytes, which decode to 32 and encode to the same
/// name.
pub proof fn law_instances_have_one_name(id: Seq<char>)
    ensures
        instance_ok(id) <==> (utf8(id).len() == 43 && base64url_decoded(id) is Some
            && base64url_decoded(id)->0.len() == 32 && base64url_encoded(base64url_decoded(id)->0)
            == id),
{
}

} // verus!
