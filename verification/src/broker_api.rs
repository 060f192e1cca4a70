//! The broker's own interface: replies, addresses, and the directory of agents.

use vstd::prelude::*;
use vstd::string::*;
use crate::framing::MAX_PRIVATE_RESPONSE_BYTES;
use crate::json::{
    json_get_text, json_object, json_of_text, json_parsed, parse_json, push_field, field_views,
    Json, JsonView,
};
use crate::order::{bytes_less, is_bytes_less, law_byte_strings_are_in_one_line};
use crate::protocol::{
    plainly, refuse, session_failure, session_failure_text, texts, PrivateBrokerError,
    PrivateErrorView, SessionFailure, SessionFailureView, MAX_IDENTITY_BYTES, MAX_METHOD_BYTES,
};
use crate::recovery::{error_field, get_error_field, RecoveryMode};
use crate::tasks::{metadata_failure, text_failure, validate_metadata, validate_text};
use crate::text::{text_bytes, text_eq, text_join, utf8};
use crate::wire::{
    add_chunk, bounded_control_free, http_status_text, is_bounded_control_free, status_text,
};

verus! {

/// The most candidates that an error may name.
pub const MAX_SESSION_ERROR_CANDIDATES: usize = 1_024;

/// Why a request to the broker failed.
#[derive(Debug)]
pub enum RequestError {
    /// A recovery helps.
    Recoverable { mode: RecoveryMode, reason: String },
    /// Nothing helps.
    Final(SessionFailure),
}

/// Why a request to the broker failed.
pub enum RequestErrorView {
    Recoverable { mode: RecoveryMode, reason: Seq<char> },
    Final(SessionFailureView),
}

impl View for RequestError {
    type V = RequestErrorView;

    open spec fn view(&self) -> RequestErrorView {
        match self {
            RequestError::Recoverable { mode, reason } => RequestErrorView::Recoverable {
                mode: *mode,
                reason: reason@,
            },
            RequestError::Final(f) => RequestErrorView::Final(f@),
        }
    }
}

/// What a request that failed is answered with: a recovery of its kind, after which it
/// is tried again, or its failure.
pub fn retry_by(error: RequestError) -> (r: Result<RecoveryMode, SessionFailure>)
    ensures
        match error@ {
            RequestErrorView::Recoverable { mode, .. } => r == Ok::<RecoveryMode, SessionFailure>(
                mode,
            ),
            RequestErrorView::Final(f) => r is Err && r->Err_0@ == f,
        },
{
    match error {
        RequestError::Recoverable { mode, .. } => Ok(mode),
        RequestError::Final(failure) => Err(failure),
    }
}

/// What a request fails with in the end.
pub open spec fn handed_on(error: RequestErrorView) -> SessionFailureView {
    match error {
        RequestErrorView::Recoverable { mode, reason } => SessionFailureView::Plain(reason),
        RequestErrorView::Final(f) => f,
    }
}

/// What a request failed with, where nothing is recovered any more.
pub fn request_error_into_dyn(error: RequestError) -> (r: SessionFailure)
    ensures
        r@ == handed_on(error@),
{
    match error {
        RequestError::Recoverable { reason, .. } => SessionFailure::Plain(reason),
        RequestError::Final(f) => f,
    }
}

/// What an error of the transport means.
pub open spec fn transport_problem(
    connect: bool,
    timeout: bool,
    request: bool,
    body: bool,
    decode: bool,
    text: Seq<char>,
) -> RequestErrorView {
    if connect || timeout || request || body || decode {
        RequestErrorView::Recoverable {
            mode: RecoveryMode::BrokerReplacement,
            reason: text,
        }
    } else {
        RequestErrorView::Final(SessionFailureView::Plain(text))
    }
}

/// What a failure of the transport means.
pub fn transport_error(
    is_connect: bool,
    is_timeout: bool,
    is_request: bool,
    is_body: bool,
    is_decode: bool,
    text: String,
) -> (r: RequestError)
    ensures
        r@ == transport_problem(is_connect, is_timeout, is_request, is_body, is_decode, text@),
{
    if is_connect || is_timeout || is_request || is_body || is_decode {
        RequestError::Recoverable { mode: RecoveryMode::BrokerReplacement, reason: text }
    } else {
        RequestError::Final(SessionFailure::Plain(text))
    }
}

/// Takes a piece of the reply of the broker.
pub fn take_reply_chunk(body: &mut Vec<u8>, chunk: &[u8]) -> (r: Result<(), RequestError>)
    requires
        old(body)@.len() <= MAX_PRIVATE_RESPONSE_BYTES,
    ensures
        r is Ok == (old(body)@.len() + chunk@.len() <= MAX_PRIVATE_RESPONSE_BYTES),
        r is Err ==> r->Err_0@ == RequestErrorView::Final(
            SessionFailureView::Plain("broker response exceeded its bound"@),
        ),
        final(body)@ == if r is Ok {
            old(body)@ + chunk@
        } else {
            old(body)@
        },
{
    if !add_chunk(body, chunk, MAX_PRIVATE_RESPONSE_BYTES) {
        return Err(
            RequestError::Final(SessionFailure::plain("broker response exceeded its bound")),
        );
    }
    Ok(())
}

/// Candidates in ascending order, no two the same.
pub open spec fn ascending(candidates: Seq<Seq<char>>) -> bool {
    forall|i: int|
        0 <= i < candidates.len() - 1 ==> bytes_less(
            utf8(#[trigger] candidates[i]),
            utf8(candidates[i + 1]),
        )
}

/// An error of the broker in its own form that can be handed on.
pub open spec fn private_error_ok(e: PrivateErrorView) -> bool {
    &&& bounded_control_free(e.code, MAX_METHOD_BYTES as int)
    &&& bounded_control_free(e.message, MAX_PRIVATE_RESPONSE_BYTES as int)
    &&& e.candidates.len() <= MAX_SESSION_ERROR_CANDIDATES
    &&& ascending(e.candidates)
}

fn is_ascending(candidates: &Vec<String>) -> (r: bool)
    ensures
        r == ascending(texts(candidates@)),
{
    let ghost v = texts(candidates@);
    if candidates.len() == 0 {
        return true;
    }
    let mut i: usize = 0;
    while i < candidates.len() - 1
        invariant
            0 < candidates@.len(),
            i <= candidates@.len() - 1,
            v == texts(candidates@),
            forall|k: int|
                0 <= k < i ==> bytes_less(utf8(#[trigger] v[k]), utf8(v[k + 1])),
        decreases candidates@.len() - i,
    {
        let a = text_bytes(candidates[i].as_str());
        let b = text_bytes(candidates[i + 1].as_str());
        assert(v[i as int] == candidates@[i as int]@ && v[i + 1] == candidates@[i + 1]@);
        if !is_bytes_less(a.as_slice(), b.as_slice()) {
            return false;
        }
        i += 1;
    }
    true
}

/// Takes an error of the broker in its own form, if it can be handed on.
pub fn decode_private_error(error: PrivateBrokerError) -> (r: Option<PrivateBrokerError>)
    ensures
        r is Some == private_error_ok(error@),
        r is Some ==> r->0 == error,
{
    assert(texts(error.candidates@).len() == error.candidates@.len());
    if !is_bounded_control_free(error.code.as_str(), MAX_METHOD_BYTES) || !is_bounded_control_free(
        error.message.as_str(),
        MAX_PRIVATE_RESPONSE_BYTES,
    ) || error.candidates.len() > MAX_SESSION_ERROR_CANDIDATES || !is_ascending(
        &error.candidates,
    ) {
        return None;
    }
    Some(error)
}

/// What is to be recovered after an error of the broker.
pub open spec fn mode_for_code(code: Option<Seq<char>>, status: u16) -> Option<RecoveryMode> {
    if code == Some("invalid_registration"@) {
        Some(RecoveryMode::RegistrationRefresh)
    } else if code == Some("stale_registration"@) || code == Some("broker_instance_mismatch"@) {
        Some(RecoveryMode::BrokerReplacement)
    } else if status == 401 {
        Some(RecoveryMode::BrokerReplacement)
    } else {
        None
    }
}

/// The error of the broker in its own form, if it can be handed on.
pub open spec fn opt_private(e: Option<PrivateBrokerError>) -> Option<PrivateErrorView> {
    match e {
        Some(v) => if private_error_ok(v@) {
            Some(v@)
        } else {
            None
        },
        None => None,
    }
}

/// What a reply that is an error means.
pub open spec fn refusal(
    status: u16,
    parsed: Option<JsonView>,
    private: Option<PrivateErrorView>,
) -> RequestErrorView {
    let code = match private {
        Some(e) => Some(e.code),
        None => match parsed {
            Some(v) => error_field(v, "code"@),
            None => None,
        },
    };
    let told = match private {
        Some(e) => Some(e.message),
        None => match parsed {
            Some(v) => error_field(v, "message"@),
            None => None,
        },
    };
    let message = match told {
        Some(text) => text,
        None => "broker returned HTTP "@ + http_status_text(status),
    };
    match mode_for_code(code, status) {
        Some(mode) => RequestErrorView::Recoverable { mode, reason: message },
        None => match private {
            Some(e) => RequestErrorView::Final(SessionFailureView::Private(e)),
            None => RequestErrorView::Final(SessionFailureView::Plain(message)),
        },
    }
}

fn recovery_for_code(code: Option<&String>, status: u16) -> (r: Option<RecoveryMode>)
    ensures
        r == mode_for_code(
            match code {
                Some(c) => Some(c@),
                None => None,
            },
            status,
        ),
{
    if let Some(code) = code {
        if text_eq(code.as_str(), "invalid_registration") {
            return Some(RecoveryMode::RegistrationRefresh);
        }
        if text_eq(code.as_str(), "stale_registration") || text_eq(
            code.as_str(),
            "broker_instance_mismatch",
        ) {
            return Some(RecoveryMode::BrokerReplacement);
        }
    }
    if status == 401 {
        return Some(RecoveryMode::BrokerReplacement);
    }
    None
}

/// Tells what a parsed reply that is an error means, where the error in the
/// broker's own form is what the reply says as one.
pub fn refuse_reply(status: u16, parsed: Option<&Json>, private: Option<PrivateBrokerError>) -> (r:
    RequestError)
    requires
        100 <= status < 1000,
    ensures
        r@ == refusal(
            status,
            match parsed {
                Some(v) => Some(v@),
                None => None,
            },
            opt_private(private),
        ),
{
    let private = match private {
        Some(e) => decode_private_error(e),
        None => None,
    };
    let (code, told) = match &private {
        Some(e) => (Some(e.code.clone()), Some(e.message.clone())),
        None => match parsed {
            Some(v) => (get_error_field(v, "code"), get_error_field(v, "message")),
            None => (None, None),
        },
    };
    let message = match told {
        Some(text) => text,
        None => text_join("broker returned HTTP ", status_text(status).as_str()),
    };
    match recovery_for_code(code.as_ref(), status) {
        Some(mode) => RequestError::Recoverable { mode, reason: message },
        None => match private {
            Some(e) => RequestError::Final(SessionFailure::Private(e)),
            None => RequestError::Final(SessionFailure::Plain(message)),
        },
    }
}

/// Tells what a reply that is an error means.
pub fn decode_refusal(status: u16, bytes: &[u8], private: Option<PrivateBrokerError>) -> (r:
    RequestError)
    requires
        100 <= status < 1000,
    ensures
        r@ == refusal(
            status,
            match json_parsed(bytes@) {
                Ok(v) => Some(v),
                Err(_) => None,
            },
            opt_private(private),
        ),
{
    match parse_json(bytes) {
        Ok(v) => refuse_reply(status, Some(&v), private),
        Err(_) => refuse_reply(status, None, private),
    }
}

/// A role that several agents have is answered with the agents to choose from, in
/// order and without repetition, and nothing is recovered for it.
pub proof fn law_candidates_reach_the_caller(
    status: u16,
    parsed: Option<JsonView>,
    error: PrivateErrorView,
    id: Seq<char>,
)
    requires
        private_error_ok(error),
        error.candidates.len() > 0,
        mode_for_code(Some(error.code), status) is None,
    ensures
        refusal(status, parsed, Some(error)) == RequestErrorView::Final(
            SessionFailureView::Private(error),
        ),
        crate::protocol::response_for(id, Err(SessionFailureView::Private(error)))
            == crate::protocol::failed_among(id, error.code, error.message, error.candidates),
{
}

/// The most bytes of an address, and of a segment that is added to one: addresses
/// are counted in 32 bits.
pub const MAX_URL_PIECE_BYTES: usize = 268_435_456;

/// A text that can be a piece of an address.
pub open spec fn url_piece(s: Seq<char>) -> bool {
    utf8(s).len() <= MAX_URL_PIECE_BYTES
}

/// What adding segments to the path of an address gives: the address, or the text
/// of the parser's error, or nothing where the address takes no path.
pub uninterp spec fn extended_url(base: Seq<char>, segments: Seq<Seq<char>>) -> Result<
    Seq<char>,
    Option<Seq<char>>,
>;

/// `reqwest::Url::parse`, then `path_segments_mut`, `pop_if_empty` and `extend` with
/// the segments, which pushes each: what comes back depends on the base and the
/// segments alone. An address of more than 32 bits would end the program.
#[verifier::external_body]
fn extend_url(base: &str, segments: &Vec<String>) -> (r: Result<String, Option<String>>)
    requires
        url_piece(base@),
        segments@.len() <= 4,
        forall|i: int| 0 <= i < segments@.len() ==> url_piece((#[trigger] segments@[i])@),
    ensures
        match r {
            Ok(u) => extended_url(base@, texts(segments@)) == Ok::<Seq<char>, Option<Seq<char>>>(
                u@,
            ),
            Err(Some(e)) => extended_url(base@, texts(segments@)) == Err::<
                Seq<char>,
                Option<Seq<char>>,
            >(Some(e@)),
            Err(None) => extended_url(base@, texts(segments@)) == Err::<
                Seq<char>,
                Option<Seq<char>>,
            >(None),
        },
{
    let mut url = reqwest::Url::parse(base).map_err(|e| Some(e.to_string()))?;
    url.path_segments_mut().map_err(|()| None)?.pop_if_empty().extend(segments);
    Ok(url.into())
}

/// An address with segments added to its path, or why there is none.
pub open spec fn address(extended: Result<Seq<char>, Option<Seq<char>>>) -> Result<
    Seq<char>,
    SessionFailureView,
> {
    match extended {
        Ok(url) => Ok(url),
        Err(Some(e)) => Err(SessionFailureView::Plain(e)),
        Err(None) => Err(SessionFailureView::Plain("base URL cannot be a base"@)),
    }
}

/// A text, or what a request failed with.
pub open spec fn text_request(r: Result<String, SessionFailure>) -> Result<
    Seq<char>,
    SessionFailureView,
> {
    match r {
        Ok(v) => Ok(v@),
        Err(e) => Err(e@),
    }
}

/// Tells what adding segments to an address came to.
pub fn settle_address(extended: Result<String, Option<String>>) -> (r: Result<
    String,
    SessionFailure,
>)
    ensures
        text_request(r) == address(
            match extended {
                Ok(u) => Ok(u@),
                Err(Some(e)) => Err(Some(e@)),
                Err(None) => Err(None),
            },
        ),
{
    match extended {
        Ok(url) => Ok(url),
        Err(Some(e)) => Err(SessionFailure::Plain(e)),
        Err(None) => refuse("base URL cannot be a base"),
    }
}

proof fn lemma_short_pieces()
    ensures
        url_piece("v1"@),
        url_piece("tasks"@),
        url_piece("agents"@),
        url_piece("resolve"@),
{
    reveal_strlit("v1");
    reveal_strlit("tasks");
    reveal_strlit("agents");
    reveal_strlit("resolve");
    vstd::utf8::is_ascii_chars_encode_utf8("v1"@);
    vstd::utf8::is_ascii_chars_encode_utf8("tasks"@);
    vstd::utf8::is_ascii_chars_encode_utf8("agents"@);
    vstd::utf8::is_ascii_chars_encode_utf8("resolve"@);
}

/// The segments of the path of an action on a task.
pub open spec fn action_segments(task_id: Seq<char>, action: Seq<char>) -> Seq<Seq<char>> {
    seq!["v1"@, "tasks"@, task_id, action]
}

/// The address of an action on a task. The name of the task was checked or not, and
/// is added as a segment of its own.
pub fn task_action_url(
    base_url: &str,
    task_id: &str,
    task_id_check: &Result<(), String>,
    action: &str,
) -> (r: Result<String, SessionFailure>)
    requires
        url_piece(base_url@),
        url_piece(task_id@),
        url_piece(action@),
    ensures
        text_request(r) == match task_id_check {
            Err(e) => Err(SessionFailureView::Plain(e@)),
            Ok(_) => address(extended_url(base_url@, action_segments(task_id@, action@))),
        },
{
    match task_id_check {
        Ok(_) => {},
        Err(e) => {
            return Err(SessionFailure::Plain(e.clone()));
        },
    }
    let mut segments: Vec<String> = Vec::new();
    proof {
        lemma_short_pieces();
    }
    segments.push("v1".to_owned());
    segments.push("tasks".to_owned());
    segments.push(task_id.to_owned());
    segments.push(action.to_owned());
    assert(texts(segments@) =~= action_segments(task_id@, action@));
    let extended = extend_url(base_url, &segments);
    settle_address(extended)
}

/// The address at which a target is looked up.
pub fn resolve_url(base_url: &str, target: &str) -> (r: Result<String, SessionFailure>)
    requires
        url_piece(base_url@),
        url_piece(target@),
    ensures
        text_request(r) == address(
            extended_url(base_url@, seq!["v1"@, "agents"@, "resolve"@, target@]),
        ),
{
    let mut segments: Vec<String> = Vec::new();
    proof {
        lemma_short_pieces();
    }
    segments.push("v1".to_owned());
    segments.push("agents".to_owned());
    segments.push("resolve".to_owned());
    segments.push(target.to_owned());
    assert(texts(segments@) =~= seq!["v1"@, "agents"@, "resolve"@, target@]);
    let extended = extend_url(base_url, &segments);
    settle_address(extended)
}

/// The address of a fixed path of the broker.
pub fn broker_url(base_url: &str, path: &str) -> (r: String)
    ensures
        r@ == base_url@ + path@,
{
    text_join(base_url, path)
}

/// The address of the card of an agent.
pub fn card_url(base_url: &str, agent: &str) -> (r: String)
    ensures
        r@ == base_url@ + "/agents/"@ + agent@ + "/.well-known/agent-card.json"@,
{
    let mut url = text_join(base_url, "/agents/");
    url.append(agent);
    url.append("/.well-known/agent-card.json");
    url
}

/// How long the broker is asked to wait, in milliseconds: the time that is left in
/// nanoseconds, rounded up, and a second at least.
pub open spec fn wait_ms(left_ns: u128) -> u64 {
    let up = (left_ns as int + 999_999) / 1_000_000;
    if up > u64::MAX {
        u64::MAX
    } else if up < 1_000 {
        1_000
    } else {
        up as u64
    }
}

/// Tells how long the broker is asked to wait.
pub fn remaining_wait_ms(left_ns: u128) -> (r: u64)
    ensures
        r == wait_ms(left_ns),
{
    let whole: u128 = left_ns / 1_000_000;
    let up: u128 = if left_ns % 1_000_000 == 0 {
        whole
    } else {
        whole + 1
    };
    if up > 18_446_744_073_709_551_615 {
        u64::MAX
    } else if up < 1_000 {
        1_000
    } else {
        up as u64
    }
}

/// The broker is never asked to wait for less than the time that is left.
pub proof fn law_waits_cover_the_time_left(left_ns: u128)
    requires
        left_ns <= u64::MAX as u128 * 1_000_000,
    ensures
        wait_ms(left_ns) * 1_000_000 >= left_ns,
        wait_ms(left_ns) >= 1_000,
{
}

/// An agent of the directory, as the broker tells it.
#[derive(Debug)]
pub struct BrokerDirectoryAgent {
    pub canonical_name: String,
    pub role: String,
    pub pane_id: String,
    pub harness: String,
    pub status: String,
}

/// An agent of the directory, as a session tells it.
#[derive(Debug)]
pub struct WorkspaceDirectoryAgent {
    pub canonical_name: String,
    pub role: String,
    pub pane_id: String,
    pub harness: String,
    pub status: String,
    pub workspace_id: String,
}

/// An agent of the directory can be told on.
pub open spec fn listed_ok(a: BrokerDirectoryAgent) -> bool {
    &&& a.status@ == "live"@
    &&& bounded_control_free(a.pane_id@, MAX_IDENTITY_BYTES as int)
    &&& bounded_control_free(a.harness@, MAX_IDENTITY_BYTES as int)
}

/// A session tells an agent as the broker does, with the workspace.
pub open spec fn told(a: BrokerDirectoryAgent, workspace: Seq<char>, b: WorkspaceDirectoryAgent) -> bool {
    &&& b.canonical_name@ == a.canonical_name@
    &&& b.role@ == a.role@
    &&& b.pane_id@ == a.pane_id@
    &&& b.harness@ == a.harness@
    &&& b.status@ == a.status@
    &&& b.workspace_id@ == workspace
}

/// All agents of a directory can be told on.
pub open spec fn all_listed_ok(agents: Seq<BrokerDirectoryAgent>) -> bool {
    forall|i: int| 0 <= i < agents.len() ==> listed_ok(#[trigger] agents[i])
}

fn is_listed_ok(a: &BrokerDirectoryAgent) -> (r: bool)
    ensures
        r == listed_ok(*a),
{
    text_eq(a.status.as_str(), "live") && is_bounded_control_free(
        a.pane_id.as_str(),
        MAX_IDENTITY_BYTES,
    ) && is_bounded_control_free(a.harness.as_str(), MAX_IDENTITY_BYTES)
}

/// Makes the directory that a session tells: one agent that cannot be told on makes
/// the whole directory invalid.
pub fn list_agents(agents: &Vec<BrokerDirectoryAgent>, workspace_id: &str) -> (r: Result<
    Vec<WorkspaceDirectoryAgent>,
    SessionFailure,
>)
    ensures
        session_failure(r) == if all_listed_ok(agents@) {
            None
        } else {
            plainly("broker returned an invalid agent directory"@)
        },
        r is Ok ==> r->Ok_0@.len() == agents@.len() && forall|i: int|
            0 <= i < agents@.len() ==> told(
                #[trigger] agents@[i],
                workspace_id@,
                r->Ok_0@[i],
            ),
{
    let mut out: Vec<WorkspaceDirectoryAgent> = Vec::new();
    let mut i: usize = 0;
    while i < agents.len()
        invariant
            i <= agents.len(),
            out@.len() == i,
            forall|k: int| 0 <= k < i ==> listed_ok(#[trigger] agents@[k]),
            forall|k: int|
                0 <= k < i ==> told(#[trigger] agents@[k], workspace_id@, out@[k]),
        decreases agents.len() - i,
    {
        let agent = &agents[i];
        if !is_listed_ok(agent) {
            assert(!listed_ok(agents@[i as int]));
            return refuse("broker returned an invalid agent directory");
        }
        out.push(
            WorkspaceDirectoryAgent {
                canonical_name: agent.canonical_name.clone(),
                role: agent.role.clone(),
                pane_id: agent.pane_id.clone(),
                harness: agent.harness.clone(),
                status: agent.status.clone(),
                workspace_id: workspace_id.to_owned(),
            },
        );
        i += 1;
    }
    Ok(out)
}

/// An agent of a team that has registered.
#[derive(Debug)]
pub struct RegisteredTeamAgent {
    pub pane_id: String,
    pub canonical_name: String,
}

/// All agents of a team can be told on, and are in the panes that were asked for.
pub open spec fn all_team_ok(agents: Seq<BrokerDirectoryAgent>, panes: Seq<Seq<char>>) -> bool {
    forall|i: int|
        0 <= i < agents.len() ==> listed_ok(#[trigger] agents[i]) && panes.contains(
            agents[i].pane_id@,
        )
}

fn is_among(panes: &Vec<String>, pane: &str) -> (r: bool)
    ensures
        r == texts(panes@).contains(pane@),
{
    let ghost v = texts(panes@);
    let mut i: usize = 0;
    while i < panes.len()
        invariant
            i <= panes.len(),
            v == texts(panes@),
            forall|k: int| 0 <= k < i ==> #[trigger] v[k] != pane@,
        decreases panes.len() - i,
    {
        assert(v[i as int] == panes@[i as int]@);
        if text_eq(panes[i].as_str(), pane) {
            return true;
        }
        i += 1;
    }
    false
}

/// Takes the agents of a team that have registered in the panes that were asked
/// for.
pub fn wait_for_agents(agents: &Vec<BrokerDirectoryAgent>, pane_ids: &Vec<String>) -> (r: Result<
    Vec<RegisteredTeamAgent>,
    SessionFailure,
>)
    ensures
        session_failure(r) == if all_team_ok(agents@, texts(pane_ids@)) {
            None
        } else {
            plainly("broker returned an invalid team directory"@)
        },
        r is Ok ==> r->Ok_0@.len() == agents@.len() && forall|i: int|
            0 <= i < agents@.len() ==> r->Ok_0@[i].pane_id@ == (#[trigger] agents@[i]).pane_id@
                && r->Ok_0@[i].canonical_name@ == agents@[i].canonical_name@,
{
    let mut out: Vec<RegisteredTeamAgent> = Vec::new();
    let mut i: usize = 0;
    while i < agents.len()
        invariant
            i <= agents.len(),
            out@.len() == i,
            forall|k: int|
                0 <= k < i ==> listed_ok(#[trigger] agents@[k]) && texts(pane_ids@).contains(
                    agents@[k].pane_id@,
                ),
            forall|k: int|
                0 <= k < i ==> out@[k].pane_id@ == (#[trigger] agents@[k]).pane_id@
                    && out@[k].canonical_name@ == agents@[k].canonical_name@,
        decreases agents.len() - i,
    {
        let agent = &agents[i];
        if !is_listed_ok(agent) || !is_among(pane_ids, agent.pane_id.as_str()) {
            assert(!(listed_ok(agents@[i as int]) && texts(pane_ids@).contains(
                agents@[i as int].pane_id@,
            )));
            return refuse("broker returned an invalid team directory");
        }
        out.push(
            RegisteredTeamAgent {
                pane_id: agent.pane_id.clone(),
                canonical_name: agent.canonical_name.clone(),
            },
        );
        i += 1;
    }
    Ok(out)
}

/// What a request fails with once its time is over.
pub open spec fn out_of_time(deadline: Option<u64>, now: u64, message: Seq<char>) -> Option<
    SessionFailureView,
> {
    if deadline is Some && now >= deadline->0 {
        plainly(message)
    } else {
        None
    }
}

/// Checks that there is time for another wait.
pub fn check_time_left(deadline: Option<u64>, now: u64, message: &str) -> (r: Result<
    (),
    SessionFailure,
>)
    ensures
        session_failure(r) == out_of_time(deadline, now, message@),
{
    match deadline {
        Some(d) => {
            if now >= d {
                return refuse(message);
            }
            Ok(())
        },
        None => Ok(()),
    }
}

/// Takes the name of a message that was delivered.
pub fn delivery_identifier(delivery: &Json) -> (r: Result<String, SessionFailure>)
    ensures
        match json_get_text(delivery@, "delivery_id"@) {
            Some(id) => text_request(r) == Ok::<Seq<char>, SessionFailureView>(id),
            None => session_failure(r) == plainly("delivery has no identifier"@),
        },
{
    match delivery.get_text("delivery_id") {
        Some(id) => Ok(id.clone()),
        None => refuse("delivery has no identifier"),
    }
}

/// What a delivery comes to, by its acknowledgement.
pub open spec fn delivered(delivery: JsonView, failed: Option<SessionFailureView>) -> Result<
    JsonView,
    SessionFailureView,
> {
    match failed {
        None => Ok(delivery),
        Some(f) => Err(SessionFailureView::Acknowledgement(session_failure_text(f))),
    }
}

/// What a message that was delivered comes to, by what its acknowledgement came to:
/// it is handed on only where the broker knows that it was delivered.
pub fn settle_delivery(delivery: Json, acknowledged: Result<(), SessionFailure>) -> (r: Result<
    Json,
    SessionFailure,
>)
    ensures
        crate::protocol::json_request(r) == delivered(delivery@, session_failure(acknowledged)),
{
    match acknowledged {
        Ok(_) => Ok(delivery),
        Err(f) => Err(SessionFailure::Acknowledgement(f.text())),
    }
}

/// What is wrong with a reply that is to be sent.
pub open spec fn reply_failure(text: Seq<char>, metadata: JsonView, max_text: nat, max_metadata: nat) -> Option<
    SessionFailureView,
> {
    match text_failure(text, max_text) {
        Some(f) => Some(f),
        None => metadata_failure(metadata, max_metadata),
    }
}

/// Checks a reply to a message.
pub fn check_reply(text: &str, metadata: &Json, max_text: usize, max_metadata: usize) -> (r: Result<
    (),
    SessionFailure,
>)
    ensures
        session_failure(r) == reply_failure(text@, metadata@, max_text as nat, max_metadata as nat),
{
    validate_text(text, max_text)?;
    validate_metadata(metadata, max_metadata)
}

/// The body of a reply to a message.
pub fn reply_body(text: &str, metadata: &Json) -> (r: Json)
    ensures
        r@ == JsonView::Object(
            seq![
                ("file_refs"@, JsonView::Array(Seq::empty())),
                ("metadata"@, metadata@),
                ("text"@, JsonView::Text(text@)),
            ],
        ),
{
    let refs = Json::Array(Vec::new());
    assert(refs@->Array_0 =~= Seq::<JsonView>::empty());
    let mut fields: Vec<(String, Json)> = Vec::new();
    push_field(&mut fields, "file_refs", refs);
    push_field(&mut fields, "metadata", metadata.copy());
    push_field(&mut fields, "text", json_of_text(text));
    assert(field_views(fields@) =~= seq![
        ("file_refs"@, JsonView::Array(Seq::empty())),
        ("metadata"@, metadata@),
        ("text"@, JsonView::Text(text@)),
    ]);
    json_object(fields)
}

/// The result of an action on a task: the task, and the state that it is in now.
pub fn action_result(task_id: &str, state: &str) -> (r: Json)
    ensures
        r@ == JsonView::Object(
            seq![("state"@, JsonView::Text(state@)), ("task_id"@, JsonView::Text(task_id@))],
        ),
{
    let mut fields: Vec<(String, Json)> = Vec::new();
    push_field(&mut fields, "state", json_of_text(state));
    push_field(&mut fields, "task_id", json_of_text(task_id));
    assert(field_views(fields@) =~= seq![
        ("state"@, JsonView::Text(state@)),
        ("task_id"@, JsonView::Text(task_id@)),
    ]);
    json_object(fields)
}

/// After an error of the broker, a lost registration is made again and a broker that
/// is another one is looked for, whatever the status; credentials that are refused
/// lead to another broker too, unless the registration was lost. Nothing else leads
/// to a recovery.
pub proof fn law_only_lost_brokers_are_recovered_from(
    status: u16,
    parsed: Option<JsonView>,
    private: Option<PrivateErrorView>,
)
    ensures
        ({
            let r = refusal(status, parsed, private);
            let says = |code: Seq<char>|
                if private is Some {
                    private->0.code == code
                } else {
                    parsed is Some && error_field(parsed->0, "code"@) == Some(code)
                };
            &&& says("invalid_registration"@) ==> r is Recoverable && r->mode
                == RecoveryMode::RegistrationRefresh
            &&& says("stale_registration"@) ==> r is Recoverable && r->mode
                == RecoveryMode::BrokerReplacement
            &&& says("broker_instance_mismatch"@) ==> r is Recoverable && r->mode
                == RecoveryMode::BrokerReplacement
            &&& status == 401 && !says("invalid_registration"@) ==> r is Recoverable && r->mode
                == RecoveryMode::BrokerReplacement
            &&& r is Recoverable ==> status == 401 || says("invalid_registration"@) || says(
                "stale_registration"@,
            ) || says("broker_instance_mismatch"@)
        }),
{
    reveal_strlit("invalid_registration");
    reveal_strlit("stale_registration");
    reveal_strlit("broker_instance_mismatch");
    assert("invalid_registration"@[0] == 'i');
    assert("stale_registration"@[0] == 's');
    assert("broker_instance_mismatch"@[0] == 'b');
}

/// The broker's own words are handed on, as the reason of a recovery or as the
/// failure; only where it says nothing does its status stand for them.
pub proof fn law_the_words_of_the_broker_are_handed_on(
    status: u16,
    parsed: Option<JsonView>,
    private: Option<PrivateErrorView>,
)
    ensures
        ({
            let words = match refusal(status, parsed, private) {
                RequestErrorView::Recoverable { mode, reason } => reason,
                RequestErrorView::Final(f) => session_failure_text(f),
            };
            &&& private is Some ==> words == private->0.message
            &&& private is None && parsed is Some && error_field(parsed->0, "message"@) is Some
                ==> words == error_field(parsed->0, "message"@)->0
            &&& private is None && (parsed is None || error_field(parsed->0, "message"@) is None)
                ==> words == "broker returned HTTP "@ + http_status_text(status)
        }),
{
}

/// An error in the broker's own form that nothing is recovered for keeps its code,
/// its words and its candidates.
pub proof fn law_final_errors_keep_their_form(
    status: u16,
    parsed: Option<JsonView>,
    private: Option<PrivateErrorView>,
)
    requires
        refusal(status, parsed, private) is Final,
    ensures
        private is Some ==> refusal(status, parsed, private)->Final_0
            == SessionFailureView::Private(private->0),
        private is None ==> refusal(status, parsed, private)->Final_0 is Plain,
{
}

/// An error that is handed on in the broker's own form has a code of up to 64 bytes
/// and words, neither with control characters, and up to 1024 candidates, of which
/// no two are the same.
pub proof fn law_private_errors_are_bounded(e: PrivateErrorView, i: int, j: int)
    requires
        private_error_ok(e),
        0 <= i < j < e.candidates.len(),
    ensures
        0 < e.code.len(),
        utf8(e.code).len() <= 64,
        0 < e.message.len(),
        utf8(e.message).len() <= MAX_PRIVATE_RESPONSE_BYTES,
        e.candidates.len() <= 1024,
        bytes_less(utf8(e.candidates[i]), utf8(e.candidates[j])),
        e.candidates[i] != e.candidates[j],
    decreases j - i,
{
    let (a, m, b) = (utf8(e.candidates[i]), utf8(e.candidates[j - 1]), utf8(e.candidates[j]));
    assert(bytes_less(m, b)) by {
        assert(bytes_less(utf8(e.candidates[j - 1]), utf8(e.candidates[j - 1 + 1])));
    }
    if i < j - 1 {
        law_private_errors_are_bounded(e, i, j - 1);
        law_byte_strings_are_in_one_line(a, m, b);
    }
    law_byte_strings_are_in_one_line(a, a, a);
}

/// The broker is asked to wait for the time that is left and less than a millisecond
/// more, but for a second at least.
pub proof fn law_waits_are_no_longer_than_needed(left_ns: u128)
    requires
        wait_ms(left_ns) > 1_000,
    ensures
        (wait_ms(left_ns) - 1) * 1_000_000 < left_ns,
{
}

/// An agent that a session tells of is live, in a pane and a harness that are
/// named without control characters; any such agent can be told of.
pub proof fn law_told_agents_are_live(a: BrokerDirectoryAgent)
    ensures
        listed_ok(a) <==> (a.status@ == "live"@ && 0 < a.pane_id@.len() && utf8(a.pane_id@).len()
            <= 1024 && crate::wire::control_free(a.pane_id@) && 0 < a.harness@.len() && utf8(
            a.harness@,
        ).len() <= 1024 && crate::wire::control_free(a.harness@)),
{
}

/// Two agents that are told alike are the same to the broker in all that it tells,
/// and an agent is told with all of it.
pub proof fn law_agents_are_told_whole(
    a: BrokerDirectoryAgent,
    workspace: Seq<char>,
    b: WorkspaceDirectoryAgent,
)
    ensures
        told(a, workspace, b) <==> (b.workspace_id@ == workspace && (
            b.canonical_name@,
            b.role@,
            b.pane_id@,
            b.harness@,
            b.status@,
        ) == (a.canonical_name@, a.role@, a.pane_id@, a.harness@, a.status@)),
{
}

/// A team is complete only with live agents, each in one of the panes that were asked
/// for.
pub proof fn law_a_team_is_in_its_panes(
    agents: Seq<BrokerDirectoryAgent>,
    panes: Seq<Seq<char>>,
    i: int,
)
    requires
        all_team_ok(agents, panes),
        0 <= i < agents.len(),
    ensures
        agents[i].status@ == "live"@,
        exists|k: int| 0 <= k < panes.len() && #[trigger] panes[k] == agents[i].pane_id@,
{
    let k = panes.index_of(agents[i].pane_id@);
    assert(listed_ok(agents[i]) && panes.contains(agents[i].pane_id@));
    assert(panes[panes.index_of(agents[i].pane_id@)] == agents[i].pane_id@);
}

/// An action on a task is addressed by the name of the task and that of the action,
/// below the first version of the tasks.
pub proof fn law_actions_name_their_task(task: Seq<char>, action: Seq<char>)
    ensures
        action_segments(task, action).len() == 4,
        action_segments(task, action)[0] == "v1"@,
        action_segments(task, action)[1] == "tasks"@,
        action_segments(task, action)[2] == task,
        action_segments(task, action)[3] == action,
{
}

/// What a request fails with in the end says what its error said.
pub proof fn law_final_words_are_those_of_the_error(error: RequestErrorView)
    ensures
        error is Recoverable ==> handed_on(error) == SessionFailureView::Plain(error->reason),
        error is Final ==> handed_on(error) == error->Final_0,
{
}

/// A broker that could not be reached, asked or understood is looked for anew, whichever of
/// these it was; any other error of the transport is final. Its text is kept.
pub proof fn law_unreached_brokers_are_looked_for_anew(
    connect: bool,
    timeout: bool,
    request: bool,
    body: bool,
    decode: bool,
    text: Seq<char>,
)
    ensures
        ({
            let e = transport_problem(connect, timeout, request, body, decode, text);
            &&& e is Final <==> !connect && !timeout && !request && !body && !decode
            &&& e is Recoverable ==> e->mode == RecoveryMode::BrokerReplacement && e->reason == text
            &&& e is Final ==> e->Final_0 == SessionFailureView::Plain(text)
        }),
{
}

/// A delivery is handed out just when it was acknowledged, as it came; a failed
/// acknowledgement is told as one, with the words of its failure.
pub proof fn law_deliveries_are_handed_out_once_acknowledged(
    delivery: JsonView,
    failed: Option<SessionFailureView>,
)
    ensures
        delivered(delivery, failed) is Ok <==> failed is None,
        failed is None ==> delivered(delivery, failed)->Ok_0 == delivery,
        failed is Some ==> delivered(delivery, failed)->Err_0
            == SessionFailureView::Acknowledgement(session_failure_text(failed->0)),
{
}

/// A request has time left up to its deadline, and for ever without one.
pub proof fn law_requests_have_time_up_to_their_deadline(
    deadline: Option<u64>,
    now: u64,
    message: Seq<char>,
)
    ensures
        out_of_time(deadline, now, message) is None <==> (deadline is None || now < deadline->0),
        out_of_time(deadline, now, message) is Some ==> out_of_time(deadline, now, message)->0
            == SessionFailureView::Plain(message),
{
}

/// A reply is sent just when its text is within its bound and its metadata is an object
/// within its own.
pub proof fn law_replies_are_bounded(
    text: Seq<char>,
    metadata: JsonView,
    max_text: nat,
    max_metadata: nat,
)
    ensures
        reply_failure(text, metadata, max_text, max_metadata) is None <==> (utf8(text).len()
            <= max_text && metadata is Object && crate::json::json_encoded(metadata).len()
            <= max_metadata),
{
}

/// An error in the broker's own form is handed on just when it is a sound one; a directory
/// is told of just when each of its agents can be.
pub proof fn law_directories_are_told_of_whole(
    e: Option<PrivateBrokerError>,
    agents: Seq<BrokerDirectoryAgent>,
)
    ensures
        opt_private(e) is Some <==> e is Some && private_error_ok(e->0@),
        opt_private(e) is Some ==> opt_private(e)->0 == e->0@,
        all_listed_ok(agents) <==> forall|i: int|
            0 <= i < agents.len() ==> (#[trigger] agents[i]).status@ == "live"@
                && bounded_control_free(agents[i].pane_id@, 1024) && bounded_control_free(
                agents[i].harness@,
                1024,
            ),
{
    if all_listed_ok(agents) {
        assert forall|i: int| 0 <= i < agents.len() implies (#[trigger] agents[i]).status@
            == "live"@ && bounded_control_free(agents[i].pane_id@, 1024) && bounded_control_free(
            agents[i].harness@,
            1024,
        ) by {
            assert(listed_ok(agents[i]));
        }
    }
}

/// An address is the one that was made, and the reason why there is none is told.
pub proof fn law_addresses_are_taken_as_made(extended: Result<Seq<char>, Option<Seq<char>>>)
    ensures
        address(extended) is Ok <==> extended is Ok,
        extended is Ok ==> address(extended)->Ok_0 == extended->Ok_0,
        extended is Err && extended->Err_0 is Some ==> address(extended)->Err_0
            == SessionFailureView::Plain(extended->Err_0->0),
        extended is Err && extended->Err_0 is None ==> address(extended)->Err_0
            == SessionFailureView::Plain("base URL cannot be a base"@),
{
}

/// An error in the broker's own form is handed on whenever its code and its words are
/// within their bounds and without control characters, and its candidates, up to 1024, stand
/// in ascending order.
pub proof fn law_bounded_private_errors_are_handed_on(e: PrivateErrorView)
    requires
        bounded_control_free(e.code, 64),
        bounded_control_free(e.message, 1_048_576),
        e.candidates.len() <= 1024,
        forall|i: int, j: int|
            0 <= i < j < e.candidates.len() ==> bytes_less(
                utf8(#[trigger] e.candidates[i]),
                utf8(#[trigger] e.candidates[j]),
            ),
    ensures
        private_error_ok(e),
{
}

} // verus!
