//! The replies of agents: JSON-RPC, tasks, events and cards.

use vstd::prelude::*;
use vstd::string::*;
use vstd::utf8::*;
use crate::framing::MAX_PRIVATE_RESPONSE_BYTES;
use crate::json::{from_value, json_get_text, json_views, to_value, Json, JsonView};
use crate::lists::lemma_filter_has;
use crate::recovery::RecoveryMode;
use crate::status_tui::{lower_text, lowered};
use crate::text::{
    char_views, chars_text, split_chars, split_lines, split_text, strip_text_prefix, text_bytes,
    text_chars, text_eq, text_join, text_lines, text_starts, utf8, utf8_error, utf8_text,
};
use crate::version::{is_white, white};
use crate::wire::{http_status_text, status_text};

verus! {

/// The type of the detail that says that a registration was lost.
pub const REGISTRATION_AUTH_LOST_TYPE_URL: &'static str =
    "type.herdr.dev/herdr.a2a.RegistrationAuthLost";

/// The code of the error for a task that is not there.
pub const TASK_NOT_FOUND: i32 = -32001;

/// The state of a task.
#[derive(Clone, Copy, Debug, PartialEq, Eq, Structural)]
pub enum TaskPhase {
    Unspecified,
    Submitted,
    Working,
    Completed,
    Failed,
    Canceled,
    InputRequired,
    Rejected,
    AuthRequired,
}

/// A state that no further change follows.
pub open spec fn terminal(state: TaskPhase) -> bool {
    state == TaskPhase::Completed || state == TaskPhase::Failed || state == TaskPhase::Canceled
        || state == TaskPhase::Rejected
}

/// The name of a state.
pub open spec fn state_text(state: TaskPhase) -> Seq<char> {
    match state {
        TaskPhase::Unspecified => "unspecified"@,
        TaskPhase::Submitted => "submitted"@,
        TaskPhase::Working => "working"@,
        TaskPhase::Completed => "completed"@,
        TaskPhase::Failed => "failed"@,
        TaskPhase::Canceled => "canceled"@,
        TaskPhase::InputRequired => "input_required"@,
        TaskPhase::Rejected => "rejected"@,
        TaskPhase::AuthRequired => "auth_required"@,
    }
}

impl TaskPhase {
    /// Whether no further change follows.
    pub fn is_terminal(self) -> (r: bool)
        ensures
            r == terminal(self),
    {
        self == TaskPhase::Completed || self == TaskPhase::Failed || self == TaskPhase::Canceled
            || self == TaskPhase::Rejected
    }
}

/// The name of a state.
pub fn state_name(state: TaskPhase) -> (r: &'static str)
    ensures
        r@ == state_text(state),
{
    match state {
        TaskPhase::Unspecified => "unspecified",
        TaskPhase::Submitted => "submitted",
        TaskPhase::Working => "working",
        TaskPhase::Completed => "completed",
        TaskPhase::Failed => "failed",
        TaskPhase::Canceled => "canceled",
        TaskPhase::InputRequired => "input_required",
        TaskPhase::Rejected => "rejected",
        TaskPhase::AuthRequired => "auth_required",
    }
}

/// A task as far as a session looks at it: who it is, its state, and the text and
/// the metadata of the message of its status.
#[derive(Debug)]
pub struct TaskInfo {
    pub id: String,
    pub context_id: String,
    pub state: TaskPhase,
    pub text: Option<String>,
    pub metadata: Option<Json>,
}

/// A task as far as a session looks at it.
pub struct TaskView {
    pub id: Seq<char>,
    pub context_id: Seq<char>,
    pub state: TaskPhase,
    pub text: Option<Seq<char>>,
    pub metadata: Option<JsonView>,
}

impl View for TaskInfo {
    type V = TaskView;

    open spec fn view(&self) -> TaskView {
        TaskView {
            id: self.id@,
            context_id: self.context_id@,
            state: self.state,
            text: crate::record::opt_text(self.text),
            metadata: crate::pi::opt_json(self.metadata),
        }
    }
}

impl TaskInfo {
    /// The same task.
    pub fn copy(&self) -> (r: TaskInfo)
        ensures
            r@ == self@,
    {
        TaskInfo {
            id: self.id.clone(),
            context_id: self.context_id.clone(),
            state: self.state,
            text: crate::record::copy_opt_text(&self.text),
            metadata: match &self.metadata {
                Some(v) => Some(v.copy()),
                None => None,
            },
        }
    }
}

/// One event of a stream.
#[derive(Debug)]
pub enum StreamEvent {
    Task(TaskInfo),
    Message,
    StatusUpdate { task_id: String, state: TaskPhase },
    ArtifactUpdate,
}

/// One event of a stream.
pub enum StreamView {
    Task(TaskView),
    Message,
    StatusUpdate { task_id: Seq<char>, state: TaskPhase },
    ArtifactUpdate,
}

impl View for StreamEvent {
    type V = StreamView;

    open spec fn view(&self) -> StreamView {
        match self {
            StreamEvent::Task(task) => StreamView::Task(task@),
            StreamEvent::Message => StreamView::Message,
            StreamEvent::StatusUpdate { task_id, state } => StreamView::StatusUpdate {
                task_id: task_id@,
                state: *state,
            },
            StreamEvent::ArtifactUpdate => StreamView::ArtifactUpdate,
        }
    }
}

/// What comes back for a message.
#[derive(Debug)]
pub enum SendReply {
    Task(TaskInfo),
    Message,
}

/// What comes back for a message.
pub enum SendReplyView {
    Task(TaskView),
    Message,
}

impl View for SendReply {
    type V = SendReplyView;

    open spec fn view(&self) -> SendReplyView {
        match self {
            SendReply::Task(task) => SendReplyView::Task(task@),
            SendReply::Message => SendReplyView::Message,
        }
    }
}

/// An error that an agent answers with.
#[derive(Debug)]
pub struct A2AError {
    pub code: i32,
    pub message: String,
    pub details: Option<Vec<Json>>,
}

/// Why a call of an agent failed.
#[derive(Debug)]
pub enum OperationClientError {
    Connection(String),
    AgentUnavailable(String),
    RegistrationAuthLost(String),
    Application(A2AError),
    Protocol(String),
    Deadline(&'static str),
}

/// Why a call of an agent failed.
pub enum ClientErrorView {
    Connection(Seq<char>),
    AgentUnavailable(Seq<char>),
    RegistrationAuthLost(Seq<char>),
    Application { code: i32, message: Seq<char>, details: Option<Seq<JsonView>> },
    Protocol(Seq<char>),
    Deadline(Seq<char>),
}

impl View for OperationClientError {
    type V = ClientErrorView;

    open spec fn view(&self) -> ClientErrorView {
        match self {
            OperationClientError::Connection(m) => ClientErrorView::Connection(m@),
            OperationClientError::AgentUnavailable(m) => ClientErrorView::AgentUnavailable(m@),
            OperationClientError::RegistrationAuthLost(m) => ClientErrorView::RegistrationAuthLost(
                m@,
            ),
            OperationClientError::Application(e) => ClientErrorView::Application {
                code: e.code,
                message: e.message@,
                details: match e.details {
                    Some(d) => Some(json_views(d@)),
                    None => None,
                },
            },
            OperationClientError::Protocol(m) => ClientErrorView::Protocol(m@),
            OperationClientError::Deadline(m) => ClientErrorView::Deadline(m@),
        }
    }
}

/// The text of an error of a call.
pub open spec fn client_error_text(e: ClientErrorView) -> Seq<char> {
    match e {
        ClientErrorView::Connection(m) => m,
        ClientErrorView::AgentUnavailable(m) => m,
        ClientErrorView::RegistrationAuthLost(m) => m,
        ClientErrorView::Application { code, message, details } => message,
        ClientErrorView::Protocol(m) => m,
        ClientErrorView::Deadline(m) => m,
    }
}

impl OperationClientError {
    /// The text of the error.
    pub fn text(&self) -> (r: String)
        ensures
            r@ == client_error_text(self@),
    {
        match self {
            OperationClientError::Connection(m) => m.clone(),
            OperationClientError::AgentUnavailable(m) => m.clone(),
            OperationClientError::RegistrationAuthLost(m) => m.clone(),
            OperationClientError::Application(e) => e.message.clone(),
            OperationClientError::Protocol(m) => m.clone(),
            OperationClientError::Deadline(m) => (*m).to_owned(),
        }
    }
}

/// What is to be recovered after an error, if anything helps.
pub open spec fn recovery_mode_for(e: ClientErrorView) -> Option<RecoveryMode> {
    match e {
        ClientErrorView::RegistrationAuthLost(_) => Some(RecoveryMode::RegistrationRefresh),
        ClientErrorView::Connection(_) => Some(RecoveryMode::BrokerReplacement),
        ClientErrorView::Deadline(_) => Some(RecoveryMode::BrokerReplacement),
        _ => None,
    }
}

/// Tells what is to be recovered after an error.
pub fn a2a_error_recovery_mode(error: &OperationClientError) -> (r: Option<RecoveryMode>)
    ensures
        r == recovery_mode_for(error@),
{
    match error {
        OperationClientError::RegistrationAuthLost(_) => Some(RecoveryMode::RegistrationRefresh),
        OperationClientError::Connection(_) => Some(RecoveryMode::BrokerReplacement),
        OperationClientError::Deadline(_) => Some(RecoveryMode::BrokerReplacement),
        _ => None,
    }
}

/// Whether a recovery helps after an error.
pub fn a2a_error_is_recoverable(error: &OperationClientError) -> (r: bool)
    ensures
        r == (recovery_mode_for(error@) is Some),
{
    a2a_error_recovery_mode(error).is_some()
}

/// The agent has said that there is no such task.
pub open spec fn says_missing(e: ClientErrorView) -> bool {
    e is Application && e->code == TASK_NOT_FOUND
}

/// Whether the agent has said that there is no such task.
pub fn a2a_task_is_definitely_missing(error: &OperationClientError) -> (r: bool)
    ensures
        r == says_missing(error@),
{
    match error {
        OperationClientError::Application(e) => e.code == TASK_NOT_FOUND,
        _ => false,
    }
}

/// What an agent answers is never taken for a failure of the transport, whatever
/// it says: only the connection itself, the registration and the deadline lead to a
/// recovery.
pub proof fn law_answers_are_no_transport_failures(code: i32, message: Seq<char>, details: Option<
    Seq<JsonView>,
>)
    ensures
        recovery_mode_for(ClientErrorView::Application { code, message, details }) is None,
{
}

/// A reply of JSON-RPC, as far as it matters.
#[derive(Debug)]
pub struct RpcReply {
    pub result: Option<Json>,
    pub error: Option<RpcError>,
}

/// An error of JSON-RPC.
#[derive(Debug)]
pub struct RpcError {
    pub code: i32,
    pub message: String,
    pub data: Option<Json>,
}

/// A reply of JSON-RPC, as far as it matters.
pub struct RpcView {
    pub result: Option<JsonView>,
    pub error: Option<RpcErrorView>,
}

/// An error of JSON-RPC.
pub struct RpcErrorView {
    pub code: i32,
    pub message: Seq<char>,
    pub data: Option<JsonView>,
}

impl View for RpcError {
    type V = RpcErrorView;

    open spec fn view(&self) -> RpcErrorView {
        RpcErrorView {
            code: self.code,
            message: self.message@,
            data: crate::pi::opt_json(self.data),
        }
    }
}

impl View for RpcReply {
    type V = RpcView;

    open spec fn view(&self) -> RpcView {
        RpcView {
            result: crate::pi::opt_json(self.result),
            error: match self.error {
                Some(e) => Some(e@),
                None => None,
            },
        }
    }
}

/// What some bytes say as a reply of JSON-RPC, or the text of the parser's error.
pub uninterp spec fn rpc_parsed(bytes: Seq<u8>) -> Result<RpcView, Seq<char>>;

/// The task that a JSON value is, or the text of the decoder's error.
pub uninterp spec fn task_decoded(v: JsonView) -> Result<TaskView, Seq<char>>;

/// The event that a JSON value is, or the text of the decoder's error.
pub uninterp spec fn event_decoded(v: JsonView) -> Result<StreamView, Seq<char>>;

/// What a JSON value is as an answer to a message, or the text of the decoder's
/// error.
pub uninterp spec fn sent_decoded(v: JsonView) -> Result<SendReplyView, Seq<char>>;

/// The interfaces of the card that some bytes are, or the text of the parser's
/// error.
pub uninterp spec fn card_parsed(bytes: Seq<u8>) -> Result<Seq<InterfaceView>, Seq<char>>;

/// `a2a::Task`, carried only between the decoder and the conversion.
#[verifier::external_type_specification]
#[verifier::external_body]
pub struct ExTask(a2a::Task);

/// `a2a::TaskState`, carried only between the decoder and the conversion.
#[verifier::external_type_specification]
#[verifier::external_body]
pub struct ExTaskState(a2a::TaskState);

/// An `a2a::TaskState` as a state of this crate, one for one.
#[verifier::external_body]
fn plain_state(state: a2a::TaskState) -> TaskPhase {
    match state {
        a2a::TaskState::Unspecified => TaskPhase::Unspecified,
        a2a::TaskState::Submitted => TaskPhase::Submitted,
        a2a::TaskState::Working => TaskPhase::Working,
        a2a::TaskState::Completed => TaskPhase::Completed,
        a2a::TaskState::Failed => TaskPhase::Failed,
        a2a::TaskState::Canceled => TaskPhase::Canceled,
        a2a::TaskState::InputRequired => TaskPhase::InputRequired,
        a2a::TaskState::Rejected => TaskPhase::Rejected,
        a2a::TaskState::AuthRequired => TaskPhase::AuthRequired,
    }
}

/// An `a2a::Task` as a task of this crate, with `a2a::Message::text` for the text
/// of the message of its status.
#[verifier::external_body]
fn plain_task(task: a2a::Task) -> TaskInfo {
    let message = task.status.message;
    TaskInfo {
        id: task.id,
        context_id: task.context_id,
        state: plain_state(task.status.state),
        text: message.as_ref().and_then(a2a::Message::text).map(str::to_owned),
        metadata: message.and_then(|m| m.metadata).map(
            |m| from_value(serde_json::Value::Object(m.into_iter().collect())),
        ),
    }
}

/// `serde_json::from_slice` into an `a2a::JsonRpcResponse`: what it gives depends
/// on the bytes alone, and so does the text of its error.
#[verifier::external_body]
fn parse_rpc(bytes: &[u8]) -> (r: Result<RpcReply, String>)
    ensures
        match r {
            Ok(v) => rpc_parsed(bytes@) == Ok::<RpcView, Seq<char>>(v@),
            Err(e) => rpc_parsed(bytes@) == Err::<RpcView, Seq<char>>(e@),
        },
{
    match serde_json::from_slice::<a2a::JsonRpcResponse>(bytes) {
        Ok(reply) => Ok(RpcReply {
            result: reply.result.map(from_value),
            error: reply.error.map(
                |e| RpcError { code: e.code, message: e.message, data: e.data.map(from_value) },
            ),
        }),
        Err(e) => Err(e.to_string()),
    }
}

/// `serde_json::from_value` into an `a2a::Task`: what it gives depends on the value
/// alone, and so does the text of its error.
#[verifier::external_body]
fn decode_task(v: &Json) -> (r: Result<TaskInfo, String>)
    ensures
        match r {
            Ok(t) => task_decoded(v@) == Ok::<TaskView, Seq<char>>(t@),
            Err(e) => task_decoded(v@) == Err::<TaskView, Seq<char>>(e@),
        },
{
    match serde_json::from_value::<a2a::Task>(to_value(v)) {
        Ok(task) => Ok(plain_task(task)),
        Err(e) => Err(e.to_string()),
    }
}

/// `serde_json::from_value` into an `a2a::StreamResponse`: what it gives depends on
/// the value alone, and so does the text of its error.
#[verifier::external_body]
fn decode_event(v: &Json) -> (r: Result<StreamEvent, String>)
    ensures
        match r {
            Ok(t) => event_decoded(v@) == Ok::<StreamView, Seq<char>>(t@),
            Err(e) => event_decoded(v@) == Err::<StreamView, Seq<char>>(e@),
        },
{
    match serde_json::from_value::<a2a::StreamResponse>(to_value(v)) {
        Ok(a2a::StreamResponse::Task(task)) => Ok(StreamEvent::Task(plain_task(task))),
        Ok(a2a::StreamResponse::Message(_)) => Ok(StreamEvent::Message),
        Ok(a2a::StreamResponse::StatusUpdate(u)) => Ok(
            StreamEvent::StatusUpdate { task_id: u.task_id, state: plain_state(u.status.state) },
        ),
        Ok(a2a::StreamResponse::ArtifactUpdate(_)) => Ok(StreamEvent::ArtifactUpdate),
        Err(e) => Err(e.to_string()),
    }
}

/// `serde_json::from_value` into an `a2a::SendMessageResponse`: what it gives
/// depends on the value alone, and so does the text of its error.
#[verifier::external_body]
fn decode_sent(v: &Json) -> (r: Result<SendReply, String>)
    ensures
        match r {
            Ok(t) => sent_decoded(v@) == Ok::<SendReplyView, Seq<char>>(t@),
            Err(e) => sent_decoded(v@) == Err::<SendReplyView, Seq<char>>(e@),
        },
{
    match serde_json::from_value::<a2a::SendMessageResponse>(to_value(v)) {
        Ok(a2a::SendMessageResponse::Task(task)) => Ok(SendReply::Task(plain_task(task))),
        Ok(a2a::SendMessageResponse::Message(_)) => Ok(SendReply::Message),
        Err(e) => Err(e.to_string()),
    }
}

/// One way of reaching an agent.
#[derive(Debug)]
pub struct Interface {
    pub binding: String,
    pub tenant: Option<String>,
    pub endpoint: String,
}

/// One way of reaching an agent.
pub struct InterfaceView {
    pub binding: Seq<char>,
    pub tenant: Option<Seq<char>>,
    pub endpoint: Seq<char>,
}

impl View for Interface {
    type V = InterfaceView;

    open spec fn view(&self) -> InterfaceView {
        InterfaceView {
            binding: self.binding@,
            tenant: crate::record::opt_text(self.tenant),
            endpoint: self.endpoint@,
        }
    }
}

/// Some ways of reaching an agent.
pub open spec fn interface_views(s: Seq<Interface>) -> Seq<InterfaceView> {
    s.map_values(|i: Interface| i@)
}

/// `serde_json::from_slice` into an `a2a::AgentCard`, of which the interfaces are
/// taken in order, each with its `wire_url`: what it gives depends on the bytes
/// alone, and so does the text of its error.
#[verifier::external_body]
fn parse_card(bytes: &[u8]) -> (r: Result<Vec<Interface>, String>)
    ensures
        match r {
            Ok(v) => card_parsed(bytes@) == Ok::<Seq<InterfaceView>, Seq<char>>(
                interface_views(v@),
            ),
            Err(e) => card_parsed(bytes@) == Err::<Seq<InterfaceView>, Seq<char>>(e@),
        },
{
    match serde_json::from_slice::<a2a::AgentCard>(bytes) {
        Ok(card) => Ok(card.supported_interfaces.into_iter().map(
            |i| Interface {
                endpoint: i.wire_url(),
                binding: i.protocol_binding,
                tenant: i.tenant,
            },
        ).collect()),
        Err(e) => Err(e.to_string()),
    }
}

/// The type of a detail: details are objects, and one without a type is a plain
/// structure.
pub open spec fn detail_type(v: JsonView) -> Option<Seq<char>> {
    match v {
        JsonView::Object(_) => match json_get_text(v, "@type"@) {
            Some(t) => Some(t),
            None => Some("type.googleapis.com/google.protobuf.Struct"@),
        },
        _ => None,
    }
}

/// The details among some values.
pub open spec fn is_detail() -> spec_fn(JsonView) -> bool {
    |v: JsonView| detail_type(v) is Some
}

/// The details of an error.
pub open spec fn details_of(data: Option<JsonView>) -> Seq<JsonView> {
    match data {
        Some(JsonView::Array(items)) => items.filter(is_detail()),
        _ => Seq::empty(),
    }
}

/// Some detail has a type.
pub open spec fn some_detail_is(details: Seq<JsonView>, wanted: Seq<char>) -> bool {
    exists|i: int| 0 <= i < details.len() && detail_type(#[trigger] details[i]) == Some(wanted)
}

/// What an error of JSON-RPC means.
pub open spec fn application_error(e: RpcErrorView) -> ClientErrorView {
    let details = details_of(e.data);
    if some_detail_is(details, "type.herdr.dev/herdr.a2a.RegistrationAuthLost"@) {
        ClientErrorView::RegistrationAuthLost(e.message)
    } else {
        ClientErrorView::Application {
            code: e.code,
            message: e.message,
            details: if details.len() == 0 {
                None
            } else {
                Some(details)
            },
        }
    }
}

fn is_json_detail(v: &Json) -> (r: bool)
    ensures
        r == is_detail()(v@),
{
    match v {
        Json::Object(_) => true,
        _ => false,
    }
}

fn is_auth_lost(v: &Json) -> (r: bool)
    ensures
        r == (detail_type(v@) == Some("type.herdr.dev/herdr.a2a.RegistrationAuthLost"@)),
{
    match v {
        Json::Object(_) => match v.get_text("@type") {
            Some(t) => text_eq(t.as_str(), "type.herdr.dev/herdr.a2a.RegistrationAuthLost"),
            None => {
                proof {
                    reveal_strlit("type.herdr.dev/herdr.a2a.RegistrationAuthLost");
                    reveal_strlit("type.googleapis.com/google.protobuf.Struct");
                    assert("type.herdr.dev/herdr.a2a.RegistrationAuthLost"@.len() == 45);
                    assert("type.googleapis.com/google.protobuf.Struct"@.len() == 42);
                }
                false
            },
        },
        _ => false,
    }
}

fn take_details(data: &Option<Json>) -> (r: Vec<Json>)
    ensures
        json_views(r@) == details_of(crate::pi::opt_json(*data)),
{
    let mut out: Vec<Json> = Vec::new();
    assert(json_views(out@) =~= Seq::<JsonView>::empty());
    let items = match data {
        Some(Json::Array(items)) => items,
        _ => {
            return out;
        },
    };
    let ghost v = json_views(items@);
    proof {
        reveal_with_fuel(Json::view, 2);
        assert(data->0@->Array_0 =~= v);
        reveal(Seq::filter);
        assert(v.take(0).filter(is_detail()) =~= Seq::<JsonView>::empty());
    }
    let mut i: usize = 0;
    while i < items.len()
        invariant
            i <= items.len(),
            v == json_views(items@),
            json_views(out@) == v.take(i as int).filter(is_detail()),
        decreases items.len() - i,
    {
        proof {
            assert(v[i as int] == items@[i as int]@);
            crate::pi::lemma_filter_next(v, is_detail(), i as int);
        }
        let ghost before = json_views(out@);
        if is_json_detail(&items[i]) {
            out.push(items[i].copy());
            assert(json_views(out@) =~= before.push(v[i as int]));
        }
        i += 1;
    }
    assert(v.take(i as int) =~= v);
    out
}

/// Tells what an error of JSON-RPC means.
pub fn jsonrpc_application_error(error: RpcError) -> (r: OperationClientError)
    ensures
        r@ == application_error(error@),
{
    let details = take_details(&error.data);
    let ghost v = json_views(details@);
    let mut i: usize = 0;
    while i < details.len()
        invariant
            i <= details.len(),
            v == json_views(details@),
            v == details_of(error@.data),
            forall|k: int|
                0 <= k < i ==> detail_type(#[trigger] v[k]) != Some(
                    "type.herdr.dev/herdr.a2a.RegistrationAuthLost"@,
                ),
        decreases details.len() - i,
    {
        assert(v[i as int] == details@[i as int]@);
        if is_auth_lost(&details[i]) {
            assert(some_detail_is(v, "type.herdr.dev/herdr.a2a.RegistrationAuthLost"@));
            return OperationClientError::RegistrationAuthLost(error.message);
        }
        i += 1;
    }
    assert(v.len() == details@.len());
    let kept = if details.len() == 0 {
        None
    } else {
        Some(details)
    };
    OperationClientError::Application(
        A2AError { code: error.code, message: error.message, details: kept },
    )
}

/// The result of a reply of JSON-RPC, or what it fails with.
pub open spec fn rpc_result(reply: RpcView) -> Result<JsonView, ClientErrorView> {
    match reply.error {
        Some(e) => Err(application_error(e)),
        None => match reply.result {
            Some(v) => Ok(v),
            None => Err(ClientErrorView::Protocol("A2A JSON-RPC response has no result"@)),
        },
    }
}

/// A JSON value, or what a call failed with.
pub open spec fn json_call(r: Result<Json, OperationClientError>) -> Result<
    JsonView,
    ClientErrorView,
> {
    match r {
        Ok(v) => Ok(v@),
        Err(e) => Err(e@),
    }
}

/// A value of a call, or what it failed with.
pub open spec fn call<T: View>(r: Result<T, OperationClientError>) -> Result<T::V, ClientErrorView> {
    match r {
        Ok(v) => Ok(v@),
        Err(e) => Err(e@),
    }
}

/// Takes the result of a reply of JSON-RPC.
pub fn decode_jsonrpc_response(reply: RpcReply) -> (r: Result<Json, OperationClientError>)
    ensures
        json_call(r) == rpc_result(reply@),
{
    match reply.error {
        Some(e) => Err(jsonrpc_application_error(e)),
        None => match reply.result {
            Some(v) => Ok(v),
            None => Err(
                OperationClientError::Protocol("A2A JSON-RPC response has no result".to_owned()),
            ),
        },
    }
}

/// A decoded value, or that the result of a call is no such value.
pub open spec fn decoded_result<V>(
    result: Result<JsonView, ClientErrorView>,
    decoded: Result<V, Seq<char>>,
) -> Result<V, ClientErrorView> {
    match result {
        Err(e) => Err(e),
        Ok(_) => match decoded {
            Ok(v) => Ok(v),
            Err(e) => Err(ClientErrorView::Protocol("A2A result is invalid: "@ + e)),
        },
    }
}

/// The result of the reply of JSON-RPC that some bytes are.
pub open spec fn reply_result(
    parsed: Result<RpcView, Seq<char>>,
    context: Seq<char>,
) -> Result<JsonView, ClientErrorView> {
    match parsed {
        Err(e) => Err(ClientErrorView::Connection(context + e)),
        Ok(reply) => rpc_result(reply),
    }
}

fn read_result(bytes: &[u8], context: &str) -> (r: Result<Json, OperationClientError>)
    ensures
        json_call(r) == reply_result(rpc_parsed(bytes@), context@),
{
    match parse_rpc(bytes) {
        Err(e) => Err(OperationClientError::Connection(text_join(context, e.as_str()))),
        Ok(reply) => decode_jsonrpc_response(reply),
    }
}

fn invalid_result(error: String) -> (r: OperationClientError)
    ensures
        r@ == ClientErrorView::Protocol("A2A result is invalid: "@ + error@),
{
    OperationClientError::Protocol(text_join("A2A result is invalid: ", error.as_str()))
}

/// Reads the reply to a question for a task.
pub fn read_task_reply(bytes: &[u8]) -> (r: Result<TaskInfo, OperationClientError>)
    ensures
        ({
            let result = reply_result(rpc_parsed(bytes@), "A2A response body failed: "@);
            call(r) == decoded_result(result, task_decoded(result->Ok_0))
        }),
{
    let result = read_result(bytes, "A2A response body failed: ")?;
    match decode_task(&result) {
        Ok(task) => Ok(task),
        Err(e) => Err(invalid_result(e)),
    }
}

/// Reads the reply to a message that is not waited for.
pub fn read_send_reply(bytes: &[u8]) -> (r: Result<SendReply, OperationClientError>)
    ensures
        ({
            let result = reply_result(rpc_parsed(bytes@), "A2A response body failed: "@);
            call(r) == decoded_result(result, sent_decoded(result->Ok_0))
        }),
{
    let result = read_result(bytes, "A2A response body failed: ")?;
    match decode_sent(&result) {
        Ok(reply) => Ok(reply),
        Err(e) => Err(invalid_result(e)),
    }
}

/// Reads a reply that stands for a stream of one event.
pub fn read_single_event(bytes: &[u8]) -> (r: Result<StreamEvent, OperationClientError>)
    ensures
        ({
            let result = reply_result(
                rpc_parsed(bytes@),
                "A2A JSON-RPC response body failed: "@,
            );
            call(r) == decoded_result(result, event_decoded(result->Ok_0))
        }),
{
    let result = read_result(bytes, "A2A JSON-RPC response body failed: ")?;
    match decode_event(&result) {
        Ok(event) => Ok(event),
        Err(e) => Err(invalid_result(e)),
    }
}

/// The data that a line of an event gives.
pub open spec fn data_of(line: Seq<char>) -> Option<Seq<char>> {
    if text_starts(line, "data: "@) {
        Some(line.skip("data: "@.len() as int))
    } else if text_starts(line, "data:"@) {
        Some(line.skip("data:"@.len() as int))
    } else {
        None
    }
}

/// The data of an event: that of its lines, each on a line of its own.
pub open spec fn event_data(lines: Seq<Seq<char>>) -> Seq<char>
    decreases lines.len(),
{
    if lines.len() == 0 {
        Seq::empty()
    } else {
        let before = event_data(lines.drop_last());
        match data_of(lines.last()) {
            None => before,
            Some(data) => if before.len() > 0 {
                before.push('\n') + data
            } else {
                data
            },
        }
    }
}

fn line_data(line: &str) -> (r: Option<String>)
    ensures
        crate::record::opt_text(r) == data_of(line@),
{
    match strip_text_prefix(line, "data: ") {
        Some(data) => Some(data),
        None => strip_text_prefix(line, "data:"),
    }
}

/// Takes the data out of the text of an event.
pub fn read_event_data(event: &str) -> (r: String)
    ensures
        r@ == event_data(text_lines(event@)),
{
    let chars = text_chars(event);
    let lines = split_lines(chars.as_slice());
    let ghost v = char_views(lines@);
    let mut data = String::new();
    let mut i: usize = 0;
    assert(v.take(0).len() == 0);
    while i < lines.len()
        invariant
            i <= lines.len(),
            v == char_views(lines@),
            data@ == event_data(v.take(i as int)),
        decreases lines.len() - i,
    {
        proof {
            assert(v[i as int] == lines@[i as int]@);
            assert(v.take(i + 1).drop_last() =~= v.take(i as int));
            assert(v.take(i + 1).last() == v[i as int]);
        }
        let line = chars_text(lines[i].as_slice());
        match line_data(line.as_str()) {
            Some(value) => {
                let ghost before = data@;
                if !data.as_str().is_empty() {
                    data.push('\n');
                    data.append(value.as_str());
                } else {
                    data.append(value.as_str());
                    assert(data@ =~= value@);
                }
            },
            None => {},
        }
        i += 1;
    }
    assert(v.take(i as int) =~= v);
    data
}

/// What an event of a stream comes to: nothing where it holds no data.
pub open spec fn sse_event(bytes: Seq<u8>) -> Option<Result<StreamView, ClientErrorView>> {
    if !valid_utf8(bytes) {
        Some(Err(ClientErrorView::Connection("A2A stream body is not UTF-8: "@ + utf8_error(bytes))))
    } else {
        let data = event_data(text_lines(decode_utf8(bytes)));
        if data.len() == 0 {
            None
        } else {
            let result = reply_result(rpc_parsed(utf8(data)), "A2A stream body failed: "@);
            Some(decoded_result(result, event_decoded(result->Ok_0)))
        }
    }
}

/// What an event of a stream comes to.
pub open spec fn opt_event(r: Option<Result<StreamEvent, OperationClientError>>) -> Option<
    Result<StreamView, ClientErrorView>,
> {
    match r {
        None => None,
        Some(event) => Some(call(event)),
    }
}

/// Reads an event of a stream.
pub fn operation_sse_event(event_bytes: &[u8]) -> (r: Option<
    Result<StreamEvent, OperationClientError>,
>)
    ensures
        opt_event(r) == sse_event(event_bytes@),
{
    let event = match utf8_text(event_bytes) {
        Ok(event) => event,
        Err(e) => {
            return Some(
                Err(
                    OperationClientError::Connection(
                        text_join("A2A stream body is not UTF-8: ", e.as_str()),
                    ),
                ),
            );
        },
    };
    proof {
        encode_utf8_decode_utf8(event@);
    }
    let data = read_event_data(event);
    if data.as_str().is_empty() {
        return None;
    }
    let bytes = text_bytes(data.as_str());
    match read_result(bytes.as_slice(), "A2A stream body failed: ") {
        Err(e) => Some(Err(e)),
        Ok(result) => match decode_event(&result) {
            Ok(event) => Some(Ok(event)),
            Err(e) => Some(Err(invalid_result(e))),
        },
    }
}

/// The error of an event that is too long.
pub fn oversized_event() -> (r: OperationClientError)
    ensures
        r@ == ClientErrorView::Protocol("A2A stream event exceeds 1048576 bytes"@),
{
    OperationClientError::Protocol("A2A stream event exceeds 1048576 bytes".to_owned())
}

/// The error of a reply that is too long.
pub fn oversized_body() -> (r: OperationClientError)
    ensures
        r@ == ClientErrorView::Protocol("A2A response body exceeds 1048576 bytes"@),
{
    OperationClientError::Protocol("A2A response body exceeds 1048576 bytes".to_owned())
}

/// What a call failed with, if it did.
pub open spec fn call_failure<T>(r: Result<T, OperationClientError>) -> Option<ClientErrorView> {
    match r {
        Ok(_) => None,
        Err(e) => Some(e@),
    }
}

/// What is wrong with the length that a reply announces.
pub open spec fn announced_failure(length: Option<u64>) -> Option<ClientErrorView> {
    if length is Some && length->0 > MAX_PRIVATE_RESPONSE_BYTES {
        Some(ClientErrorView::Protocol("A2A response body exceeds 1048576 bytes"@))
    } else {
        None
    }
}

/// Checks the length that a reply announces.
pub fn check_announced_length(length: Option<u64>) -> (r: Result<(), OperationClientError>)
    ensures
        call_failure(r) == announced_failure(length),
{
    match length {
        Some(n) => {
            if n > MAX_PRIVATE_RESPONSE_BYTES as u64 {
                return Err(oversized_body());
            }
            Ok(())
        },
        None => Ok(()),
    }
}

/// Takes a piece of a reply.
pub fn take_body_chunk(body: &mut Vec<u8>, chunk: &[u8]) -> (r: Result<(), OperationClientError>)
    requires
        old(body)@.len() <= MAX_PRIVATE_RESPONSE_BYTES,
    ensures
        call_failure(r) == if old(body)@.len() + chunk@.len() > MAX_PRIVATE_RESPONSE_BYTES {
            Some(ClientErrorView::Protocol("A2A response body exceeds 1048576 bytes"@))
        } else {
            None
        },
        final(body)@ == if r is Ok {
            old(body)@ + chunk@
        } else {
            old(body)@
        },
{
    if !crate::wire::add_chunk(body, chunk, MAX_PRIVATE_RESPONSE_BYTES) {
        return Err(oversized_body());
    }
    Ok(())
}

/// What is wrong with the HTTP status of a reply.
pub open spec fn status_failure(status: u16) -> Option<ClientErrorView> {
    if status == 401 || status == 403 {
        Some(
            ClientErrorView::Connection(
                "A2A connection credentials were rejected with HTTP "@ + http_status_text(status),
            ),
        )
    } else if !(200 <= status < 300) {
        Some(ClientErrorView::Protocol("A2A endpoint returned HTTP "@ + http_status_text(status)))
    } else {
        None
    }
}

/// Checks the HTTP status of a reply: rejected credentials mean that the
/// connection is lost.
pub fn validate_a2a_http_status(status: u16) -> (r: Result<(), OperationClientError>)
    requires
        100 <= status < 1000,
    ensures
        call_failure(r) == status_failure(status),
{
    if status == 401 || status == 403 {
        return Err(
            OperationClientError::Connection(
                text_join(
                    "A2A connection credentials were rejected with HTTP ",
                    status_text(status).as_str(),
                ),
            ),
        );
    }
    if !(200 <= status && status < 300) {
        return Err(
            OperationClientError::Protocol(
                text_join("A2A endpoint returned HTTP ", status_text(status).as_str()),
            ),
        );
    }
    Ok(())
}

/// What is wrong with the HTTP status of the reply to a question for a card.
pub open spec fn card_status_failure(agent: Seq<char>, status: u16) -> Option<ClientErrorView> {
    if status == 404 {
        Some(
            ClientErrorView::AgentUnavailable(
                "agent card for "@ + agent + " is temporarily unavailable with HTTP "@
                    + http_status_text(status),
            ),
        )
    } else {
        status_failure(status)
    }
}

/// Checks the HTTP status of the reply to a question for a card: an agent that is
/// not there may come back.
pub fn check_card_status(agent: &str, status: u16) -> (r: Result<(), OperationClientError>)
    requires
        100 <= status < 1000,
    ensures
        call_failure(r) == card_status_failure(agent@, status),
{
    if status == 404 {
        let mut message = text_join("agent card for ", agent);
        message.append(" is temporarily unavailable with HTTP ");
        message.append(status_text(status).as_str());
        return Err(OperationClientError::AgentUnavailable(message));
    }
    validate_a2a_http_status(status)
}

/// The first interface of a card that speaks JSON-RPC.
pub open spec fn jsonrpc_interface(interfaces: Seq<InterfaceView>) -> Option<InterfaceView>
    decreases interfaces.len(),
{
    if interfaces.len() == 0 {
        None
    } else if interfaces[0].binding == "JSONRPC"@ {
        Some(interfaces[0])
    } else {
        jsonrpc_interface(interfaces.skip(1))
    }
}

/// Where an operation is sent to, by the card of its agent.
pub open spec fn endpoint_for(interfaces: Seq<InterfaceView>, tenant: Seq<char>) -> Result<
    Seq<char>,
    ClientErrorView,
> {
    match jsonrpc_interface(interfaces) {
        None => Err(ClientErrorView::Protocol("agent card has no JSON-RPC interface"@)),
        Some(interface) => match interface.tenant {
            None => Err(ClientErrorView::Protocol("agent card has no tenant"@)),
            Some(t) => if t != tenant {
                Err(ClientErrorView::Protocol("agent card tenant changed during operation"@))
            } else {
                Ok(interface.endpoint)
            },
        },
    }
}

/// A text, or what a call failed with.
pub open spec fn text_call(r: Result<String, OperationClientError>) -> Result<
    Seq<char>,
    ClientErrorView,
> {
    match r {
        Ok(v) => Ok(v@),
        Err(e) => Err(e@),
    }
}

/// Chooses where an operation is sent to, by the interfaces of its agent.
pub fn choose_endpoint(interfaces: &Vec<Interface>, tenant: &str) -> (r: Result<
    String,
    OperationClientError,
>)
    ensures
        text_call(r) == endpoint_for(interface_views(interfaces@), tenant@),
{
    let ghost v = interface_views(interfaces@);
    let mut i: usize = 0;
    assert(v.skip(0) =~= v);
    while i < interfaces.len()
        invariant
            i <= interfaces.len(),
            v == interface_views(interfaces@),
            jsonrpc_interface(v) == jsonrpc_interface(v.skip(i as int)),
        decreases interfaces.len() - i,
    {
        proof {
            assert(v.skip(i as int)[0] == interfaces@[i as int]@);
            assert(v.skip(i as int).skip(1) =~= v.skip(i + 1));
        }
        let interface = &interfaces[i];
        if text_eq(interface.binding.as_str(), "JSONRPC") {
            return match &interface.tenant {
                None => Err(OperationClientError::Protocol("agent card has no tenant".to_owned())),
                Some(found) => {
                    if !text_eq(found.as_str(), tenant) {
                        Err(
                            OperationClientError::Protocol(
                                "agent card tenant changed during operation".to_owned(),
                            ),
                        )
                    } else {
                        Ok(interface.endpoint.clone())
                    }
                },
            };
        }
        i += 1;
    }
    assert(v.skip(i as int).len() == 0);
    Err(OperationClientError::Protocol("agent card has no JSON-RPC interface".to_owned()))
}

/// Where an operation is sent to, by what some bytes say as a card.
pub open spec fn card_endpoint(
    parsed: Result<Seq<InterfaceView>, Seq<char>>,
    tenant: Seq<char>,
) -> Result<Seq<char>, ClientErrorView> {
    match parsed {
        Err(e) => Err(ClientErrorView::Connection("Agent Card response body failed: "@ + e)),
        Ok(interfaces) => endpoint_for(interfaces, tenant),
    }
}

/// Reads the card of an agent, and chooses where an operation is sent to. A card
/// is only good for the tenant that the operation was begun with.
pub fn read_card(bytes: &[u8], tenant: &str) -> (r: Result<String, OperationClientError>)
    ensures
        text_call(r) == card_endpoint(card_parsed(bytes@), tenant@),
{
    match parse_card(bytes) {
        Err(e) => Err(
            OperationClientError::Connection(
                text_join("Agent Card response body failed: ", e.as_str()),
            ),
        ),
        Ok(interfaces) => choose_endpoint(&interfaces, tenant),
    }
}

/// The error of a card that did not come in time.
pub fn card_deadline() -> (r: OperationClientError)
    ensures
        r@ == ClientErrorView::Deadline(
            "operation deadline expired during Agent Card resolution"@,
        ),
{
    OperationClientError::Deadline("operation deadline expired during Agent Card resolution")
}

/// How the events of a reply come.
#[derive(Clone, Copy, Debug, PartialEq, Eq, Structural)]
pub enum OperationResponseKind {
    EventStream,
    Json,
}

/// A text without white space at its start.
pub open spec fn trim_start(s: Seq<char>) -> Seq<char>
    decreases s.len(),
{
    if s.len() > 0 && is_white(s[0]) {
        trim_start(s.skip(1))
    } else {
        s
    }
}

/// A text without white space at its end.
pub open spec fn trim_end(s: Seq<char>) -> Seq<char>
    decreases s.len(),
{
    if s.len() > 0 && is_white(s.last()) {
        trim_end(s.drop_last())
    } else {
        s
    }
}

/// The media type of a content type, in small letters.
pub open spec fn media_type(content_type: Seq<char>) -> Seq<char> {
    lowered(trim_end(trim_start(split_text(content_type, ';')[0])))
}

/// A text ends with another.
pub open spec fn ends_with(s: Seq<char>, end: Seq<char>) -> bool {
    end.len() <= s.len() && s.skip(s.len() - end.len()) == end
}

/// A media type of JSON.
pub open spec fn json_media(media: Seq<char>) -> bool {
    media == "application/json"@ || (text_starts(media, "application/"@) && ends_with(
        media.skip("application/"@.len() as int),
        "+json"@,
    ))
}

/// The content type of a reply: there is none, or it is no text, or a text.
#[derive(Debug)]
pub enum ContentType {
    Absent,
    Invalid(String),
    Text(String),
}

/// How the events of a reply come, by its content type.
pub open spec fn response_kind(content_type: ContentType) -> Result<
    OperationResponseKind,
    ClientErrorView,
> {
    match content_type {
        ContentType::Absent => Err(
            ClientErrorView::Protocol("A2A streaming response has no Content-Type"@),
        ),
        ContentType::Invalid(e) => Err(
            ClientErrorView::Protocol(
                "A2A streaming response Content-Type is invalid: "@ + e@,
            ),
        ),
        ContentType::Text(t) => if media_type(t@) == "text/event-stream"@ {
            Ok(OperationResponseKind::EventStream)
        } else if json_media(media_type(t@)) {
            Ok(OperationResponseKind::Json)
        } else {
            Err(
                ClientErrorView::Protocol(
                    "A2A streaming response has unsupported Content-Type "@ + t@,
                ),
            )
        },
    }
}

fn trim_chars(s: Vec<char>) -> (r: Vec<char>)
    ensures
        r@ == trim_end(trim_start(s@)),
{
    let mut from: usize = 0;
    assert(s@.skip(0) =~= s@);
    while from < s.len() && white(s[from])
        invariant
            from <= s.len(),
            trim_start(s@) == trim_start(s@.skip(from as int)),
        decreases s.len() - from,
    {
        assert(s@.skip(from as int)[0] == s@[from as int]);
        assert(s@.skip(from as int).skip(1) =~= s@.skip(from + 1));
        from += 1;
    }
    let ghost started = s@.skip(from as int);
    assert(trim_start(started) == started) by {
        if started.len() > 0 {
            assert(started[0] == s@[from as int]);
        }
    }
    let mut to: usize = s.len();
    assert(started.take((to - from) as int) =~= started);
    while from < to && white(s[to - 1])
        invariant
            from <= to <= s.len(),
            started == s@.skip(from as int),
            trim_end(started) == trim_end(started.take((to - from) as int)),
        decreases to - from,
    {
        proof {
            let cut = started.take((to - from) as int);
            assert(cut.last() == s@[to - 1]);
            assert(cut.drop_last() =~= started.take((to - 1 - from) as int));
        }
        to -= 1;
    }
    let ghost cut = started.take((to - from) as int);
    assert(trim_end(cut) == cut) by {
        if cut.len() > 0 {
            assert(cut.last() == s@[to - 1]);
        }
    }
    let mut out: Vec<char> = Vec::new();
    let mut i: usize = from;
    while i < to
        invariant
            from <= i <= to <= s.len(),
            started == s@.skip(from as int),
            out@ == started.take((i - from) as int),
        decreases to - i,
    {
        out.push(s[i]);
        assert(out@ =~= started.take((i + 1 - from) as int));
        i += 1;
    }
    out
}

fn text_ends(s: &str, end: &str) -> (r: bool)
    ensures
        r == ends_with(s@, end@),
{
    let a = text_chars(s);
    let b = text_chars(end);
    if b.len() > a.len() {
        return false;
    }
    let from: usize = a.len() - b.len();
    let mut i: usize = 0;
    while i < b.len()
        invariant
            i <= b.len(),
            from == a.len() - b.len(),
            a@ == s@,
            b@ == end@,
            forall|k: int| 0 <= k < i ==> a@[from + k] == #[trigger] b@[k],
        decreases b.len() - i,
    {
        if a[from + i] != b[i] {
            assert(s@.skip(from as int)[i as int] != end@[i as int]);
            return false;
        }
        i += 1;
    }
    assert(s@.skip(from as int) =~= end@);
    true
}

/// Tells how the events of a reply come, by its content type.
pub fn operation_response_kind(content_type: &ContentType) -> (r: Result<
    OperationResponseKind,
    OperationClientError,
>)
    ensures
        match r {
            Ok(kind) => response_kind(*content_type) == Ok::<
                OperationResponseKind,
                ClientErrorView,
            >(kind),
            Err(e) => response_kind(*content_type) == Err::<
                OperationResponseKind,
                ClientErrorView,
            >(e@),
        },
{
    match content_type {
        ContentType::Absent => Err(
            OperationClientError::Protocol("A2A streaming response has no Content-Type".to_owned()),
        ),
        ContentType::Invalid(e) => Err(
            OperationClientError::Protocol(
                text_join("A2A streaming response Content-Type is invalid: ", e.as_str()),
            ),
        ),
        ContentType::Text(t) => {
            let chars = text_chars(t.as_str());
            let pieces = split_chars(chars.as_slice(), ';');
            proof {
                crate::text::lemma_split_nonempty(t@, ';');
                assert(char_views(pieces@)[0] == pieces@[0]@);
            }
            let first = pieces[0].clone();
            assert(first@ =~= pieces@[0]@);
            let trimmed = trim_chars(first);
            let media = lower_text(chars_text(trimmed.as_slice()).as_str());
            if text_eq(media.as_str(), "text/event-stream") {
                return Ok(OperationResponseKind::EventStream);
            }
            let is_json = text_eq(media.as_str(), "application/json") || match strip_text_prefix(
                media.as_str(),
                "application/",
            ) {
                Some(subtype) => text_ends(subtype.as_str(), "+json"),
                None => false,
            };
            if is_json {
                return Ok(OperationResponseKind::Json);
            }
            Err(
                OperationClientError::Protocol(
                    text_join(
                        "A2A streaming response has unsupported Content-Type ",
                        t.as_str(),
                    ),
                ),
            )
        },
    }
}

/// No further change follows a state that says how its task ended: completed, failed,
/// canceled or rejected. All others may be followed by one.
pub proof fn law_ended_tasks_are_terminal(state: TaskPhase)
    ensures
        terminal(state) <==> (state is Completed || state is Failed || state is Canceled
            || state is Rejected),
        terminal(state) <==> !(state is Unspecified || state is Submitted || state is Working
            || state is InputRequired || state is AuthRequired),
{
}

/// A state is told by its own name: no two states have the same.
pub proof fn law_states_have_names_of_their_own(a: TaskPhase, b: TaskPhase)
    ensures
        state_text(a) == state_text(b) ==> a == b,
        state_text(TaskPhase::Submitted) == "submitted"@,
        state_text(TaskPhase::Working) == "working"@,
        state_text(TaskPhase::Completed) == "completed"@,
        state_text(TaskPhase::Failed) == "failed"@,
        state_text(TaskPhase::Canceled) == "canceled"@,
        state_text(TaskPhase::Rejected) == "rejected"@,
        state_text(TaskPhase::InputRequired) == "input_required"@,
        state_text(TaskPhase::AuthRequired) == "auth_required"@,
{
    reveal_strlit("unspecified");
    reveal_strlit("submitted");
    reveal_strlit("working");
    reveal_strlit("completed");
    reveal_strlit("failed");
    reveal_strlit("canceled");
    reveal_strlit("input_required");
    reveal_strlit("rejected");
    reveal_strlit("auth_required");
    assert("unspecified"@[0] == 'u');
    assert("submitted"@[0] == 's');
    assert("working"@[0] == 'w');
    assert("completed"@[0] == 'c' && "completed"@[1] == 'o');
    assert("failed"@[0] == 'f');
    assert("canceled"@[0] == 'c' && "canceled"@[1] == 'a');
    assert("input_required"@[0] == 'i');
    assert("rejected"@[0] == 'r');
    assert("auth_required"@[0] == 'a');
}

/// A lost registration is made again; a connection that failed and a deadline that
/// passed lead to another broker; an agent that is away, an answer of an agent and a
/// breach of the protocol lead to no recovery.
pub proof fn law_recoveries_fit_what_was_lost(e: ClientErrorView)
    ensures
        recovery_mode_for(e) == Some(RecoveryMode::RegistrationRefresh) <==> e
            is RegistrationAuthLost,
        recovery_mode_for(e) == Some(RecoveryMode::BrokerReplacement) <==> (e is Connection || e
            is Deadline),
        recovery_mode_for(e) is None <==> (e is AgentUnavailable || e is Application || e
            is Protocol),
{
}

/// Only an answer of an agent says that a task is missing, and only by its code.
pub proof fn law_missing_tasks_are_told_by_code(e: ClientErrorView)
    ensures
        says_missing(e) <==> (e is Application && e->code == -32001),
{
}

/// A reply with an error never gives its result. The error is that of a lost
/// registration just when some object among its details is of that type; otherwise
/// its code and its words are handed on.
pub proof fn law_errors_come_before_results(reply: RpcView)
    ensures
        reply.error is Some ==> ({
            let e = reply.error->0;
            let said = rpc_result(reply);
            let lost = e.data is Some && e.data->0 is Array && exists|i: int|
                #![trigger e.data->0->Array_0[i]]
                0 <= i < e.data->0->Array_0.len() && e.data->0->Array_0[i] is Object
                    && json_get_text(e.data->0->Array_0[i], "@type"@) == Some(
                    "type.herdr.dev/herdr.a2a.RegistrationAuthLost"@,
                );
            &&& said is Err
            &&& client_error_text(said->Err_0) == e.message
            &&& said->Err_0 is RegistrationAuthLost <==> lost
            &&& said->Err_0 is Application <==> !lost
            &&& !lost ==> said->Err_0->code == e.code
        }),
        reply.error is None && reply.result is Some ==> rpc_result(reply) == Ok::<
            JsonView,
            ClientErrorView,
        >(reply.result->0),
        reply.error is None && reply.result is None ==> rpc_result(reply) is Err && rpc_result(
            reply,
        )->Err_0 is Protocol,
{
    if reply.error is Some {
        let e = reply.error->0;
        let wanted = "type.herdr.dev/herdr.a2a.RegistrationAuthLost"@;
        let details = details_of(e.data);
        reveal_strlit("type.herdr.dev/herdr.a2a.RegistrationAuthLost");
        reveal_strlit("type.googleapis.com/google.protobuf.Struct");
        assert(wanted.len() == 45);
        assert(wanted[5] == 'h' && "type.googleapis.com/google.protobuf.Struct"@[5] == 'g');
        if e.data is Some && e.data->0 is Array {
            let items = e.data->0->Array_0;
            if some_detail_is(details, wanted) {
                let i = choose|i: int|
                    0 <= i < details.len() && detail_type(#[trigger] details[i]) == Some(wanted);
                assert(details.contains(details[i]));
                lemma_filter_has(items, is_detail(), details[i]);
                assert(items.contains(details[i]));
                let k = items.index_of(details[i]);
                assert(items[k] == details[i]);
            }
            if exists|i: int|
                #![trigger items[i]]
                0 <= i < items.len() && items[i] is Object && json_get_text(items[i], "@type"@)
                    == Some(wanted) {
                let i = choose|i: int|
                    #![trigger items[i]]
                    0 <= i < items.len() && items[i] is Object && json_get_text(
                        items[i],
                        "@type"@,
                    ) == Some(wanted);
                assert(is_detail()(items[i]));
                assert(items.contains(items[i]));
                lemma_filter_has(items, is_detail(), items[i]);
                let k = details.index_of(items[i]);
                assert(detail_type(details[k]) == Some(wanted));
            }
        }
    }
}

/// The details of an error that is handed on are the objects of its data, all of
/// them and in their order; an error without any has no details.
pub proof fn law_details_are_the_objects(e: RpcErrorView)
    requires
        application_error(e) is Application,
    ensures
        ({
            let details = application_error(e)->details;
            let objects = |items: Seq<JsonView>| items.filter(|v: JsonView| v is Object);
            &&& !(e.data is Some && e.data->0 is Array) ==> details is None
            &&& e.data is Some && e.data->0 is Array ==> details == (if objects(
                e.data->0->Array_0,
            ).len() == 0 {
                None
            } else {
                Some(objects(e.data->0->Array_0))
            })
        }),
{
    assert(is_detail() =~= (|v: JsonView| v is Object)) by {
        assert forall|v: JsonView| #[trigger] is_detail()(v) == (v is Object) by {
        }
    }
}

/// What comes back for a call is handed on whole: bytes that are no reply are a
/// failure of the connection, a reply that is an error is that error, and a result
/// that cannot be read is a breach of the protocol.
pub proof fn law_replies_are_handed_on(
    parsed: Result<RpcView, Seq<char>>,
    context: Seq<char>,
    decoded: Result<TaskView, Seq<char>>,
)
    ensures
        ({
            let result = reply_result(parsed, context);
            let task = decoded_result(result, decoded);
            &&& parsed is Err ==> task == Err::<TaskView, ClientErrorView>(
                ClientErrorView::Connection(context + parsed->Err_0),
            )
            &&& parsed is Ok && rpc_result(parsed->Ok_0) is Err ==> task == Err::<
                TaskView,
                ClientErrorView,
            >(rpc_result(parsed->Ok_0)->Err_0)
            &&& parsed is Ok && rpc_result(parsed->Ok_0) is Ok ==> result == rpc_result(
                parsed->Ok_0,
            )
            &&& result is Ok && decoded is Ok ==> task == Ok::<TaskView, ClientErrorView>(
                decoded->Ok_0,
            )
            &&& result is Ok && decoded is Err ==> task is Err && task->Err_0 is Protocol
        }),
{
}

/// A status of success is no failure; one that refuses the credentials is a failure
/// of the connection, and any other a breach of the protocol. Of a card, one that is
/// not found is an agent that is away, and all else is as for a call.
pub proof fn law_http_statuses_are_told_apart(agent: Seq<char>, status: u16)
    ensures
        status_failure(status) is None <==> 200 <= status <= 299,
        status_failure(status) is Some && status_failure(status)->0 is Connection <==> (status
            == 401 || status == 403),
        status_failure(status) is Some ==> status_failure(status)->0 is Connection
            || status_failure(status)->0 is Protocol,
        card_status_failure(agent, status) is Some && card_status_failure(agent, status)->0
            is AgentUnavailable <==> status == 404,
        status != 404 ==> card_status_failure(agent, status) == status_failure(status),
{
}

/// An operation goes to the first interface of the card that speaks JSON-RPC, and
/// only if that one is of the tenant; a later one never stands in for it.
pub proof fn law_the_first_interface_is_used(
    interfaces: Seq<InterfaceView>,
    tenant: Seq<char>,
    k: int,
)
    requires
        0 <= k < interfaces.len(),
        interfaces[k].binding == "JSONRPC"@,
        forall|i: int| 0 <= i < k ==> (#[trigger] interfaces[i]).binding != "JSONRPC"@,
    ensures
        endpoint_for(interfaces, tenant) is Ok <==> interfaces[k].tenant == Some(tenant),
        endpoint_for(interfaces, tenant) is Ok ==> endpoint_for(interfaces, tenant)->Ok_0
            == interfaces[k].endpoint,
        endpoint_for(interfaces, tenant) is Err ==> endpoint_for(interfaces, tenant)->Err_0
            is Protocol,
{
    lemma_first_interface(interfaces, k);
}

proof fn lemma_first_interface(interfaces: Seq<InterfaceView>, k: int)
    requires
        0 <= k < interfaces.len(),
        interfaces[k].binding == "JSONRPC"@,
        forall|i: int| 0 <= i < k ==> (#[trigger] interfaces[i]).binding != "JSONRPC"@,
    ensures
        jsonrpc_interface(interfaces) == Some(interfaces[k]),
    decreases k,
{
    if k > 0 {
        assert(interfaces[0].binding != "JSONRPC"@);
        assert forall|i: int| 0 <= i < k - 1 implies (#[trigger] interfaces.skip(1)[i]).binding
            != "JSONRPC"@ by {
            assert(interfaces.skip(1)[i] == interfaces[i + 1]);
        }
        lemma_first_interface(interfaces.skip(1), k - 1);
    }
}

/// A card with no interface that speaks JSON-RPC leads nowhere.
pub proof fn law_a_card_without_an_interface_leads_nowhere(
    interfaces: Seq<InterfaceView>,
    tenant: Seq<char>,
)
    requires
        forall|i: int|
            0 <= i < interfaces.len() ==> (#[trigger] interfaces[i]).binding != "JSONRPC"@,
    ensures
        endpoint_for(interfaces, tenant) is Err,
        endpoint_for(interfaces, tenant)->Err_0 is Protocol,
    decreases interfaces.len(),
{
    if interfaces.len() > 0 {
        assert(interfaces[0].binding != "JSONRPC"@);
        assert forall|i: int|
            0 <= i < interfaces.skip(1).len() implies (#[trigger] interfaces.skip(1)[i]).binding
            != "JSONRPC"@ by {
            assert(interfaces.skip(1)[i] == interfaces[i + 1]);
        }
        law_a_card_without_an_interface_leads_nowhere(interfaces.skip(1), tenant);
    }
}

/// An event of several lines of data is those lines with one line end between any
/// two; lines of anything else leave no trace.
pub proof fn law_event_data_is_that_of_its_lines(lines: Seq<Seq<char>>, line: Seq<char>)
    ensures
        !text_starts(line, "data:"@) ==> event_data(lines.push(line)) == event_data(lines),
        forall|data: Seq<char>| #[trigger]
            event_data(lines.push("data: "@ + data)) == (if event_data(lines).len() == 0 {
                data
            } else {
                event_data(lines) + seq!['\n'] + data
            }),
        forall|data: Seq<char>|
            (data.len() == 0 || data[0] != ' ') ==> #[trigger] event_data(
                lines.push("data:"@ + data),
            ) == event_data(lines.push("data: "@ + data)),
        event_data(Seq::empty()) == Seq::<char>::empty(),
{
    reveal_strlit("data:");
    reveal_strlit("data: ");
    assert("data: "@.take(5) =~= "data:"@);
    if text_starts(line, "data: "@) {
        assert(line.take(6) =~= "data: "@);
        assert(line.take(5) =~= "data: "@.take(5));
        assert("data:"@.is_prefix_of(line));
    }
    assert(lines.push(line).drop_last() =~= lines);
    assert forall|data: Seq<char>| #[trigger]
        event_data(lines.push("data: "@ + data)) == (if event_data(lines).len() == 0 {
            data
        } else {
            event_data(lines) + seq!['\n'] + data
        }) by {
        let l = "data: "@ + data;
        assert(lines.push(l).drop_last() =~= lines);
        assert("data: "@.is_prefix_of(l));
        assert(l.skip(6) =~= data);
        assert(event_data(lines).push('\n') + data =~= event_data(lines) + seq!['\n'] + data);
    }
    assert forall|data: Seq<char>|
        (data.len() == 0 || data[0] != ' ') implies #[trigger] event_data(
        lines.push("data:"@ + data),
    ) == event_data(lines.push("data: "@ + data)) by {
        let l = "data:"@ + data;
        assert(lines.push(l).drop_last() =~= lines);
        assert("data:"@.is_prefix_of(l));
        assert(l.skip(5) =~= data);
        if "data: "@.is_prefix_of(l) {
            assert(l.take(6)[5] == data[0]);
            assert("data: "@[5] == ' ');
            assert(l[5] == l.take(6)[5]);
        }
        assert(event_data(lines).push('\n') + data =~= event_data(lines) + seq!['\n'] + data);
    }
}

/// A reply streams just when its media type is that of event streams; it is a single
/// reply just when it is JSON, or a type of an application that is built on JSON.
/// Parameters and the case of letters make no difference.
pub proof fn law_media_types_decide(t: String)
    ensures
        ({
            let media = media_type(t@);
            let kind = response_kind(ContentType::Text(t));
            &&& kind == Ok::<OperationResponseKind, ClientErrorView>(
                OperationResponseKind::EventStream,
            ) <==> media == "text/event-stream"@
            &&& kind == Ok::<OperationResponseKind, ClientErrorView>(OperationResponseKind::Json)
                <==> (media == "application/json"@ || exists|middle: Seq<char>|
                #![trigger "application/"@ + middle]
                media == "application/"@ + middle + "+json"@)
            &&& kind is Err ==> kind->Err_0 is Protocol
        }),
        response_kind(ContentType::Absent) is Err,
{
    let media = media_type(t@);
    reveal_strlit("text/event-stream");
    reveal_strlit("application/json");
    reveal_strlit("application/");
    reveal_strlit("+json");
    let (a, j) = ("application/"@, "+json"@);
    assert("text/event-stream"@[0] == 't');
    assert("application/json"@[0] == 'a' && a[0] == 'a');
    assert("application/json"@.len() == 16);
    if json_media(media) && media != "application/json"@ {
        let rest = media.skip(12);
        let middle = rest.take(rest.len() - 5);
        assert(rest =~= middle + rest.skip(rest.len() - 5));
        assert(media.take(12) =~= a);
        assert(media =~= media.take(12) + media.skip(12));
        assert(media =~= a + middle + j);
        assert(media[0] == a[0]);
    }
    if exists|middle: Seq<char>| #![trigger a + middle] media == a + middle + j {
        let middle = choose|middle: Seq<char>| #![trigger a + middle] media == a + middle + j;
        assert(a.is_prefix_of(media));
        assert(media.skip(12) =~= middle + j);
        assert((middle + j).skip((middle + j).len() - 5) =~= j);
        assert(media[0] == a[0]);
    }
}

/// White space at either end of a text is taken off, all of it and nothing else.
pub proof fn law_trimming_takes_the_ends_off(s: Seq<char>)
    ensures
        ({
            let kept = trim_end(trim_start(s));
            &&& kept.len() > 0 ==> !is_white(kept[0]) && !is_white(kept.last())
            &&& exists|i: int, j: int|
                0 <= i <= j <= s.len() && kept == #[trigger] s.subrange(i, j) && (forall|k: int|
                    0 <= k < i || j <= k < s.len() ==> is_white(#[trigger] s[k]))
        }),
{
    let i = lemma_trim_start(s);
    let rest = trim_start(s);
    let n = lemma_trim_end(rest);
    let kept = trim_end(rest);
    assert(kept =~= s.subrange(i, i + n));
    assert forall|k: int| 0 <= k < i || i + n <= k < s.len() implies is_white(#[trigger] s[k]) by {
        if k >= i + n {
            assert(rest[k - i] == s[k]);
        }
    }
    if kept.len() > 0 {
        assert(kept[0] == rest[0]);
    }
}

proof fn lemma_trim_start(s: Seq<char>) -> (i: int)
    ensures
        0 <= i <= s.len(),
        trim_start(s) == s.skip(i),
        forall|k: int| 0 <= k < i ==> is_white(#[trigger] s[k]),
        trim_start(s).len() > 0 ==> !is_white(trim_start(s)[0]),
    decreases s.len(),
{
    if s.len() > 0 && is_white(s[0]) {
        let j = lemma_trim_start(s.skip(1));
        assert(s.skip(1).skip(j) =~= s.skip(j + 1));
        assert forall|k: int| 0 <= k < j + 1 implies is_white(#[trigger] s[k]) by {
            if k > 0 {
                assert(s.skip(1)[k - 1] == s[k]);
            }
        }
        j + 1
    } else {
        assert(s.skip(0) =~= s);
        0
    }
}

proof fn lemma_trim_end(s: Seq<char>) -> (n: int)
    ensures
        0 <= n <= s.len(),
        trim_end(s) == s.take(n),
        forall|k: int| n <= k < s.len() ==> is_white(#[trigger] s[k]),
        trim_end(s).len() > 0 ==> !is_white(trim_end(s).last()),
    decreases s.len(),
{
    if s.len() > 0 && is_white(s.last()) {
        let n = lemma_trim_end(s.drop_last());
        assert(s.drop_last().take(n) =~= s.take(n));
        assert forall|k: int| n <= k < s.len() implies is_white(#[trigger] s[k]) by {
            if k < s.len() - 1 {
                assert(s.drop_last()[k] == s[k]);
            }
        }
        n
    } else {
        assert(s.take(s.len() as int) =~= s);
        s.len() as int
    }
}

/// An event of a stream is told just when it holds data: bytes that are no text are a
/// failure of the connection, and what the data says is what a reply would say.
pub proof fn law_events_are_told_as_replies(bytes: Seq<u8>)
    ensures
        ({
            let told = sse_event(bytes);
            let data = event_data(text_lines(decode_utf8(bytes)));
            let result = reply_result(rpc_parsed(utf8(data)), "A2A stream body failed: "@);
            &&& told is None <==> valid_utf8(bytes) && data.len() == 0
            &&& !valid_utf8(bytes) ==> told->0 is Err && told->0->Err_0 is Connection
            &&& valid_utf8(bytes) && data.len() > 0 && result is Err ==> told == Some(
                Err::<StreamView, ClientErrorView>(result->Err_0),
            )
            &&& valid_utf8(bytes) && data.len() > 0 && result is Ok && event_decoded(result->Ok_0)
                is Ok ==> told == Some(
                Ok::<StreamView, ClientErrorView>(event_decoded(result->Ok_0)->Ok_0),
            )
            &&& valid_utf8(bytes) && data.len() > 0 && result is Ok && event_decoded(result->Ok_0)
                is Err ==> told->0 is Err && told->0->Err_0 is Protocol
        }),
{
}

/// A card that cannot be read is a failure of the connection; one that can leads where its
/// interfaces do.
pub proof fn law_cards_lead_where_their_interfaces_do(
    parsed: Result<Seq<InterfaceView>, Seq<char>>,
    tenant: Seq<char>,
)
    ensures
        parsed is Err ==> card_endpoint(parsed, tenant) is Err && card_endpoint(
            parsed,
            tenant,
        )->Err_0 is Connection,
        parsed is Ok ==> card_endpoint(parsed, tenant) == endpoint_for(parsed->Ok_0, tenant),
{
}

/// A reply may announce up to 1048576 bytes, or no length at all.
pub proof fn law_announced_lengths_are_bounded(length: Option<u64>)
    ensures
        announced_failure(length) is None <==> (length is None || length->0 <= 1_048_576),
        announced_failure(length) is Some ==> announced_failure(length)->0 is Protocol,
{
}

} // verus!
