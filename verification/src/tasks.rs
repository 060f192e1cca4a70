//! The tasks that a session sends: how a message becomes a task, and how the task is
//! followed until it ends, through the loss of its stream and of its broker.

use vstd::prelude::*;
use vstd::string::*;
use crate::json::{
    encode_json, field, field_views, json_encoded, json_get, json_get_text, json_object, json_of_text,
    push_field, Json, JsonView,
};
use crate::pi::opt_json;
use crate::protocol::{
    plainly, refuse, session_failure, SessionFailure, SessionFailureView,
};
use crate::record::opt_text;
use crate::recovery::{
    recovery_text, RecoveryError, RecoveryErrorView, RecoveryMode, TaskWaitMode,
};
use crate::rpc::{
    a2a_error_recovery_mode, a2a_task_is_definitely_missing, client_error_text, recovery_mode_for,
    says_missing, state_name, state_text, terminal, ClientErrorView, OperationClientError,
    SendReply, StreamEvent, TaskInfo, TaskPhase, TaskView,
};
use crate::text::{byte_len, text_eq, utf8};
use crate::wire::{bounded_control_free, is_bounded_control_free};

verus! {

/// The shortest wait for a task, in milliseconds.
pub const MIN_SEND_WAIT_MS: u64 = 1_000;

/// The wait for a task where none is asked for, in milliseconds.
pub const DEFAULT_SEND_WAIT_MS: u64 = 60_000;

/// The longest wait for a task, in milliseconds.
pub const MAX_SEND_WAIT_MS: u64 = 86_400_000;

/// How long is waited at first for an agent that is not there, in milliseconds.
pub const CARD_RETRY_BASE_MS: u64 = 50;

/// How long is waited at most for an agent that is not there, in milliseconds.
pub const CARD_RETRY_MAX_MS: u64 = 1_000;

/// A message as it is sent.
#[derive(Debug)]
pub struct SendRequest {
    pub text: String,
    pub metadata: Option<Json>,
    pub task_id: String,
    pub context_id: String,
    pub tenant: String,
    /// Whether the reply comes before the task ends.
    pub return_immediately: bool,
}

/// What the agent is asked for beside a message.
#[derive(Debug)]
pub struct SendConfiguration {
    pub accepted_output_modes: Vec<String>,
    pub return_immediately: bool,
}

/// What is asked for beside a message: only one whose reply comes before the task
/// ends has anything to ask, which is a reply in plain text at once.
pub fn send_configuration(request: &SendRequest) -> (r: Option<SendConfiguration>)
    ensures
        r is Some == request.return_immediately,
        r is Some ==> r->0.return_immediately && r->0.accepted_output_modes@.len() == 1
            && r->0.accepted_output_modes@[0]@ == "text/plain"@,
{
    if !request.return_immediately {
        return None;
    }
    let mut accepted_output_modes: Vec<String> = Vec::new();
    accepted_output_modes.push("text/plain".to_owned());
    Some(SendConfiguration { accepted_output_modes, return_immediately: true })
}

/// One task that a session sends or follows. Its names stay what they are for as
/// long as the operation lasts.
#[derive(Debug)]
pub struct TaskOperation {
    pub requested_agent: String,
    pub agent: String,
    pub tenant: String,
    pub task_id: String,
    pub context_id: Option<String>,
    pub normalized_request: Option<SendRequest>,
    pub wait_mode: TaskWaitMode,
    /// In microseconds.
    pub deadline: u64,
}

/// How long a task is waited for.
pub fn send_wait_duration(timeout_ms: Option<u64>) -> (r: Result<u64, SessionFailure>)
    ensures
        ({
            let asked = match timeout_ms {
                Some(ms) => ms,
                None => DEFAULT_SEND_WAIT_MS,
            };
            if MIN_SEND_WAIT_MS <= asked <= MAX_SEND_WAIT_MS {
                r == Ok::<u64, SessionFailure>(asked)
            } else {
                session_failure(r) == plainly(
                    "send wait timeout must be between 1000 and 86400000 milliseconds"@,
                )
            }
        }),
{
    let asked = match timeout_ms {
        Some(ms) => ms,
        None => DEFAULT_SEND_WAIT_MS,
    };
    if !(MIN_SEND_WAIT_MS <= asked && asked <= MAX_SEND_WAIT_MS) {
        return refuse("send wait timeout must be between 1000 and 86400000 milliseconds");
    }
    Ok(asked)
}

/// What is wrong with the target of a message.
pub open spec fn target_failure(target: Seq<char>) -> Option<SessionFailureView> {
    if bounded_control_free(target, 1024) {
        None
    } else {
        plainly("agent target must be non-empty, bounded, and control-free"@)
    }
}

/// Checks the target of a message.
pub fn validate_agent_target(target: &str) -> (r: Result<(), SessionFailure>)
    ensures
        session_failure(r) == target_failure(target@),
{
    if !is_bounded_control_free(target, 1024) {
        return refuse("agent target must be non-empty, bounded, and control-free");
    }
    Ok(())
}

/// What is wrong with the text of a message.
pub open spec fn text_failure(text: Seq<char>, max: nat) -> Option<SessionFailureView> {
    if utf8(text).len() > max {
        plainly("message text exceeds the size limit"@)
    } else {
        None
    }
}

/// Checks the text of a message.
pub fn validate_text(text: &str, max: usize) -> (r: Result<(), SessionFailure>)
    ensures
        session_failure(r) == text_failure(text@, max as nat),
{
    if byte_len(text) > max {
        return refuse("message text exceeds the size limit");
    }
    Ok(())
}

/// What is wrong with the metadata of a message.
pub open spec fn metadata_failure(value: JsonView, max: nat) -> Option<SessionFailureView> {
    if !(value is Object) || json_encoded(value).len() > max {
        plainly("metadata must be a bounded object"@)
    } else {
        None
    }
}

/// Checks the metadata of a message.
pub fn validate_metadata(value: &Json, max: usize) -> (r: Result<(), SessionFailure>)
    ensures
        session_failure(r) == metadata_failure(value@, max as nat),
{
    let is_object = match value {
        Json::Object(_) => true,
        _ => false,
    };
    if !is_object || encode_json(value).len() > max {
        return refuse("metadata must be a bounded object");
    }
    Ok(())
}

/// Takes the metadata of a message: an empty object is none.
pub fn object_metadata(value: Json, max: usize) -> (r: Result<Option<Json>, SessionFailure>)
    ensures
        session_failure(r) == metadata_failure(value@, max as nat),
        r is Ok ==> opt_json(r->Ok_0) == if value@->Object_0.len() == 0 {
            None
        } else {
            Some(value@)
        },
{
    validate_metadata(&value, max)?;
    let is_empty = match &value {
        Json::Object(fields) => fields.len() == 0,
        _ => false,
    };
    if is_empty {
        Ok(None)
    } else {
        Ok(Some(value))
    }
}

/// A message that a session is asked to send.
#[derive(Debug)]
pub struct NewSendParams {
    pub agent: String,
    pub text: String,
    pub metadata: Json,
    pub conversation_id: Option<String>,
    pub wait: bool,
    pub timeout_ms: Option<u64>,
}

/// What is wrong with a message before its target is looked up.
pub open spec fn new_message_failure(
    params: NewSendParams,
    conversation_ok: bool,
    max_text: nat,
) -> Option<SessionFailureView> {
    if target_failure(params.agent@) is Some {
        target_failure(params.agent@)
    } else if text_failure(params.text@, max_text) is Some {
        text_failure(params.text@, max_text)
    } else if params.conversation_id is Some && !conversation_ok {
        plainly("conversation ID is invalid"@)
    } else if params.timeout_ms is Some && !(MIN_SEND_WAIT_MS <= params.timeout_ms->0
        <= MAX_SEND_WAIT_MS) {
        plainly("send wait timeout must be between 1000 and 86400000 milliseconds"@)
    } else {
        None
    }
}

/// Checks a message before its target is looked up, and tells how long it is
/// waited for.
pub fn check_new_message(params: &NewSendParams, conversation_ok: bool, max_text: usize) -> (r:
    Result<u64, SessionFailure>)
    ensures
        session_failure(r) == new_message_failure(*params, conversation_ok, max_text as nat),
        r is Ok ==> r->Ok_0 == match params.timeout_ms {
            Some(ms) => ms,
            None => DEFAULT_SEND_WAIT_MS,
        },
{
    validate_agent_target(params.agent.as_str())?;
    validate_text(params.text.as_str(), max_text)?;
    if params.conversation_id.is_some() && !conversation_ok {
        return refuse("conversation ID is invalid");
    }
    send_wait_duration(params.timeout_ms)
}

/// A lower-case hexadecimal digit.
pub open spec fn uuid_digit(c: char) -> bool {
    ('0' <= c && c <= '9') || ('a' <= c && c <= 'f')
}

/// The text of a UUID: groups of eight, four, four, four and twelve lower-case
/// hexadecimal digits, with hyphens between them.
pub open spec fn uuid_text(s: Seq<char>) -> bool {
    &&& s.len() == 36
    &&& forall|i: int|
        0 <= i < 36 ==> if i == 8 || i == 13 || i == 18 || i == 23 {
            #[trigger] s[i] == '-'
        } else {
            uuid_digit(s[i])
        }
}

/// `a2a::new_task_id`: a name for a new task, which is the text of a UUID. Which one
/// rests on the time and on chance, and nothing more is claimed of it.
#[verifier::external_body]
fn fresh_task_id() -> (r: String)
    ensures
        uuid_text(r@),
{
    a2a::new_task_id()
}

/// `a2a::new_context_id`: a name for a new conversation, which is the text of a UUID.
/// Which one rests on the time and on chance, and nothing more is claimed of it.
#[verifier::external_body]
fn fresh_context_id() -> (r: String)
    ensures
        uuid_text(r@),
{
    a2a::new_context_id()
}

/// A name for a new task, and one for its conversation: the one that was asked for,
/// if there is one.
pub fn new_task_names(conversation_id: Option<&str>) -> (r: (String, String))
    ensures
        uuid_text(r.0@),
        match conversation_id {
            Some(id) => r.1@ == id@,
            None => uuid_text(r.1@),
        },
{
    let task_id = fresh_task_id();
    let context_id = match conversation_id {
        Some(id) => id.to_owned(),
        None => fresh_context_id(),
    };
    (task_id, context_id)
}

/// Why a message is not sent.
pub open spec fn unsendable(metadata: JsonView, max: nat, has_permit: bool) -> Option<
    SessionFailureView,
> {
    if metadata_failure(metadata, max) is Some {
        metadata_failure(metadata, max)
    } else if !has_permit {
        plainly("too many active outbound tasks"@)
    } else {
        None
    }
}

/// The operation that a message is sent in.
pub open spec fn sent_as(
    op: TaskOperation,
    params: NewSendParams,
    agent: Seq<char>,
    task_id: Seq<char>,
    context_id: Seq<char>,
    deadline: u64,
) -> bool {
    {
        let request = op.normalized_request->0;
        &&& op.requested_agent@ == params.agent@
        &&& op.agent@ == agent
        &&& op.tenant@ == agent
        &&& op.task_id@ == task_id
        &&& opt_text(op.context_id) == Some(context_id)
        &&& op.wait_mode == if params.wait {
            TaskWaitMode::Terminal
        } else {
            TaskWaitMode::Immediate
        }
        &&& op.deadline == deadline
        &&& op.normalized_request is Some
        &&& request.text@ == params.text@
        &&& opt_json(request.metadata) == if params.metadata@->Object_0.len() == 0 {
            None
        } else {
            Some(params.metadata@)
        }
        &&& request.task_id@ == task_id
        &&& request.context_id@ == context_id
        &&& request.tenant@ == agent
        &&& request.return_immediately == !params.wait
    }
}

/// Makes the operation of a new message, once its target is known. All that is
/// sent for it goes to the canonical agent.
pub fn new_message_operation(
    params: NewSendParams,
    canonical_agent: &str,
    has_permit: bool,
    max_metadata: usize,
    task_id: String,
    context_id: String,
    deadline: u64,
) -> (r: Result<TaskOperation, SessionFailure>)
    ensures
        session_failure(r) == unsendable(params.metadata@, max_metadata as nat, has_permit),
        r is Ok ==> sent_as(r->Ok_0, params, canonical_agent@, task_id@, context_id@, deadline),
{
    let metadata = object_metadata(params.metadata, max_metadata)?;
    if !has_permit {
        return refuse("too many active outbound tasks");
    }
    let request = SendRequest {
        text: params.text,
        metadata,
        task_id: task_id.clone(),
        context_id: context_id.clone(),
        tenant: canonical_agent.to_owned(),
        return_immediately: !params.wait,
    };
    Ok(
        TaskOperation {
            requested_agent: params.agent,
            agent: canonical_agent.to_owned(),
            tenant: canonical_agent.to_owned(),
            task_id,
            context_id: Some(context_id),
            normalized_request: Some(request),
            wait_mode: if params.wait {
                TaskWaitMode::Terminal
            } else {
                TaskWaitMode::Immediate
            },
            deadline,
        },
    )
}

/// A task that a session is asked to follow again.
#[derive(Debug)]
pub struct ResumeSendParams {
    pub agent: String,
    pub resume_task_id: String,
    pub timeout_ms: Option<u64>,
}

/// What is wrong with the name of a task.
pub open spec fn task_id_problem(check: Result<(), String>) -> Option<Seq<char>> {
    match check {
        Ok(_) => None,
        Err(e) => Some(e@),
    }
}

/// Why a task is not followed again.
pub open spec fn unresumable(
    timeout_ms: Option<u64>,
    agent_ok: bool,
    task_id_failure: Option<Seq<char>>,
    has_permit: bool,
) -> Option<SessionFailureView> {
    if !agent_ok {
        plainly("agent name is invalid"@)
    } else if task_id_failure is Some {
        plainly(task_id_failure->0)
    } else if !has_permit {
        plainly("too many active outbound tasks"@)
    } else if timeout_ms is Some && !(MIN_SEND_WAIT_MS <= timeout_ms->0
        <= MAX_SEND_WAIT_MS) {
        plainly("send wait timeout must be between 1000 and 86400000 milliseconds"@)
    } else {
        None
    }
}

/// The operation that a task is followed in again.
pub open spec fn resumed_as(op: TaskOperation, params: ResumeSendParams, now: u64) -> bool {
    {
        let wait = match params.timeout_ms {
            Some(ms) => ms,
            None => DEFAULT_SEND_WAIT_MS,
        };
        &&& op.requested_agent@ == params.agent@
        &&& op.agent@ == params.agent@
        &&& op.tenant@ == params.agent@
        &&& op.task_id@ == params.resume_task_id@
        &&& op.context_id is None
        &&& op.normalized_request is None
        &&& op.wait_mode == TaskWaitMode::Terminal
        &&& op.deadline == now + wait * 1000
    }
}

/// Makes the operation of a task that is followed again: nothing is sent for it.
pub fn resume_message(
    params: ResumeSendParams,
    agent_ok: bool,
    task_id_check: &Result<(), String>,
    has_permit: bool,
    now: u64,
) -> (r: Result<TaskOperation, SessionFailure>)
    requires
        now <= u64::MAX - MAX_SEND_WAIT_MS * 1000,
    ensures
        session_failure(r) == unresumable(params.timeout_ms, agent_ok, task_id_problem(*task_id_check), has_permit),
        r is Ok ==> resumed_as(r->Ok_0, params, now),
{
    if !agent_ok {
        return refuse("agent name is invalid");
    }
    match task_id_check {
        Ok(_) => {},
        Err(e) => {
            return Err(SessionFailure::Plain(e.clone()));
        },
    }
    if !has_permit {
        return refuse("too many active outbound tasks");
    }
    let wait = send_wait_duration(params.timeout_ms)?;
    Ok(
        TaskOperation {
            requested_agent: params.agent.clone(),
            agent: params.agent.clone(),
            tenant: params.agent,
            task_id: params.resume_task_id,
            context_id: None,
            normalized_request: None,
            wait_mode: TaskWaitMode::Terminal,
            deadline: now + wait * 1000,
        },
    )
}

/// A task is the one of an operation.
pub open spec fn task_fits(op: TaskOperation, task: TaskView) -> bool {
    task.id == op.task_id@ && (op.context_id is Some ==> task.context_id == op.context_id->0@)
}

/// What is wrong with a task that should be the one of an operation.
pub open spec fn identity_failure(op: TaskOperation, task: TaskView) -> Option<SessionFailureView> {
    if task_fits(op, task) {
        None
    } else {
        plainly("recovered task identity does not match the original operation"@)
    }
}

/// Checks that a task is the one of an operation.
pub fn validate_operation_task(operation: &TaskOperation, task: &TaskInfo) -> (r: Result<
    (),
    SessionFailure,
>)
    ensures
        session_failure(r) == identity_failure(*operation, task@),
{
    let context_ok = match &operation.context_id {
        Some(context_id) => text_eq(task.context_id.as_str(), context_id.as_str()),
        None => true,
    };
    if !text_eq(task.id.as_str(), operation.task_id.as_str()) || !context_ok {
        return refuse("recovered task identity does not match the original operation");
    }
    Ok(())
}

/// A text as a JSON value, or null.
pub open spec fn text_or_null(t: Option<Seq<char>>) -> JsonView {
    match t {
        Some(text) => JsonView::Text(text),
        None => JsonView::Null,
    }
}

/// The result for a task that ended.
pub open spec fn task_outcome(task: TaskView) -> JsonView {
    JsonView::Object(
        seq![
            ("conversation_id"@, JsonView::Text(task.context_id)),
            (
                "metadata"@,
                match task.metadata {
                    Some(v) => v,
                    None => JsonView::Object(Seq::empty()),
                },
            ),
            ("state"@, JsonView::Text(state_text(task.state))),
            ("task_id"@, JsonView::Text(task.id)),
            ("text"@, text_or_null(task.text)),
        ],
    )
}

/// Makes the result for a task that ended.
pub fn task_result(task: &TaskInfo) -> (r: Json)
    ensures
        r@ == task_outcome(task@),
{
    let metadata = match &task.metadata {
        Some(v) => v.copy(),
        None => {
            let none: Vec<(String, Json)> = Vec::new();
            assert(field_views(none@) =~= Seq::empty());
            json_object(none)
        },
    };
    let text = match &task.text {
        Some(t) => json_of_text(t.as_str()),
        None => Json::Null,
    };
    let ghost m = metadata@;
    let ghost t = text@;
    let mut fields: Vec<(String, Json)> = Vec::new();
    push_field(&mut fields, "conversation_id", json_of_text(task.context_id.as_str()));
    push_field(&mut fields, "metadata", metadata);
    push_field(&mut fields, "state", json_of_text(state_name(task.state)));
    push_field(&mut fields, "task_id", json_of_text(task.id.as_str()));
    push_field(&mut fields, "text", text);
    assert(field_views(fields@) =~= task_outcome(task@)->Object_0);
    json_object(fields)
}

/// The state that is told of a task at the end of the time.
pub open spec fn last_state(confirmed: bool, last: Option<TaskView>) -> Seq<char> {
    match last {
        Some(task) => state_text(task.state),
        None => if confirmed {
            "working"@
        } else {
            "unknown"@
        },
    }
}

/// The conversation that is told of a task at the end of the time.
pub open spec fn last_conversation(op: TaskOperation, last: Option<TaskView>) -> JsonView {
    match last {
        Some(task) => JsonView::Text(task.context_id),
        None => text_or_null(opt_text(op.context_id)),
    }
}

/// The result at the end of the time.
pub open spec fn timeout_outcome(
    op: TaskOperation,
    confirmed: bool,
    last: Option<TaskView>,
    reason: Seq<char>,
) -> JsonView {
    JsonView::Object(
        seq![
            ("agent"@, JsonView::Text(op.agent@)),
            ("conversation_id"@, last_conversation(op, last)),
            ("recovery_reason"@, JsonView::Text(reason)),
            ("requested_agent"@, JsonView::Text(op.requested_agent@)),
            ("resume_task_id"@, JsonView::Text(op.task_id@)),
            ("state"@, JsonView::Text(last_state(confirmed, last))),
            ("task_confirmed"@, JsonView::Bool(confirmed)),
            ("task_id"@, JsonView::Text(op.task_id@)),
            ("task_reachable"@, JsonView::Bool(confirmed)),
            ("timed_out"@, JsonView::Bool(true)),
        ],
    )
}

/// A task, if there is one.
pub open spec fn opt_task(t: Option<TaskInfo>) -> Option<TaskView> {
    match t {
        Some(task) => Some(task@),
        None => None,
    }
}

/// Makes the result at the end of the time: the names by which the task can be
/// followed again, and what is known of it.
pub fn operation_timeout_result(
    operation: &TaskOperation,
    task_confirmed: bool,
    last_task: &Option<TaskInfo>,
    recovery_reason: &str,
) -> (r: Json)
    ensures
        r@ == timeout_outcome(*operation, task_confirmed, opt_task(*last_task), recovery_reason@),
{
    let conversation = match last_task {
        Some(task) => json_of_text(task.context_id.as_str()),
        None => match &operation.context_id {
            Some(id) => json_of_text(id.as_str()),
            None => Json::Null,
        },
    };
    let state = match last_task {
        Some(task) => state_name(task.state),
        None => if task_confirmed {
            "working"
        } else {
            "unknown"
        },
    };
    let ghost c = conversation@;
    let mut fields: Vec<(String, Json)> = Vec::new();
    push_field(&mut fields, "agent", json_of_text(operation.agent.as_str()));
    push_field(&mut fields, "conversation_id", conversation);
    push_field(&mut fields, "recovery_reason", json_of_text(recovery_reason));
    push_field(&mut fields, "requested_agent", json_of_text(operation.requested_agent.as_str()));
    push_field(&mut fields, "resume_task_id", json_of_text(operation.task_id.as_str()));
    push_field(&mut fields, "state", json_of_text(state));
    push_field(&mut fields, "task_confirmed", Json::Bool(task_confirmed));
    push_field(&mut fields, "task_id", json_of_text(operation.task_id.as_str()));
    push_field(&mut fields, "task_reachable", Json::Bool(task_confirmed));
    push_field(&mut fields, "timed_out", Json::Bool(true));
    assert(field_views(fields@) =~= timeout_outcome(
        *operation,
        task_confirmed,
        opt_task(*last_task),
        recovery_reason@,
    )->Object_0);
    json_object(fields)
}

/// The result for a task whose stream was lost while it can be reached.
pub open spec fn stream_lost_outcome(op: TaskOperation, task: TaskView) -> JsonView {
    JsonView::Object(
        seq![
            ("agent"@, JsonView::Text(op.agent@)),
            ("conversation_id"@, JsonView::Text(task.context_id)),
            ("resume_task_id"@, JsonView::Text(op.task_id@)),
            ("state"@, JsonView::Text(state_text(task.state))),
            ("stream_lost"@, JsonView::Bool(true)),
            ("task_confirmed"@, JsonView::Bool(true)),
            ("task_id"@, JsonView::Text(op.task_id@)),
            ("task_reachable"@, JsonView::Bool(true)),
        ],
    )
}

/// Makes the result for a task whose stream was lost while it can be reached.
pub fn reachable_stream_lost_result(operation: &TaskOperation, task: &TaskInfo) -> (r: Json)
    ensures
        r@ == stream_lost_outcome(*operation, task@),
{
    let mut fields: Vec<(String, Json)> = Vec::new();
    push_field(&mut fields, "agent", json_of_text(operation.agent.as_str()));
    push_field(&mut fields, "conversation_id", json_of_text(task.context_id.as_str()));
    push_field(&mut fields, "resume_task_id", json_of_text(operation.task_id.as_str()));
    push_field(&mut fields, "state", json_of_text(state_name(task.state)));
    push_field(&mut fields, "stream_lost", Json::Bool(true));
    push_field(&mut fields, "task_confirmed", Json::Bool(true));
    push_field(&mut fields, "task_id", json_of_text(operation.task_id.as_str()));
    push_field(&mut fields, "task_reachable", Json::Bool(true));
    assert(field_views(fields@) =~= stream_lost_outcome(*operation, task@)->Object_0);
    json_object(fields)
}

/// The result for a message that is not waited for, or why there is none.
pub open spec fn immediate_outcome(op: TaskOperation, reply: SendReply) -> Result<
    JsonView,
    SessionFailureView,
> {
    match reply {
        SendReply::Message => Err(
            SessionFailureView::Plain("nonblocking send returned no task identifiers"@),
        ),
        SendReply::Task(task) => match identity_failure(op, task@) {
            Some(f) => Err(f),
            None => Ok(
                JsonView::Object(
                    seq![
                        ("agent"@, JsonView::Text(op.agent@)),
                        ("conversation_id"@, JsonView::Text(task.context_id@)),
                        ("state"@, JsonView::Text(state_text(task.state))),
                        ("task_id"@, JsonView::Text(task.id@)),
                    ],
                ),
            ),
        },
    }
}

/// Makes the result for a message that is not waited for.
pub fn immediate_result(operation: &TaskOperation, reply: &SendReply) -> (r: Result<
    Json,
    SessionFailure,
>)
    ensures
        crate::protocol::json_request(r) == immediate_outcome(*operation, *reply),
{
    match reply {
        SendReply::Message => refuse("nonblocking send returned no task identifiers"),
        SendReply::Task(task) => {
            validate_operation_task(operation, task)?;
            let mut fields: Vec<(String, Json)> = Vec::new();
            push_field(&mut fields, "agent", json_of_text(operation.agent.as_str()));
            push_field(&mut fields, "conversation_id", json_of_text(task.context_id.as_str()));
            push_field(&mut fields, "state", json_of_text(state_name(task.state)));
            push_field(&mut fields, "task_id", json_of_text(task.id.as_str()));
            assert(field_views(fields@) =~= immediate_outcome(
                *operation,
                *reply,
            )->Ok_0->Object_0);
            Ok(json_object(fields))
        },
    }
}

/// An event says that the task of an operation is being worked on.
pub open spec fn says_working(event: StreamEvent, task_id: Seq<char>) -> bool {
    match event {
        StreamEvent::Task(task) => task.id@ == task_id && task.state == TaskPhase::Working,
        StreamEvent::StatusUpdate { task_id: id, state } => id@ == task_id && state
            == TaskPhase::Working,
        _ => false,
    }
}

/// Whether an event says that the task of an operation is being worked on.
pub fn working_stream_event(event: &StreamEvent, expected_task_id: &str) -> (r: bool)
    ensures
        r == says_working(*event, expected_task_id@),
{
    match event {
        StreamEvent::Task(task) => text_eq(task.id.as_str(), expected_task_id) && task.state
            == TaskPhase::Working,
        StreamEvent::StatusUpdate { task_id, state } => text_eq(
            task_id.as_str(),
            expected_task_id,
        ) && *state == TaskPhase::Working,
        _ => false,
    }
}

/// What is known of a task while it is followed.
#[derive(Debug)]
pub struct AttemptMemory {
    pub task_confirmed: bool,
    pub last_task: Option<TaskInfo>,
    pub resend_attempted: bool,
}

/// What is known of a task while it is followed.
pub struct MemoryView {
    pub task_confirmed: bool,
    pub last_task: Option<TaskView>,
    pub resend_attempted: bool,
}

impl View for AttemptMemory {
    type V = MemoryView;

    open spec fn view(&self) -> MemoryView {
        MemoryView {
            task_confirmed: self.task_confirmed,
            last_task: opt_task(self.last_task),
            resend_attempted: self.resend_attempted,
        }
    }
}

/// What is done next for a task.
#[derive(Clone, Copy, Debug, PartialEq, Eq, Structural)]
pub enum AttemptState {
    /// The connection to the broker is recovered.
    Recover { mode: RecoveryMode },
    /// The card of the agent is asked for.
    Resolve { retry_delay_ms: u64 },
    /// It is asked what became of the task.
    Inspect,
    /// The message is sent.
    Send,
    /// The next event of the stream of the message is awaited.
    Stream,
    /// The events of the task are subscribed to.
    Subscribe,
    /// The next event of the subscription is awaited.
    Subscription,
    /// It is looked whether the broker was replaced.
    CheckReplacement { resubscribe_if_working: bool },
    /// It is asked a last time what became of the task.
    FinalGet { resubscribe_if_working: bool },
}

/// What came of it. A call that did not end in time has nothing.
#[derive(Debug)]
pub enum AttemptEvent {
    Recovered(Result<(), RecoveryError>),
    /// What came of the card, and how much time is left, in microseconds.
    Client(Result<(), OperationClientError>, u64),
    Fetched(Option<Result<TaskInfo, OperationClientError>>),
    Sent(Option<Result<SendReply, OperationClientError>>),
    Opened(Option<Result<(), OperationClientError>>),
    /// The next event; a stream that ended has none.
    Streamed(Option<Result<Option<StreamEvent>, OperationClientError>>),
    /// Whether the broker was replaced.
    Replacement(Result<bool, RecoveryError>),
}

/// What follows for a task.
#[derive(Debug)]
pub enum AttemptNext {
    /// It goes on, after a wait in microseconds.
    Go { state: AttemptState, wait: u64 },
    /// It ends with a result.
    Done(Json),
    /// It ends with a failure.
    Fail(SessionFailure),
}

/// What follows for a task.
pub enum NextView {
    Go { state: AttemptState, wait: u64 },
    Done(JsonView),
    Fail(SessionFailureView),
}

impl View for AttemptNext {
    type V = NextView;

    open spec fn view(&self) -> NextView {
        match self {
            AttemptNext::Go { state, wait } => NextView::Go { state: *state, wait: *wait },
            AttemptNext::Done(v) => NextView::Done(v@),
            AttemptNext::Fail(f) => NextView::Fail(f@),
        }
    }
}

/// Something can come of what is done next.
pub open spec fn fits(op: TaskOperation, state: AttemptState, event: AttemptEvent) -> bool {
    match state {
        AttemptState::Recover { .. } => event is Recovered,
        AttemptState::Resolve { .. } => event is Client,
        AttemptState::Inspect => event is Fetched,
        AttemptState::Send => if op.wait_mode == TaskWaitMode::Immediate {
            event is Sent
        } else {
            event is Opened
        },
        AttemptState::Stream => event is Streamed,
        AttemptState::Subscribe => event is Opened,
        AttemptState::Subscription => event is Streamed,
        AttemptState::CheckReplacement { .. } => event is Replacement,
        AttemptState::FinalGet { .. } => event is Fetched,
    }
}

/// It goes on at once.
pub open spec fn go(state: AttemptState) -> NextView {
    NextView::Go { state, wait: 0 }
}

/// It ends because the time is over.
pub open spec fn timed_out(op: TaskOperation, m: MemoryView, reason: Seq<char>) -> NextView {
    NextView::Done(timeout_outcome(op, m.task_confirmed, m.last_task, reason))
}

/// What follows from an error: a recovery where one helps.
pub open spec fn after_error(e: ClientErrorView) -> NextView {
    match recovery_mode_for(e) {
        Some(mode) => go(AttemptState::Recover { mode }),
        None => NextView::Fail(SessionFailureView::Plain(client_error_text(e))),
    }
}

/// What follows from a recovery.
pub open spec fn after_recovery(
    op: TaskOperation,
    m: MemoryView,
    result: Result<(), RecoveryError>,
) -> NextView {
    match result {
        Ok(_) => go(AttemptState::Resolve { retry_delay_ms: CARD_RETRY_BASE_MS }),
        Err(e) => match e@ {
            RecoveryErrorView::Deadline => timed_out(op, m, "broker_unavailable"@),
            other => NextView::Fail(SessionFailureView::Plain(recovery_text(other))),
        },
    }
}

/// The longer of the waits for an agent that is not there.
pub open spec fn next_retry(ms: u64) -> u64 {
    if ms >= 500 {
        CARD_RETRY_MAX_MS
    } else {
        (ms * 2) as u64
    }
}

/// A wait for an agent that is not there, in microseconds.
pub open spec fn retry_wait(ms: u64, left: u64) -> u64 {
    if ms * 1000 <= left {
        (ms * 1000) as u64
    } else {
        left
    }
}

/// What follows from the card of the agent.
pub open spec fn after_card(
    op: TaskOperation,
    m: MemoryView,
    retry_delay_ms: u64,
    result: Result<(), OperationClientError>,
    left: u64,
) -> NextView {
    match result {
        Ok(_) => go(AttemptState::Inspect),
        Err(e) => if e@ is AgentUnavailable {
            if left == 0 {
                timed_out(op, m, "agent_unavailable"@)
            } else {
                NextView::Go {
                    state: AttemptState::Resolve { retry_delay_ms: next_retry(retry_delay_ms) },
                    wait: retry_wait(retry_delay_ms, left),
                }
            }
        } else {
            after_error(e@)
        },
    }
}

/// What is known once a task was seen.
pub open spec fn seen(m: MemoryView, task: TaskView) -> MemoryView {
    MemoryView { task_confirmed: true, last_task: Some(task), ..m }
}

/// What follows from asking what became of the task: it is sent again only if the
/// agent has said that it is not there, and only once.
pub open spec fn after_inspection(
    op: TaskOperation,
    m: MemoryView,
    fetched: Option<Result<TaskInfo, OperationClientError>>,
) -> (MemoryView, NextView) {
    match fetched {
        None => (m, timed_out(op, m, "deadline_expired"@)),
        Some(Ok(task)) => match identity_failure(op, task@) {
            Some(f) => (m, NextView::Fail(f)),
            None => (
                seen(m, task@),
                if terminal(task.state) || op.wait_mode == TaskWaitMode::Immediate {
                    NextView::Done(task_outcome(task@))
                } else {
                    go(AttemptState::Subscribe)
                },
            ),
        },
        Some(Err(e)) => if says_missing(e@) && op.normalized_request is Some
            && !m.resend_attempted {
            (MemoryView { resend_attempted: true, ..m }, go(AttemptState::Send))
        } else {
            (m, after_error(e@))
        },
    }
}

/// What follows from sending a message that is not waited for.
pub open spec fn after_sending(
    op: TaskOperation,
    m: MemoryView,
    sent: Option<Result<SendReply, OperationClientError>>,
) -> NextView {
    match sent {
        None => timed_out(op, m, "deadline_expired"@),
        Some(Ok(reply)) => match immediate_outcome(op, reply) {
            Ok(v) => NextView::Done(v),
            Err(f) => NextView::Fail(f),
        },
        Some(Err(e)) => after_error(e@),
    }
}

/// What follows from opening the stream of a message.
pub open spec fn after_opening(
    op: TaskOperation,
    m: MemoryView,
    opened: Option<Result<(), OperationClientError>>,
) -> NextView {
    match opened {
        None => timed_out(op, m, "deadline_expired"@),
        Some(Ok(_)) => go(AttemptState::Stream),
        Some(Err(e)) => after_error(e@),
    }
}

/// What follows from subscribing to a task.
pub open spec fn after_subscribing(
    op: TaskOperation,
    m: MemoryView,
    opened: Option<Result<(), OperationClientError>>,
) -> NextView {
    match opened {
        None => timed_out(op, m, "deadline_expired"@),
        Some(Ok(_)) => go(AttemptState::Subscription),
        Some(Err(e)) => lost_stream(e@, false),
    }
}

/// What follows from an error of a stream: it is looked whether the broker was
/// replaced.
pub open spec fn lost_stream(e: ClientErrorView, first: bool) -> NextView {
    if recovery_mode_for(e) is Some {
        go(AttemptState::CheckReplacement { resubscribe_if_working: first })
    } else {
        NextView::Fail(SessionFailureView::Plain(client_error_text(e)))
    }
}

/// What follows from the next event of a stream; the first stream is that of the
/// message, others are subscriptions.
pub open spec fn after_event(
    op: TaskOperation,
    m: MemoryView,
    first: bool,
    event: Option<Result<Option<StreamEvent>, OperationClientError>>,
) -> (MemoryView, NextView) {
    let stay = go(
        if first {
            AttemptState::Stream
        } else {
            AttemptState::Subscription
        },
    );
    match event {
        None => (m, timed_out(op, m, "deadline_expired"@)),
        Some(Err(e)) => (m, lost_stream(e@, first)),
        Some(Ok(None)) => (
            m,
            go(AttemptState::CheckReplacement { resubscribe_if_working: first }),
        ),
        Some(Ok(Some(event))) => match event {
            StreamEvent::Task(task) => match identity_failure(op, task@) {
                Some(f) => (m, NextView::Fail(f)),
                None => (
                    MemoryView {
                        task_confirmed: m.task_confirmed || first,
                        last_task: Some(task@),
                        ..m
                    },
                    if terminal(task.state) {
                        NextView::Done(task_outcome(task@))
                    } else {
                        stay
                    },
                ),
            },
            _ => (
                MemoryView {
                    task_confirmed: m.task_confirmed || (first && says_working(
                        event,
                        op.task_id@,
                    )),
                    ..m
                },
                stay,
            ),
        },
    }
}

/// What follows from looking whether the broker was replaced.
pub open spec fn after_check(
    op: TaskOperation,
    m: MemoryView,
    resubscribe_if_working: bool,
    result: Result<bool, RecoveryError>,
) -> NextView {
    match result {
        Ok(true) => go(AttemptState::Resolve { retry_delay_ms: CARD_RETRY_BASE_MS }),
        Ok(false) => go(AttemptState::FinalGet { resubscribe_if_working }),
        Err(e) => match e@ {
            RecoveryErrorView::Unavailable(_) => go(
                AttemptState::FinalGet { resubscribe_if_working },
            ),
            RecoveryErrorView::Deadline => timed_out(op, m, "deadline_expired"@),
            other => NextView::Fail(SessionFailureView::Plain(recovery_text(other))),
        },
    }
}

/// What follows from asking a last time what became of the task.
pub open spec fn after_final_get(
    op: TaskOperation,
    m: MemoryView,
    resubscribe_if_working: bool,
    fetched: Option<Result<TaskInfo, OperationClientError>>,
) -> (MemoryView, NextView) {
    match fetched {
        None => (m, timed_out(op, m, "deadline_expired"@)),
        Some(Ok(task)) => match identity_failure(op, task@) {
            Some(f) => (m, NextView::Fail(f)),
            None => if terminal(task.state) {
                (m, NextView::Done(task_outcome(task@)))
            } else if resubscribe_if_working {
                (seen(m, task@), go(AttemptState::Subscribe))
            } else {
                (m, NextView::Done(stream_lost_outcome(op, task@)))
            },
        },
        Some(Err(e)) => (m, after_error(e@)),
    }
}

/// One step of following a task.
pub open spec fn attempt(
    op: TaskOperation,
    m: MemoryView,
    state: AttemptState,
    event: AttemptEvent,
) -> (MemoryView, NextView) {
    match state {
        AttemptState::Recover { .. } => (m, after_recovery(op, m, event->Recovered_0)),
        AttemptState::Resolve { retry_delay_ms } => (
            m,
            after_card(op, m, retry_delay_ms, event->Client_0, event->Client_1),
        ),
        AttemptState::Inspect => after_inspection(op, m, event->Fetched_0),
        AttemptState::Send => (
            m,
            if op.wait_mode == TaskWaitMode::Immediate {
                after_sending(op, m, event->Sent_0)
            } else {
                after_opening(op, m, event->Opened_0)
            },
        ),
        AttemptState::Stream => after_event(op, m, true, event->Streamed_0),
        AttemptState::Subscribe => (m, after_subscribing(op, m, event->Opened_0)),
        AttemptState::Subscription => after_event(op, m, false, event->Streamed_0),
        AttemptState::CheckReplacement { resubscribe_if_working } => (
            m,
            after_check(op, m, resubscribe_if_working, event->Replacement_0),
        ),
        AttemptState::FinalGet { resubscribe_if_working } => after_final_get(
            op,
            m,
            resubscribe_if_working,
            event->Fetched_0,
        ),
    }
}

/// How following a task begins: what is known is nothing. A message is sent, a task
/// that is followed again is asked for.
pub open spec fn begun(op: TaskOperation, client: Result<(), OperationClientError>) -> NextView {
    match client {
        Err(e) => after_error(e@),
        Ok(_) => if op.normalized_request is Some {
            go(AttemptState::Send)
        } else {
            go(AttemptState::Inspect)
        },
    }
}

fn next(state: AttemptState) -> (r: AttemptNext)
    ensures
        r@ == go(state),
{
    AttemptNext::Go { state, wait: 0 }
}

fn time_over(operation: &TaskOperation, memory: &AttemptMemory, reason: &str) -> (r: AttemptNext)
    ensures
        r@ == timed_out(*operation, memory@, reason@),
{
    AttemptNext::Done(
        operation_timeout_result(operation, memory.task_confirmed, &memory.last_task, reason),
    )
}

fn on_error(error: &OperationClientError) -> (r: AttemptNext)
    ensures
        r@ == after_error(error@),
{
    match a2a_error_recovery_mode(error) {
        Some(mode) => next(AttemptState::Recover { mode }),
        None => AttemptNext::Fail(SessionFailure::Plain(error.text())),
    }
}

fn on_stream_error(error: &OperationClientError, first: bool) -> (r: AttemptNext)
    ensures
        r@ == lost_stream(error@, first),
{
    if a2a_error_recovery_mode(error).is_some() {
        next(AttemptState::CheckReplacement { resubscribe_if_working: first })
    } else {
        AttemptNext::Fail(SessionFailure::Plain(error.text()))
    }
}

fn on_recovery(
    operation: &TaskOperation,
    memory: &AttemptMemory,
    result: &Result<(), RecoveryError>,
) -> (r: AttemptNext)
    ensures
        r@ == after_recovery(*operation, memory@, *result),
{
    match result {
        Ok(_) => next(AttemptState::Resolve { retry_delay_ms: CARD_RETRY_BASE_MS }),
        Err(e) => match e {
            RecoveryError::Deadline => time_over(operation, memory, "broker_unavailable"),
            _ => AttemptNext::Fail(SessionFailure::Plain(e.text())),
        },
    }
}

fn on_card(
    operation: &TaskOperation,
    memory: &AttemptMemory,
    retry_delay_ms: u64,
    result: &Result<(), OperationClientError>,
    left: u64,
) -> (r: AttemptNext)
    ensures
        r@ == after_card(*operation, memory@, retry_delay_ms, *result, left),
{
    match result {
        Ok(_) => next(AttemptState::Inspect),
        Err(e) => match e {
            OperationClientError::AgentUnavailable(_) => {
                if left == 0 {
                    return time_over(operation, memory, "agent_unavailable");
                }
                let longer: u64 = if retry_delay_ms >= 500 {
                    CARD_RETRY_MAX_MS
                } else {
                    retry_delay_ms * 2
                };
                let wait: u64 = if retry_delay_ms <= left / 1000 {
                    retry_delay_ms * 1000
                } else {
                    left
                };
                AttemptNext::Go { state: AttemptState::Resolve { retry_delay_ms: longer }, wait }
            },
            _ => on_error(e),
        },
    }
}

fn on_inspection(
    operation: &TaskOperation,
    memory: AttemptMemory,
    fetched: Option<Result<TaskInfo, OperationClientError>>,
) -> (r: (AttemptMemory, AttemptNext))
    ensures
        (r.0@, r.1@) == after_inspection(*operation, memory@, fetched),
{
    let mut memory = memory;
    match fetched {
        None => {
            let over = time_over(operation, &memory, "deadline_expired");
            (memory, over)
        },
        Some(Ok(task)) => match validate_operation_task(operation, &task) {
            Err(f) => (memory, AttemptNext::Fail(f)),
            Ok(_) => {
                let then = if task.state.is_terminal() || operation.wait_mode
                    == TaskWaitMode::Immediate {
                    AttemptNext::Done(task_result(&task))
                } else {
                    next(AttemptState::Subscribe)
                };
                memory.task_confirmed = true;
                memory.last_task = Some(task);
                (memory, then)
            },
        },
        Some(Err(e)) => {
            if a2a_task_is_definitely_missing(&e) && operation.normalized_request.is_some()
                && !memory.resend_attempted {
                memory.resend_attempted = true;
                (memory, next(AttemptState::Send))
            } else {
                (memory, on_error(&e))
            }
        },
    }
}

fn on_event(
    operation: &TaskOperation,
    memory: AttemptMemory,
    first: bool,
    event: Option<Result<Option<StreamEvent>, OperationClientError>>,
) -> (r: (AttemptMemory, AttemptNext))
    ensures
        (r.0@, r.1@) == after_event(*operation, memory@, first, event),
{
    let mut memory = memory;
    let stay = next(
        if first {
            AttemptState::Stream
        } else {
            AttemptState::Subscription
        },
    );
    match event {
        None => {
            let over = time_over(operation, &memory, "deadline_expired");
            (memory, over)
        },
        Some(Err(e)) => (memory, on_stream_error(&e, first)),
        Some(Ok(None)) => (
            memory,
            next(AttemptState::CheckReplacement { resubscribe_if_working: first }),
        ),
        Some(Ok(Some(event))) => {
            let working = working_stream_event(&event, operation.task_id.as_str());
            match event {
                StreamEvent::Task(task) => match validate_operation_task(operation, &task) {
                    Err(f) => (memory, AttemptNext::Fail(f)),
                    Ok(_) => {
                        let then = if task.state.is_terminal() {
                            AttemptNext::Done(task_result(&task))
                        } else {
                            stay
                        };
                        memory.task_confirmed = memory.task_confirmed || first;
                        memory.last_task = Some(task);
                        (memory, then)
                    },
                },
                _ => {
                    memory.task_confirmed = memory.task_confirmed || (first && working);
                    (memory, stay)
                },
            }
        },
    }
}

fn on_check(
    operation: &TaskOperation,
    memory: &AttemptMemory,
    resubscribe_if_working: bool,
    result: &Result<bool, RecoveryError>,
) -> (r: AttemptNext)
    ensures
        r@ == after_check(*operation, memory@, resubscribe_if_working, *result),
{
    match result {
        Ok(replaced) => if *replaced {
            next(AttemptState::Resolve { retry_delay_ms: CARD_RETRY_BASE_MS })
        } else {
            next(AttemptState::FinalGet { resubscribe_if_working })
        },
        Err(e) => match e {
            RecoveryError::Unavailable(_) => next(AttemptState::FinalGet { resubscribe_if_working }),
            RecoveryError::Deadline => time_over(operation, memory, "deadline_expired"),
            _ => AttemptNext::Fail(SessionFailure::Plain(e.text())),
        },
    }
}

fn on_final_get(
    operation: &TaskOperation,
    memory: AttemptMemory,
    resubscribe_if_working: bool,
    fetched: Option<Result<TaskInfo, OperationClientError>>,
) -> (r: (AttemptMemory, AttemptNext))
    ensures
        (r.0@, r.1@) == after_final_get(*operation, memory@, resubscribe_if_working, fetched),
{
    let mut memory = memory;
    match fetched {
        None => {
            let over = time_over(operation, &memory, "deadline_expired");
            (memory, over)
        },
        Some(Ok(task)) => match validate_operation_task(operation, &task) {
            Err(f) => (memory, AttemptNext::Fail(f)),
            Ok(_) => {
                if task.state.is_terminal() {
                    (memory, AttemptNext::Done(task_result(&task)))
                } else if resubscribe_if_working {
                    memory.task_confirmed = true;
                    memory.last_task = Some(task);
                    (memory, next(AttemptState::Subscribe))
                } else {
                    (memory, AttemptNext::Done(reachable_stream_lost_result(operation, &task)))
                }
            },
        },
        Some(Err(e)) => (memory, on_error(&e)),
    }
}

fn on_sending(
    operation: &TaskOperation,
    memory: &AttemptMemory,
    sent: &Option<Result<SendReply, OperationClientError>>,
) -> (r: AttemptNext)
    ensures
        r@ == after_sending(*operation, memory@, *sent),
{
    match sent {
        None => time_over(operation, memory, "deadline_expired"),
        Some(Ok(reply)) => match immediate_result(operation, reply) {
            Ok(v) => AttemptNext::Done(v),
            Err(f) => AttemptNext::Fail(f),
        },
        Some(Err(e)) => on_error(e),
    }
}

/// Begins to follow a task, once it is known whether its agent can be reached.
pub fn begin_operation(operation: &TaskOperation, client: &Result<(), OperationClientError>) -> (r: (
    AttemptMemory,
    AttemptNext,
))
    ensures
        r.0@ == (MemoryView { task_confirmed: false, last_task: None, resend_attempted: false }),
        r.1@ == begun(*operation, *client),
{
    let memory = AttemptMemory {
        task_confirmed: false,
        last_task: None,
        resend_attempted: false,
    };
    let then = match client {
        Err(e) => on_error(e),
        Ok(_) => if operation.normalized_request.is_some() {
            next(AttemptState::Send)
        } else {
            next(AttemptState::Inspect)
        },
    };
    (memory, then)
}

/// Follows a task by one step: what came of the last thing that was done decides
/// what is done next, or what it ends with.
pub fn run_task_attempt(
    operation: &TaskOperation,
    memory: AttemptMemory,
    state: AttemptState,
    event: AttemptEvent,
) -> (r: (AttemptMemory, AttemptNext))
    requires
        fits(*operation, state, event),
    ensures
        (r.0@, r.1@) == attempt(*operation, memory@, state, event),
{
    match (state, event) {
        (AttemptState::Recover { .. }, AttemptEvent::Recovered(result)) => {
            let then = on_recovery(operation, &memory, &result);
            (memory, then)
        },
        (AttemptState::Resolve { retry_delay_ms }, AttemptEvent::Client(result, left)) => {
            let then = on_card(operation, &memory, retry_delay_ms, &result, left);
            (memory, then)
        },
        (AttemptState::Inspect, AttemptEvent::Fetched(fetched)) => on_inspection(
            operation,
            memory,
            fetched,
        ),
        (AttemptState::Send, AttemptEvent::Sent(sent)) => {
            let then = on_sending(operation, &memory, &sent);
            (memory, then)
        },
        (AttemptState::Send, AttemptEvent::Opened(opened)) => {
            let then = match &opened {
                None => time_over(operation, &memory, "deadline_expired"),
                Some(Ok(_)) => next(AttemptState::Stream),
                Some(Err(e)) => on_error(e),
            };
            (memory, then)
        },
        (AttemptState::Stream, AttemptEvent::Streamed(event)) => on_event(
            operation,
            memory,
            true,
            event,
        ),
        (AttemptState::Subscribe, AttemptEvent::Opened(opened)) => {
            let then = match &opened {
                None => time_over(operation, &memory, "deadline_expired"),
                Some(Ok(_)) => next(AttemptState::Subscription),
                Some(Err(e)) => on_stream_error(e, false),
            };
            (memory, then)
        },
        (AttemptState::Subscription, AttemptEvent::Streamed(event)) => on_event(
            operation,
            memory,
            false,
            event,
        ),
        (
            AttemptState::CheckReplacement { resubscribe_if_working },
            AttemptEvent::Replacement(result),
        ) => {
            let then = on_check(operation, &memory, resubscribe_if_working, &result);
            (memory, then)
        },
        (
            AttemptState::FinalGet { resubscribe_if_working },
            AttemptEvent::Fetched(fetched),
        ) => on_final_get(operation, memory, resubscribe_if_working, fetched),
        (_, _) => {
            assert(false);
            (memory, next(state))
        },
    }
}

/// How often a message is sent while its task is followed.
pub open spec fn sends(
    op: TaskOperation,
    m: MemoryView,
    state: AttemptState,
    events: Seq<AttemptEvent>,
) -> nat
    decreases events.len(),
{
    let now: nat = if state == AttemptState::Send {
        1
    } else {
        0
    };
    if events.len() == 0 {
        now
    } else {
        let (after, then) = attempt(op, m, state, events[0]);
        match then {
            NextView::Go { state: following, .. } => now + sends(
                op,
                after,
                following,
                events.skip(1),
            ),
            _ => now,
        }
    }
}

proof fn lemma_sends_again_once(
    op: TaskOperation,
    m: MemoryView,
    state: AttemptState,
    events: Seq<AttemptEvent>,
)
    ensures
        sends(op, m, state, events) <= (if state == AttemptState::Send {
            1nat
        } else {
            0nat
        }) + (if m.resend_attempted || op.normalized_request is None {
            0nat
        } else {
            1nat
        }),
    decreases events.len(),
{
    if events.len() > 0 {
        let (after, then) = attempt(op, m, state, events[0]);
        match then {
            NextView::Go { state: following, .. } => {
                lemma_sends_again_once(op, after, following, events.skip(1));
            },
            _ => {},
        }
    }
}

/// Whatever happens, the message of an operation is sent at most twice, and that of
/// a task that is followed again is not sent at all.
pub proof fn law_message_is_sent_again_at_most_once(
    op: TaskOperation,
    client: Result<(), OperationClientError>,
    events: Seq<AttemptEvent>,
)
    ensures
        match begun(op, client) {
            NextView::Go { state, .. } => ({
                let m = MemoryView {
                    task_confirmed: false,
                    last_task: None,
                    resend_attempted: false,
                };
                let n = sends(op, m, state, events);
                n <= 2 && (op.normalized_request is None ==> n == 0)
            }),
            _ => true,
        },
{
    match begun(op, client) {
        NextView::Go { state, .. } => {
            let m = MemoryView { task_confirmed: false, last_task: None, resend_attempted: false };
            lemma_sends_again_once(op, m, state, events);
        },
        _ => {},
    }
}

/// A message is sent again only where the agent has said that its task is not
/// there: a lost connection alone never leads to a second message.
pub proof fn law_only_a_missing_task_is_sent_again(
    op: TaskOperation,
    m: MemoryView,
    state: AttemptState,
    event: AttemptEvent,
)
    requires
        fits(op, state, event),
        attempt(op, m, state, event).1 == go(AttemptState::Send),
    ensures
        state == AttemptState::Inspect,
        !m.resend_attempted,
        event->Fetched_0 is Some && event->Fetched_0->0 is Err && says_missing(
            event->Fetched_0->0->Err_0@,
        ),
        attempt(op, m, state, event).0.resend_attempted,
{
}

/// What is known of a task is never forgotten.
pub proof fn law_confirmation_is_kept(
    op: TaskOperation,
    m: MemoryView,
    state: AttemptState,
    event: AttemptEvent,
)
    requires
        fits(op, state, event),
    ensures
        m.task_confirmed ==> attempt(op, m, state, event).0.task_confirmed,
        m.last_task is Some ==> attempt(op, m, state, event).0.last_task is Some,
        m.resend_attempted ==> attempt(op, m, state, event).0.resend_attempted,
{
}

/// A task that is remembered is the one of the operation.
pub proof fn law_remembered_task_fits(
    op: TaskOperation,
    m: MemoryView,
    state: AttemptState,
    event: AttemptEvent,
)
    requires
        fits(op, state, event),
        m.last_task is Some ==> task_fits(op, m.last_task->0),
    ensures
        attempt(op, m, state, event).0.last_task is Some ==> task_fits(
            op,
            attempt(op, m, state, event).0.last_task->0,
        ),
{
}

/// The name of the task in a result.
pub open spec fn result_task_id(v: JsonView) -> Option<Seq<char>> {
    json_get_text(v, "task_id"@)
}

proof fn lemma_result_names()
    ensures
        "agent"@ != "task_id"@,
        "conversation_id"@ != "task_id"@,
        "recovery_reason"@ != "task_id"@,
        "requested_agent"@ != "task_id"@,
        "resume_task_id"@ != "task_id"@,
        "state"@ != "task_id"@,
        "task_confirmed"@ != "task_id"@,
        "stream_lost"@ != "task_id"@,
        "metadata"@ != "task_id"@,
{
    reveal_strlit("agent");
    reveal_strlit("conversation_id");
    reveal_strlit("recovery_reason");
    reveal_strlit("requested_agent");
    reveal_strlit("resume_task_id");
    reveal_strlit("state");
    reveal_strlit("task_confirmed");
    reveal_strlit("stream_lost");
    reveal_strlit("metadata");
    reveal_strlit("task_id");
    assert("task_id"@.len() == 7);
    assert("agent"@.len() == 5);
    assert("conversation_id"@.len() == 15);
    assert("recovery_reason"@.len() == 15);
    assert("requested_agent"@.len() == 15);
    assert("resume_task_id"@.len() == 14);
    assert("state"@.len() == 5);
    assert("task_confirmed"@.len() == 14);
    assert("stream_lost"@.len() == 11);
    assert("metadata"@.len() == 8);
}

proof fn lemma_field_skip(fields: Seq<(Seq<char>, JsonView)>, name: Seq<char>, n: int)
    requires
        0 <= n < fields.len(),
        fields[n].0 == name,
        forall|i: int| 0 <= i < n ==> (#[trigger] fields[i]).0 != name,
    ensures
        field(fields, name) == Some(fields[n].1),
    decreases n,
{
    if n > 0 {
        let rest = fields.skip(1);
        assert(fields[0].0 != name);
        assert forall|i: int| 0 <= i < n - 1 implies (#[trigger] rest[i]).0 != name by {
            assert(rest[i] == fields[i + 1]);
        }
        lemma_field_skip(rest, name, n - 1);
    }
}

/// The identity of a task survives everything that happens to its connection: every
/// result of an operation names the task that the operation was begun with.
pub proof fn law_results_name_the_task_of_the_operation(
    op: TaskOperation,
    m: MemoryView,
    state: AttemptState,
    event: AttemptEvent,
)
    requires
        fits(op, state, event),
    ensures
        match attempt(op, m, state, event).1 {
            NextView::Done(v) => result_task_id(v) == Some(op.task_id@),
            _ => true,
        },
{
    lemma_result_names();
    match attempt(op, m, state, event).1 {
        NextView::Done(v) => {
            let fields = v->Object_0;
            if fields.len() == 10 {
                lemma_field_skip(fields, "task_id"@, 7);
            } else if fields.len() == 8 {
                lemma_field_skip(fields, "task_id"@, 6);
            } else if fields.len() == 4 {
                lemma_field_skip(fields, "task_id"@, 3);
            } else {
                lemma_field_skip(fields, "task_id"@, 3);
            }
        },
        _ => {},
    }
}

/// While an agent is not there the waits grow to a second and no further, and none
/// goes past the time that is left.
pub proof fn law_waits_for_an_agent_are_bounded(ms: u64, left: u64)
    requires
        CARD_RETRY_BASE_MS <= ms <= CARD_RETRY_MAX_MS,
        left > 0,
    ensures
        ms <= next_retry(ms) <= CARD_RETRY_MAX_MS,
        0 < retry_wait(ms, left) <= left,
        retry_wait(ms, left) <= CARD_RETRY_MAX_MS * 1000,
{
}

/// The states in which a task has ended.
pub open spec fn ended_states() -> Set<TaskPhase> {
    set![TaskPhase::Completed, TaskPhase::Failed, TaskPhase::Canceled, TaskPhase::Rejected]
}

/// The task that something tells of, if it tells of any: one that was asked for, or one
/// in an event of a stream.
pub open spec fn told_task(event: AttemptEvent) -> Option<TaskInfo> {
    match event {
        AttemptEvent::Fetched(Some(Ok(task))) => Some(task),
        AttemptEvent::Streamed(Some(Ok(Some(StreamEvent::Task(task))))) => Some(task),
        _ => None,
    }
}

/// The error that something ends in, if it does.
pub open spec fn told_error(event: AttemptEvent) -> Option<OperationClientError> {
    match event {
        AttemptEvent::Client(Err(e), _) => Some(e),
        AttemptEvent::Fetched(Some(Err(e))) => Some(e),
        AttemptEvent::Sent(Some(Err(e))) => Some(e),
        AttemptEvent::Opened(Some(Err(e))) => Some(e),
        AttemptEvent::Streamed(Some(Err(e))) => Some(e),
        _ => None,
    }
}

/// Nothing came of it in time.
pub open spec fn out_of_time(event: AttemptEvent) -> bool {
    match event {
        AttemptEvent::Fetched(None) => true,
        AttemptEvent::Sent(None) => true,
        AttemptEvent::Opened(None) => true,
        AttemptEvent::Streamed(None) => true,
        _ => false,
    }
}

proof fn lemma_outcome_fields(op: TaskOperation, m: MemoryView, task: TaskView, reason: Seq<char>)
    ensures
        json_get(task_outcome(task), "conversation_id"@) == Some(JsonView::Text(task.context_id)),
        json_get(task_outcome(task), "metadata"@) == Some(
            match task.metadata {
                Some(v) => v,
                None => JsonView::Object(Seq::empty()),
            },
        ),
        json_get(task_outcome(task), "state"@) == Some(JsonView::Text(state_text(task.state))),
        json_get(task_outcome(task), "text"@) == Some(
            match task.text {
                Some(t) => JsonView::Text(t),
                None => JsonView::Null,
            },
        ),
        json_get(timeout_outcome(op, m.task_confirmed, m.last_task, reason), "timed_out"@) == Some(
            JsonView::Bool(true),
        ),
        json_get(timeout_outcome(op, m.task_confirmed, m.last_task, reason), "recovery_reason"@)
            == Some(JsonView::Text(reason)),
        json_get(timeout_outcome(op, m.task_confirmed, m.last_task, reason), "agent"@) == Some(
            JsonView::Text(op.agent@),
        ),
        json_get(timeout_outcome(op, m.task_confirmed, m.last_task, reason), "requested_agent"@)
            == Some(JsonView::Text(op.requested_agent@)),
        json_get(timeout_outcome(op, m.task_confirmed, m.last_task, reason), "resume_task_id"@)
            == Some(JsonView::Text(op.task_id@)),
        json_get(timeout_outcome(op, m.task_confirmed, m.last_task, reason), "task_confirmed"@)
            == Some(JsonView::Bool(m.task_confirmed)),
        json_get(timeout_outcome(op, m.task_confirmed, m.last_task, reason), "task_reachable"@)
            == Some(JsonView::Bool(m.task_confirmed)),
        json_get(timeout_outcome(op, m.task_confirmed, m.last_task, reason), "state"@) == Some(
            JsonView::Text(
                match m.last_task {
                    Some(task) => state_text(task.state),
                    None => if m.task_confirmed {
                        "working"@
                    } else {
                        "unknown"@
                    },
                },
            ),
        ),
        json_get(timeout_outcome(op, m.task_confirmed, m.last_task, reason), "conversation_id"@)
            == Some(
            match m.last_task {
                Some(task) => JsonView::Text(task.context_id),
                None => match op.context_id {
                    Some(id) => JsonView::Text(id@),
                    None => JsonView::Null,
                },
            },
        ),
        json_get(stream_lost_outcome(op, task), "stream_lost"@) == Some(JsonView::Bool(true)),
        json_get(stream_lost_outcome(op, task), "agent"@) == Some(JsonView::Text(op.agent@)),
        json_get(stream_lost_outcome(op, task), "conversation_id"@) == Some(
            JsonView::Text(task.context_id),
        ),
        json_get(stream_lost_outcome(op, task), "resume_task_id"@) == Some(
            JsonView::Text(op.task_id@),
        ),
        json_get(stream_lost_outcome(op, task), "state"@) == Some(
            JsonView::Text(state_text(task.state)),
        ),
        json_get(stream_lost_outcome(op, task), "task_confirmed"@) == Some(JsonView::Bool(true)),
        json_get(stream_lost_outcome(op, task), "task_reachable"@) == Some(JsonView::Bool(true)),
{
    lemma_result_names();
    lemma_more_result_names();
    let ended = task_outcome(task)->Object_0;
    lemma_field_skip(ended, "conversation_id"@, 0);
    lemma_field_skip(ended, "metadata"@, 1);
    lemma_field_skip(ended, "state"@, 2);
    lemma_field_skip(ended, "text"@, 4);
    let late = timeout_outcome(op, m.task_confirmed, m.last_task, reason)->Object_0;
    lemma_field_skip(late, "agent"@, 0);
    lemma_field_skip(late, "conversation_id"@, 1);
    lemma_field_skip(late, "recovery_reason"@, 2);
    lemma_field_skip(late, "requested_agent"@, 3);
    lemma_field_skip(late, "resume_task_id"@, 4);
    lemma_field_skip(late, "state"@, 5);
    lemma_field_skip(late, "task_confirmed"@, 6);
    lemma_field_skip(late, "task_reachable"@, 8);
    lemma_field_skip(late, "timed_out"@, 9);
    let lost = stream_lost_outcome(op, task)->Object_0;
    lemma_field_skip(lost, "agent"@, 0);
    lemma_field_skip(lost, "conversation_id"@, 1);
    lemma_field_skip(lost, "resume_task_id"@, 2);
    lemma_field_skip(lost, "state"@, 3);
    lemma_field_skip(lost, "stream_lost"@, 4);
    lemma_field_skip(lost, "task_confirmed"@, 5);
    lemma_field_skip(lost, "task_reachable"@, 7);
}

proof fn lemma_more_result_names()
    ensures
        seq![
            "agent"@,
            "conversation_id"@,
            "metadata"@,
            "recovery_reason"@,
            "requested_agent"@,
            "resume_task_id"@,
            "state"@,
            "stream_lost"@,
            "task_confirmed"@,
            "task_id"@,
            "task_reachable"@,
            "text"@,
            "timed_out"@,
        ].no_duplicates(),
{
    reveal_strlit("agent");
    reveal_strlit("conversation_id");
    reveal_strlit("recovery_reason");
    reveal_strlit("requested_agent");
    reveal_strlit("resume_task_id");
    reveal_strlit("state");
    reveal_strlit("task_confirmed");
    reveal_strlit("stream_lost");
    reveal_strlit("metadata");
    reveal_strlit("task_id");
    reveal_strlit("task_reachable");
    reveal_strlit("text");
    reveal_strlit("timed_out");
    assert("agent"@[0] == 'a');
    assert("state"@[0] == 's');
    assert("conversation_id"@[0] == 'c');
    assert("recovery_reason"@[0] == 'r' && "recovery_reason"@[2] == 'c');
    assert("requested_agent"@[0] == 'r' && "requested_agent"@[2] == 'q');
    assert("resume_task_id"@[0] == 'r');
    assert("task_confirmed"@[0] == 't' && "task_confirmed"@[5] == 'c');
    assert("task_reachable"@[0] == 't' && "task_reachable"@[5] == 'r');
    let all = seq![
        "agent"@,
        "conversation_id"@,
        "metadata"@,
        "recovery_reason"@,
        "requested_agent"@,
        "resume_task_id"@,
        "state"@,
        "stream_lost"@,
        "task_confirmed"@,
        "task_id"@,
        "task_reachable"@,
        "text"@,
        "timed_out"@,
    ];
    assert(all[0].len() == 5 && all[1].len() == 15 && all[2].len() == 8 && all[3].len() == 15
        && all[4].len() == 15 && all[5].len() == 14 && all[6].len() == 5 && all[7].len() == 11
        && all[8].len() == 14 && all[9].len() == 7 && all[10].len() == 14 && all[11].len() == 4
        && all[12].len() == 9);
}

/// An operation that waits for the end of its task ends with the outcome of a task only
/// where that task has ended. Otherwise its result says that the time is over, or that
/// the stream was lost.
pub proof fn law_waiting_ends_with_an_ended_task(
    op: TaskOperation,
    m: MemoryView,
    state: AttemptState,
    event: AttemptEvent,
)
    requires
        fits(op, state, event),
        op.wait_mode == TaskWaitMode::Terminal,
    ensures
        match attempt(op, m, state, event).1 {
            NextView::Done(v) => {
                ||| json_get(v, "timed_out"@) == Some(JsonView::Bool(true))
                ||| json_get(v, "stream_lost"@) == Some(JsonView::Bool(true))
                ||| told_task(event) is Some && ended_states().contains(told_task(event)->0.state)
                    && json_get(v, "state"@) == Some(
                    JsonView::Text(state_text(told_task(event)->0.state)),
                )
            },
            _ => true,
        },
{
    if told_task(event) is Some {
        lemma_outcome_fields(op, m, told_task(event)->0@, "deadline_expired"@);
    }
    lemma_late_results(op, m);
}

proof fn lemma_late_results(op: TaskOperation, m: MemoryView)
    ensures
        json_get(
            timeout_outcome(op, m.task_confirmed, m.last_task, "deadline_expired"@),
            "timed_out"@,
        ) == Some(JsonView::Bool(true)),
        json_get(
            timeout_outcome(op, m.task_confirmed, m.last_task, "broker_unavailable"@),
            "timed_out"@,
        ) == Some(JsonView::Bool(true)),
        json_get(
            timeout_outcome(op, m.task_confirmed, m.last_task, "agent_unavailable"@),
            "timed_out"@,
        ) == Some(JsonView::Bool(true)),
{
    let any = TaskView {
        id: op.task_id@,
        context_id: op.task_id@,
        state: TaskPhase::Working,
        text: None,
        metadata: None,
    };
    lemma_outcome_fields(op, m, any, "deadline_expired"@);
    lemma_outcome_fields(op, m, any, "broker_unavailable"@);
    lemma_outcome_fields(op, m, any, "agent_unavailable"@);
}

/// A task of the operation that has ended ends it, wherever it is told of, and the result
/// says what the task says: its state, its text, its metadata and its conversation.
pub proof fn law_an_ended_task_is_reported(
    op: TaskOperation,
    m: MemoryView,
    state: AttemptState,
    event: AttemptEvent,
)
    requires
        fits(op, state, event),
        told_task(event) is Some,
        ended_states().contains(told_task(event)->0.state),
        told_task(event)->0.id@ == op.task_id@,
        op.context_id is Some ==> told_task(event)->0.context_id@ == op.context_id->0@,
    ensures
        attempt(op, m, state, event).1 is Done,
        ({
            let task = told_task(event)->0;
            let v = attempt(op, m, state, event).1->Done_0;
            &&& json_get(v, "state"@) == Some(JsonView::Text(state_text(task.state)))
            &&& json_get(v, "text"@) == Some(
                match task.text {
                    Some(t) => JsonView::Text(t@),
                    None => JsonView::Null,
                },
            )
            &&& json_get(v, "metadata"@) == Some(
                match task.metadata {
                    Some(held) => held@,
                    None => JsonView::Object(Seq::empty()),
                },
            )
            &&& json_get(v, "conversation_id"@) == Some(JsonView::Text(task.context_id@))
        }),
{
    lemma_outcome_fields(op, m, told_task(event)->0@, "deadline_expired"@);
}

/// A task of the operation that goes on is followed while its end is waited for: it is
/// subscribed to once it was asked for, and its stream is read on. Only a task that was
/// asked for a last time, after its subscription was lost, is given up, and the result
/// then says that the stream was lost, what the task was last, and by which name it can
/// be followed again.
pub proof fn law_a_running_task_is_followed(
    op: TaskOperation,
    m: MemoryView,
    state: AttemptState,
    event: AttemptEvent,
)
    requires
        fits(op, state, event),
        op.wait_mode == TaskWaitMode::Terminal,
        told_task(event) is Some,
        !ended_states().contains(told_task(event)->0.state),
        told_task(event)->0.id@ == op.task_id@,
        op.context_id is Some ==> told_task(event)->0.context_id@ == op.context_id->0@,
    ensures
        ({
            let task = told_task(event)->0;
            let (after, then) = attempt(op, m, state, event);
            &&& state == AttemptState::Inspect ==> then == go(AttemptState::Subscribe)
            &&& state == AttemptState::Stream ==> then == go(AttemptState::Stream)
            &&& state == AttemptState::Subscription ==> then == go(AttemptState::Subscription)
            &&& state == (AttemptState::FinalGet { resubscribe_if_working: true }) ==> then == go(
                AttemptState::Subscribe,
            )
            &&& state == (AttemptState::FinalGet { resubscribe_if_working: false }) ==> then is Done
                && json_get(then->Done_0, "stream_lost"@) == Some(JsonView::Bool(true))
                && json_get(then->Done_0, "state"@) == Some(JsonView::Text(state_text(task.state)))
                && json_get(then->Done_0, "resume_task_id"@) == Some(JsonView::Text(op.task_id@))
                && json_get(then->Done_0, "agent"@) == Some(JsonView::Text(op.agent@)) && json_get(
                then->Done_0,
                "conversation_id"@,
            ) == Some(JsonView::Text(task.context_id@)) && json_get(
                then->Done_0,
                "task_confirmed"@,
            ) == Some(JsonView::Bool(true)) && json_get(then->Done_0, "task_reachable"@) == Some(
                JsonView::Bool(true),
            )
            &&& !(then is Done) ==> after.last_task == Some(task@)
            &&& state == AttemptState::Inspect || state == AttemptState::Stream || state
                == (AttemptState::FinalGet { resubscribe_if_working: true })
                ==> after.task_confirmed
        }),
{
    lemma_outcome_fields(op, m, told_task(event)->0@, "deadline_expired"@);
}

/// A task of another name, or of another conversation, is never taken for the task of the
/// operation: the operation fails.
pub proof fn law_another_task_is_refused(
    op: TaskOperation,
    m: MemoryView,
    state: AttemptState,
    event: AttemptEvent,
)
    requires
        fits(op, state, event),
        told_task(event) is Some,
        told_task(event)->0.id@ != op.task_id@ || (op.context_id is Some
            && told_task(event)->0.context_id@ != op.context_id->0@),
    ensures
        attempt(op, m, state, event).1 is Fail,
        attempt(op, m, state, event).0 == m,
{
}

/// When the time is over the operation ends, and the result has all that is needed to
/// follow the task again and says what is known of it.
pub proof fn law_time_over_leaves_the_names(
    op: TaskOperation,
    m: MemoryView,
    state: AttemptState,
    event: AttemptEvent,
)
    requires
        fits(op, state, event),
        out_of_time(event),
    ensures
        attempt(op, m, state, event).1 is Done,
        ({
            let v = attempt(op, m, state, event).1->Done_0;
            &&& json_get(v, "timed_out"@) == Some(JsonView::Bool(true))
            &&& json_get(v, "recovery_reason"@) == Some(JsonView::Text("deadline_expired"@))
            &&& json_get(v, "agent"@) == Some(JsonView::Text(op.agent@))
            &&& json_get(v, "requested_agent"@) == Some(JsonView::Text(op.requested_agent@))
            &&& json_get(v, "resume_task_id"@) == Some(JsonView::Text(op.task_id@))
            &&& json_get(v, "task_confirmed"@) == Some(JsonView::Bool(m.task_confirmed))
            &&& json_get(v, "task_reachable"@) == Some(JsonView::Bool(m.task_confirmed))
            &&& json_get(v, "state"@) == Some(
                JsonView::Text(
                    if m.last_task is Some {
                        state_text(m.last_task->0.state)
                    } else if m.task_confirmed {
                        "working"@
                    } else {
                        "unknown"@
                    },
                ),
            )
            &&& json_get(v, "conversation_id"@) == Some(
                if m.last_task is Some {
                    JsonView::Text(m.last_task->0.context_id)
                } else if op.context_id is Some {
                    JsonView::Text(op.context_id->0@)
                } else {
                    JsonView::Null
                },
            )
        }),
{
    let any = TaskView {
        id: op.task_id@,
        context_id: op.task_id@,
        state: TaskPhase::Working,
        text: None,
        metadata: None,
    };
    lemma_outcome_fields(op, m, any, "deadline_expired"@);
}

/// A connection that was lost is recovered and never ends the operation: the broker is
/// replaced, or the registration is made anew, or, where a stream was lost, it is first
/// looked whether the broker was replaced. An error that no recovery helps against fails
/// the operation with its own text.
pub proof fn law_lost_connections_are_recovered(
    op: TaskOperation,
    m: MemoryView,
    state: AttemptState,
    event: AttemptEvent,
)
    requires
        fits(op, state, event),
        told_error(event) is Some,
        !(told_error(event)->0 is AgentUnavailable),
        !(state == AttemptState::Inspect && says_missing(told_error(event)->0@)),
    ensures
        ({
            let e = told_error(event)->0;
            let then = attempt(op, m, state, event).1;
            let streaming = state == AttemptState::Stream || state == AttemptState::Subscribe
                || state == AttemptState::Subscription;
            let lost = e is Connection || e is Deadline || e is RegistrationAuthLost;
            &&& lost && streaming ==> then == go(
                AttemptState::CheckReplacement {
                    resubscribe_if_working: state == AttemptState::Stream,
                },
            )
            &&& !streaming && (e is Connection || e is Deadline) ==> then == go(
                AttemptState::Recover { mode: RecoveryMode::BrokerReplacement },
            )
            &&& !streaming && e is RegistrationAuthLost ==> then == go(
                AttemptState::Recover { mode: RecoveryMode::RegistrationRefresh },
            )
            &&& !lost ==> then == NextView::Fail(
                SessionFailureView::Plain(client_error_text(e@)),
            )
        }),
{
}

/// After a recovery the agent is looked for again, then the task is asked for, and only a
/// message whose task is not there is sent anew. A stream that ended leads to a last look
/// at the task unless the broker was replaced.
pub proof fn law_recovery_leads_back_to_the_task(
    op: TaskOperation,
    m: MemoryView,
    state: AttemptState,
    event: AttemptEvent,
)
    requires
        fits(op, state, event),
    ensures
        ({
            let (after, then) = attempt(op, m, state, event);
            &&& event == AttemptEvent::Recovered(Ok(())) ==> then == go(
                AttemptState::Resolve { retry_delay_ms: CARD_RETRY_BASE_MS },
            )
            &&& event is Client && event->Client_0 is Ok ==> then == go(AttemptState::Inspect)
            &&& event == AttemptEvent::Replacement(Ok(true)) ==> then == go(
                AttemptState::Resolve { retry_delay_ms: CARD_RETRY_BASE_MS },
            )
            &&& event == AttemptEvent::Replacement(Ok(false)) ==> then == go(
                AttemptState::FinalGet {
                    resubscribe_if_working: state->CheckReplacement_resubscribe_if_working,
                },
            )
            &&& event is Opened && event->Opened_0 == Some(
                Ok::<(), OperationClientError>(()),
            ) ==> then == go(
                if state == AttemptState::Send {
                    AttemptState::Stream
                } else {
                    AttemptState::Subscription
                },
            )
            &&& event is Streamed && event->Streamed_0 is Some && event->Streamed_0->0 is Ok
                && event->Streamed_0->0->Ok_0 is None ==> then == go(
                AttemptState::CheckReplacement {
                    resubscribe_if_working: state == AttemptState::Stream,
                },
            )
            &&& state == AttemptState::Inspect && event is Fetched && event->Fetched_0 is Some
                && event->Fetched_0->0 is Err && says_missing(event->Fetched_0->0->Err_0@)
                && op.normalized_request is Some && !m.resend_attempted ==> then == go(
                AttemptState::Send,
            )
        }),
{
}

/// An agent that is not there is waited for until the time is over, and nothing else
/// follows from its absence.
pub proof fn law_an_absent_agent_is_waited_for(
    op: TaskOperation,
    m: MemoryView,
    delay: u64,
    event: AttemptEvent,
)
    requires
        event is Client,
        event->Client_0 is Err,
        event->Client_0->Err_0 is AgentUnavailable,
        delay <= CARD_RETRY_MAX_MS,
    ensures
        ({
            let left = event->Client_1;
            let then = attempt(op, m, AttemptState::Resolve { retry_delay_ms: delay }, event).1;
            &&& left > 0 ==> then is Go && then->Go_state is Resolve && then->Go_wait <= left
                && then->Go_wait == if delay * 1000 <= left {
                delay * 1000
            } else {
                left as int
            }
            &&& left > 0 ==> then->Go_state->retry_delay_ms == if delay >= 500 {
                1000
            } else {
                delay * 2
            }
            &&& left == 0 ==> then is Done && json_get(then->Done_0, "recovery_reason"@) == Some(
                JsonView::Text("agent_unavailable"@),
            ) && json_get(then->Done_0, "timed_out"@) == Some(JsonView::Bool(true))
        }),
{
    let any = TaskView {
        id: op.task_id@,
        context_id: op.task_id@,
        state: TaskPhase::Working,
        text: None,
        metadata: None,
    };
    lemma_outcome_fields(op, m, any, "agent_unavailable"@);
}

/// A recovery that fails ends the operation: as one whose time is over, where that was the
/// reason, and else with the reason. A broker that cannot be reached while it is looked
/// for a replacement does not: the task is asked for a last time.
pub proof fn law_failed_recoveries_end_the_operation(
    op: TaskOperation,
    m: MemoryView,
    state: AttemptState,
    event: AttemptEvent,
)
    requires
        fits(op, state, event),
    ensures
        ({
            let then = attempt(op, m, state, event).1;
            &&& event is Recovered && event->Recovered_0 is Err ==> if event->Recovered_0->Err_0
                is Deadline {
                then is Done && json_get(then->Done_0, "recovery_reason"@) == Some(
                    JsonView::Text("broker_unavailable"@),
                ) && json_get(then->Done_0, "timed_out"@) == Some(JsonView::Bool(true))
            } else {
                then == NextView::Fail(
                    SessionFailureView::Plain(recovery_text(event->Recovered_0->Err_0@)),
                )
            }
            &&& event is Replacement && event->Replacement_0 is Err ==> if event->Replacement_0->Err_0
                is Unavailable {
                then == go(
                    AttemptState::FinalGet {
                        resubscribe_if_working: state->CheckReplacement_resubscribe_if_working,
                    },
                )
            } else if event->Replacement_0->Err_0 is Deadline {
                then is Done && json_get(then->Done_0, "timed_out"@) == Some(JsonView::Bool(true))
            } else {
                then == NextView::Fail(
                    SessionFailureView::Plain(recovery_text(event->Replacement_0->Err_0@)),
                )
            }
        }),
{
    let any = TaskView {
        id: op.task_id@,
        context_id: op.task_id@,
        state: TaskPhase::Working,
        text: None,
        metadata: None,
    };
    lemma_outcome_fields(op, m, any, "broker_unavailable"@);
    lemma_outcome_fields(op, m, any, "deadline_expired"@);
}

/// A message that is not waited for ends as soon as its task is known, with the names by
/// which it can be followed; without a task, or with that of another, it fails.
pub proof fn law_immediate_sends_give_the_task(op: TaskOperation, m: MemoryView, reply: SendReply)
    requires
        op.wait_mode == TaskWaitMode::Immediate,
    ensures
        ({
            let then = attempt(
                op,
                m,
                AttemptState::Send,
                AttemptEvent::Sent(Some(Ok(reply))),
            ).1;
            match reply {
                SendReply::Message => then is Fail,
                SendReply::Task(task) => {
                    let own = task.id@ == op.task_id@ && (op.context_id is Some
                        ==> task.context_id@ == op.context_id->0@);
                    &&& own == (then is Done)
                    &&& !own == (then is Fail)
                    &&& own ==> json_get(then->Done_0, "agent"@) == Some(JsonView::Text(op.agent@))
                    &&& own ==> json_get(then->Done_0, "conversation_id"@) == Some(
                        JsonView::Text(task.context_id@),
                    )
                    &&& own ==> json_get(then->Done_0, "state"@) == Some(
                        JsonView::Text(state_text(task.state)),
                    )
                },
            }
        }),
{
    lemma_more_result_names();
    let names = seq![
        "agent"@,
        "conversation_id"@,
        "metadata"@,
        "recovery_reason"@,
        "requested_agent"@,
        "resume_task_id"@,
        "state"@,
        "stream_lost"@,
        "task_confirmed"@,
        "task_id"@,
        "task_reachable"@,
        "text"@,
        "timed_out"@,
    ];
    assert(names[0] != names[1] && names[0] != names[6] && names[1] != names[6]);
    match immediate_outcome(op, reply) {
        Ok(v) => {
            let fields = v->Object_0;
            lemma_field_skip(fields, "agent"@, 0);
            lemma_field_skip(fields, "conversation_id"@, 1);
            lemma_field_skip(fields, "state"@, 2);
        },
        Err(_) => {},
    }
}

/// Following a task begins with sending its message, where there is one, and with asking
/// for it, where it is followed again; an agent that is lost already is recovered first.
pub proof fn law_following_begins(op: TaskOperation, client: Result<(), OperationClientError>)
    ensures
        client is Ok && op.normalized_request is Some ==> begun(op, client) == go(
            AttemptState::Send,
        ),
        client is Ok && op.normalized_request is None ==> begun(op, client) == go(
            AttemptState::Inspect,
        ),
        client is Err ==> begun(op, client) == match client->Err_0 {
            OperationClientError::Connection(_) | OperationClientError::Deadline(_) => go(
                AttemptState::Recover { mode: RecoveryMode::BrokerReplacement },
            ),
            OperationClientError::RegistrationAuthLost(_) => go(
                AttemptState::Recover { mode: RecoveryMode::RegistrationRefresh },
            ),
            _ => NextView::Fail(
                SessionFailureView::Plain(client_error_text(client->Err_0@)),
            ),
        },
{
}

/// A message is sent just when its target can be named, its text is within its bound, its
/// conversation, if it names one, is valid, and its wait, if it names one, is from a second
/// to a day; and then only with metadata that is an object within its bound, and while
/// there is room for another task.
pub proof fn law_messages_are_sent_within_their_bounds(
    params: NewSendParams,
    conversation_ok: bool,
    max_text: nat,
    max: nat,
    has_permit: bool,
)
    ensures
        new_message_failure(params, conversation_ok, max_text) is None <==> {
            &&& bounded_control_free(params.agent@, 1024)
            &&& utf8(params.text@).len() <= max_text
            &&& params.conversation_id is None || conversation_ok
            &&& params.timeout_ms is None || 1_000 <= params.timeout_ms->0 <= 86_400_000
        },
        unsendable(params.metadata@, max, has_permit) is None <==> (params.metadata@ is Object
            && json_encoded(params.metadata@).len() <= max && has_permit),
{
}

/// A task is followed again just when its agent and its name are valid, there is room for
/// it, and its wait, if it names one, is from a second to a day.
pub proof fn law_tasks_are_followed_again_by_name(
    timeout_ms: Option<u64>,
    agent_ok: bool,
    task_id_failure: Option<Seq<char>>,
    has_permit: bool,
)
    ensures
        unresumable(timeout_ms, agent_ok, task_id_failure, has_permit) is None <==> (agent_ok
            && task_id_failure is None && has_permit && (timeout_ms is None || 1_000
            <= timeout_ms->0 <= 86_400_000)),
        agent_ok && task_id_failure is Some ==> unresumable(
            timeout_ms,
            agent_ok,
            task_id_failure,
            has_permit,
        ) == Some(SessionFailureView::Plain(task_id_failure->0)),
{
}

/// The name of a task is 36 characters: hexadecimal digits in five groups of eight, four,
/// four, four and twelve, with hyphens between them.
pub proof fn law_task_names_are_five_groups(s: Seq<char>, i: int)
    requires
        uuid_text(s),
        0 <= i < 36,
    ensures
        s.len() == 36,
        s[i] == '-' <==> (i == 8 || i == 13 || i == 18 || i == 23),
        s[i] != '-' ==> ('0' <= s[i] && s[i] <= '9') || ('a' <= s[i] && s[i] <= 'f'),
{
}

/// A message is sent under the names of its operation: to the agent, as the task and in the
/// context that the operation follows. Its reply comes at once just where nobody waits for
/// the end, and metadata is sent just where there is any.
pub proof fn law_requests_carry_the_names_of_their_operation(
    op: TaskOperation,
    params: NewSendParams,
    agent: Seq<char>,
    task_id: Seq<char>,
    context_id: Seq<char>,
    deadline: u64,
)
    requires
        sent_as(op, params, agent, task_id, context_id, deadline),
    ensures
        op.normalized_request is Some,
        ({
            let request = op.normalized_request->0;
            &&& request.task_id@ == op.task_id@
            &&& op.task_id@ == task_id
            &&& op.context_id is Some && request.context_id@ == op.context_id->0@
            &&& request.context_id@ == context_id
            &&& request.tenant@ == op.tenant@
            &&& op.tenant@ == op.agent@
            &&& op.agent@ == agent
            &&& op.requested_agent@ == params.agent@
            &&& request.text@ == params.text@
            &&& request.return_immediately <==> op.wait_mode is Immediate
            &&& op.wait_mode is Terminal <==> params.wait
            &&& request.metadata is Some <==> params.metadata@->Object_0.len() > 0
            &&& request.metadata is Some ==> request.metadata->0@ == params.metadata@
            &&& op.deadline == deadline
        }),
{
}

/// A task that is followed again is waited for to its end, under the name that was given and
/// with nothing sent, for the time that was asked for or a minute.
pub proof fn law_resumed_tasks_send_nothing(op: TaskOperation, params: ResumeSendParams, now: u64)
    requires
        resumed_as(op, params, now),
    ensures
        op.normalized_request is None,
        op.context_id is None,
        op.wait_mode is Terminal,
        op.task_id@ == params.resume_task_id@,
        op.agent@ == params.agent@ && op.tenant@ == op.agent@ && op.requested_agent@ == op.agent@,
        params.timeout_ms is None ==> op.deadline == now + 60_000_000,
        params.timeout_ms is Some ==> op.deadline == now + 1000 * params.timeout_ms->0,
{
}

/// An event says that a task is being worked on just when it is about that task and gives
/// this state, as the task itself or as an update of its status.
pub proof fn law_working_is_said_of_the_task(event: StreamEvent, task_id: Seq<char>)
    ensures
        says_working(event, task_id) <==> ((event is Task && event->Task_0.id@ == task_id
            && event->Task_0.state is Working) || (event is StatusUpdate && event->task_id@
            == task_id && event->state is Working)),
{
}

} // verus!
